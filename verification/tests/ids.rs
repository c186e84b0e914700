use state_sync::ids::IdAllocator;

#[test]
fn first_identifier_is_one() {
    let mut ids = IdAllocator::new();
    assert_eq!(ids.next(), Some(1));
}

#[test]
fn identifiers_count_up_by_one() {
    let mut ids = IdAllocator::new();
    assert_eq!(ids.next(), Some(1));
    assert_eq!(ids.next(), Some(2));
    assert_eq!(ids.next(), Some(3));
}

#[test]
fn identifiers_are_distinct_and_increasing() {
    let mut ids = IdAllocator::new();
    let mut issued: Vec<usize> = Vec::new();
    for _ in 0..1000 {
        issued.push(ids.next().unwrap());
    }
    for i in 1..issued.len() {
        assert!(issued[i - 1] < issued[i]);
    }
    assert_eq!(issued[0], 1);
    assert_eq!(issued[999], 1000);
    for id in &issued {
        assert_ne!(*id, 0);
    }
}

#[test]
fn allocators_do_not_share_a_counter() {
    let mut a = IdAllocator::new();
    let mut b = IdAllocator::new();
    assert_eq!(a.next(), Some(1));
    assert_eq!(a.next(), Some(2));
    assert_eq!(b.next(), Some(1));
}
