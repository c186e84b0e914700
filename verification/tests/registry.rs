use state_sync::broadcast::Delivery;
use state_sync::message::ServerMessage;
use state_sync::registry::Registry;

fn recipients(deliveries: &Vec<Delivery>) -> Vec<usize> {
    let mut ids: Vec<usize> = deliveries.iter().map(|d| d.to).collect();
    ids.sort();
    ids
}

#[test]
fn new_registry_is_empty() {
    let registry: Registry<String> = Registry::new();
    assert!(registry.is_empty());
    assert_eq!(registry.len(), 0);
    assert_eq!(registry.ids(), Vec::<usize>::new());
    assert!(!registry.contains(1));
    assert_eq!(registry.get(1), None);
    assert_eq!(registry.snapshot().len(), 0);
}

#[test]
fn insert_registers_the_channel() {
    let mut registry: Registry<String> = Registry::new();
    assert_eq!(registry.insert(1, String::from("a")), None);
    assert_eq!(registry.insert(2, String::from("b")), None);
    assert_eq!(registry.len(), 2);
    assert!(registry.contains(1));
    assert!(registry.contains(2));
    assert!(!registry.contains(3));
    assert_eq!(registry.get(1), Some(&String::from("a")));
    assert_eq!(registry.get(2), Some(&String::from("b")));
    let mut ids = registry.ids();
    ids.sort();
    assert_eq!(ids, vec![1, 2]);
}

#[test]
fn insert_hands_back_the_channel_it_replaces() {
    let mut registry: Registry<String> = Registry::new();
    assert_eq!(registry.insert(1, String::from("old")), None);
    assert_eq!(registry.insert(1, String::from("new")), Some(String::from("old")));
    assert_eq!(registry.len(), 1);
    assert_eq!(registry.get(1), Some(&String::from("new")));
}

#[test]
fn remove_hands_back_the_channel() {
    let mut registry: Registry<String> = Registry::new();
    registry.insert(1, String::from("a"));
    registry.insert(2, String::from("b"));
    assert_eq!(registry.remove(1), Some(String::from("a")));
    assert!(!registry.contains(1));
    assert_eq!(registry.ids(), vec![2]);
}

#[test]
fn remove_of_an_absent_id_is_no_error() {
    let mut registry: Registry<String> = Registry::new();
    assert_eq!(registry.remove(4), None);
    registry.insert(1, String::from("a"));
    assert_eq!(registry.remove(4), None);
    assert_eq!(registry.remove(1), Some(String::from("a")));
    assert_eq!(registry.remove(1), None);
    assert_eq!(registry.remove(1), None);
    assert!(registry.is_empty());
    registry.insert(2, String::from("b"));
    assert_eq!(registry.remove(1), None);
    assert_eq!(registry.ids(), vec![2]);
    assert_eq!(registry.get(2), Some(&String::from("b")));
}

#[test]
fn snapshot_pairs_each_id_with_its_channel() {
    let mut registry: Registry<String> = Registry::new();
    registry.insert(3, String::from("c"));
    registry.insert(1, String::from("a"));
    registry.insert(2, String::from("b"));
    let mut pairs: Vec<(usize, String)> =
        registry.snapshot().into_iter().map(|(id, channel)| (id, channel.clone())).collect();
    pairs.sort();
    assert_eq!(
        pairs,
        vec![(1, String::from("a")), (2, String::from("b")), (3, String::from("c"))]
    );
}

#[test]
fn send_to_all_reaches_every_registered_connection_once() {
    let mut registry: Registry<u8> = Registry::new();
    registry.insert(1, 0);
    registry.insert(2, 0);
    registry.insert(3, 0);
    let deliveries = registry.send_to_all(&ServerMessage::GoodBye(9), None);
    assert_eq!(recipients(&deliveries), vec![1, 2, 3]);
    for d in &deliveries {
        assert_eq!(d.message, ServerMessage::GoodBye(9));
    }
}

#[test]
fn send_to_all_leaves_out_the_excluded_connection() {
    let mut registry: Registry<u8> = Registry::new();
    registry.insert(1, 0);
    registry.insert(2, 0);
    registry.insert(3, 0);
    let deliveries = registry.send_to_all(&ServerMessage::GoodBye(2), Some(2));
    assert_eq!(recipients(&deliveries), vec![1, 3]);
    for d in &deliveries {
        assert_eq!(d.message, ServerMessage::GoodBye(2));
    }
    let deliveries = registry.send_to_all(&ServerMessage::Welcome(7), Some(7));
    assert_eq!(recipients(&deliveries), vec![1, 2, 3]);
}

#[test]
fn send_to_all_on_an_empty_registry_sends_nothing() {
    let registry: Registry<u8> = Registry::new();
    assert_eq!(registry.send_to_all(&ServerMessage::GoodBye(1), None), Vec::<Delivery>::new());
    assert_eq!(registry.send_to_all(&ServerMessage::GoodBye(1), Some(1)), Vec::<Delivery>::new());
}
