use state_sync::message::{RemoteState, State, Vec2};
use state_sync::store::StateStore;

fn state(x: f32, y: f32, r: f32) -> State {
    State { pos: Vec2 { x: x.to_bits(), y: y.to_bits() }, r: r.to_bits() }
}

fn remote(id: usize, x: f32, y: f32, r: f32) -> RemoteState {
    RemoteState { id, position: Vec2 { x: x.to_bits(), y: y.to_bits() }, rotation: r.to_bits() }
}

fn sorted(mut list: Vec<RemoteState>) -> Vec<RemoteState> {
    list.sort_by_key(|s| s.id);
    list
}

#[test]
fn new_store_is_empty() {
    let store = StateStore::new();
    assert!(store.is_empty());
    assert_eq!(store.len(), 0);
    assert_eq!(store.snapshot(), Vec::<RemoteState>::new());
    assert_eq!(store.get(1), None);
}

#[test]
fn upsert_files_the_report_under_its_connection() {
    let mut store = StateStore::new();
    store.upsert(1, state(10.0, 10.0, 0.0));
    assert!(!store.is_empty());
    assert_eq!(store.len(), 1);
    assert_eq!(store.get(1), Some(remote(1, 10.0, 10.0, 0.0)));
    assert_eq!(store.get(2), None);
    assert_eq!(store.snapshot(), vec![remote(1, 10.0, 10.0, 0.0)]);
}

#[test]
fn upsert_overwrites_the_earlier_report() {
    let mut store = StateStore::new();
    store.upsert(7, state(1.0, 2.0, 3.0));
    store.upsert(7, state(4.0, 5.0, 6.0));
    assert_eq!(store.len(), 1);
    assert_eq!(store.get(7), Some(remote(7, 4.0, 5.0, 6.0)));
    assert_eq!(store.snapshot(), vec![remote(7, 4.0, 5.0, 6.0)]);
}

#[test]
fn snapshot_holds_every_connection_once() {
    let mut store = StateStore::new();
    store.upsert(3, state(3.0, 30.0, 0.3));
    store.upsert(1, state(1.0, 10.0, 0.1));
    store.upsert(2, state(2.0, 20.0, 0.2));
    store.upsert(1, state(1.5, 15.0, 0.15));
    assert_eq!(store.len(), 3);
    assert_eq!(
        sorted(store.snapshot()),
        vec![remote(1, 1.5, 15.0, 0.15), remote(2, 2.0, 20.0, 0.2), remote(3, 3.0, 30.0, 0.3)]
    );
}

#[test]
fn snapshot_is_a_copy() {
    let mut store = StateStore::new();
    store.upsert(1, state(1.0, 1.0, 1.0));
    let before = store.snapshot();
    store.upsert(1, state(2.0, 2.0, 2.0));
    store.upsert(2, state(3.0, 3.0, 3.0));
    assert_eq!(before, vec![remote(1, 1.0, 1.0, 1.0)]);
}

#[test]
fn remove_drops_the_entry() {
    let mut store = StateStore::new();
    store.upsert(1, state(1.0, 1.0, 1.0));
    store.upsert(2, state(2.0, 2.0, 2.0));
    store.remove(1);
    assert_eq!(store.len(), 1);
    assert_eq!(store.get(1), None);
    assert_eq!(store.snapshot(), vec![remote(2, 2.0, 2.0, 2.0)]);
}

#[test]
fn remove_of_an_absent_id_changes_nothing() {
    let mut store = StateStore::new();
    store.remove(5);
    assert!(store.is_empty());
    store.upsert(2, state(2.0, 2.0, 2.0));
    store.remove(1);
    store.remove(2);
    store.remove(2);
    store.remove(2);
    assert!(store.is_empty());
    assert_eq!(store.snapshot(), Vec::<RemoteState>::new());
    store.upsert(3, state(3.0, 3.0, 3.0));
    store.remove(2);
    assert_eq!(store.snapshot(), vec![remote(3, 3.0, 3.0, 3.0)]);
}

#[test]
fn not_a_number_is_carried_bit_for_bit() {
    let mut store = StateStore::new();
    let odd = State { pos: Vec2 { x: 0x7FC0_0001, y: 0xFFFF_FFFF }, r: 0x8000_0000 };
    store.upsert(9, odd);
    let got = store.get(9).unwrap();
    assert_eq!(got.position.x, 0x7FC0_0001);
    assert_eq!(got.position.y, 0xFFFF_FFFF);
    assert_eq!(got.rotation, 0x8000_0000);
}
