use state_sync::broadcast::{broadcast, update_round, Delivery};
use state_sync::handler::{user_message, Action, Handler, Inbound, Phase};
use state_sync::ids::IdAllocator;
use state_sync::message::{ClientMessage, RemoteState, ServerMessage, State, Vec2};
use state_sync::registry::Registry;
use state_sync::store::StateStore;
use std::collections::HashMap;

fn state(x: f32, y: f32, r: f32) -> State {
    State { pos: Vec2 { x: x.to_bits(), y: y.to_bits() }, r: r.to_bits() }
}

fn remote(id: usize, x: f32, y: f32, r: f32) -> RemoteState {
    RemoteState { id, position: Vec2 { x: x.to_bits(), y: y.to_bits() }, rotation: r.to_bits() }
}

fn report(x: f32, y: f32, r: f32) -> Inbound {
    Inbound::Frame(Some(ClientMessage::State(state(x, y, r))))
}

/// The parts of the server, driven the way the tasks of a real one drive them.
struct Server {
    ids: IdAllocator,
    users: Registry<()>,
    states: StateStore,
    received: HashMap<usize, Vec<ServerMessage>>,
}

impl Server {
    fn new() -> Server {
        Server {
            ids: IdAllocator::new(),
            users: Registry::new(),
            states: StateStore::new(),
            received: HashMap::new(),
        }
    }

    fn deliver(&mut self, deliveries: Vec<Delivery>) {
        for delivery in deliveries {
            self.received.get_mut(&delivery.to).unwrap().push(delivery.message);
        }
    }

    fn connect(&mut self) -> Handler {
        let mut handler = Handler::new();
        let welcome = handler.send_welcome(&mut self.ids).unwrap();
        self.received.insert(handler.id(), vec![welcome]);
        self.users.insert(handler.id(), ());
        handler
    }

    fn read(&mut self, handler: &mut Handler, event: Inbound) {
        match handler.step(event) {
            Action::Report { id, message } => user_message(id, message, &mut self.states),
            Action::Ignore => {}
            Action::Leave { id } => {
                self.states.remove(id);
                self.users.remove(id);
                let deliveries = broadcast(ServerMessage::GoodBye(id), &self.users);
                self.deliver(deliveries);
            }
        }
    }

    fn tick(&mut self) {
        let snapshot = self.states.snapshot();
        let deliveries = update_round(&self.users, &snapshot);
        self.deliver(deliveries);
    }

    fn received(&self, id: usize) -> &Vec<ServerMessage> {
        self.received.get(&id).unwrap()
    }
}

fn mentions(message: &ServerMessage, id: usize) -> bool {
    match message {
        ServerMessage::Update(states) => states.iter().any(|s| s.id == id),
        _ => false,
    }
}

#[test]
fn scenario_two_clients_and_one_report() {
    let mut server = Server::new();
    let mut a = server.connect();
    assert_eq!(server.received(1), &vec![ServerMessage::Welcome(1)]);
    let b = server.connect();
    assert_eq!(server.received(2), &vec![ServerMessage::Welcome(2)]);
    assert_eq!(a.id(), 1);
    assert_eq!(b.id(), 2);
    server.read(&mut a, report(10.0, 10.0, 0.0));
    server.tick();
    assert_eq!(
        server.received(2),
        &vec![ServerMessage::Welcome(2), ServerMessage::Update(vec![remote(1, 10.0, 10.0, 0.0)])]
    );
    assert_eq!(server.received(1), &vec![ServerMessage::Welcome(1), ServerMessage::Update(vec![])]);
}

#[test]
fn scenario_a_client_leaves() {
    let mut server = Server::new();
    let mut a = server.connect();
    let mut b = server.connect();
    server.read(&mut a, report(10.0, 10.0, 0.0));
    server.read(&mut b, report(20.0, 20.0, 1.0));
    server.tick();
    server.read(&mut a, Inbound::Finished);
    assert_eq!(a.phase(), Phase::Closed);
    assert_eq!(
        server.received(2),
        &vec![
            ServerMessage::Welcome(2),
            ServerMessage::Update(vec![remote(1, 10.0, 10.0, 0.0)]),
            ServerMessage::GoodBye(1),
        ]
    );
    assert_eq!(
        server.received(1),
        &vec![ServerMessage::Welcome(1), ServerMessage::Update(vec![remote(2, 20.0, 20.0, 1.0)])]
    );
    assert!(!server.users.contains(1));
    assert_eq!(server.states.get(1), None);
    for _ in 0..5 {
        server.tick();
        server.read(&mut b, report(21.0, 21.0, 1.0));
    }
    let after_goodbye = &server.received(2)[3..];
    assert_eq!(after_goodbye.len(), 5);
    for message in after_goodbye {
        assert_eq!(message, &ServerMessage::Update(vec![]));
        assert!(!mentions(message, 1));
    }
    assert_eq!(server.received(1).len(), 2);
    let goodbyes = server.received(2).iter().filter(|m| **m == ServerMessage::GoodBye(1)).count();
    assert_eq!(goodbyes, 1);
}

#[test]
fn scenario_a_malformed_frame_is_survived() {
    let mut server = Server::new();
    let mut a = server.connect();
    let _b = server.connect();
    server.read(&mut a, Inbound::Frame(None));
    assert_eq!(a.phase(), Phase::Active);
    assert!(server.users.contains(1));
    assert!(server.states.is_empty());
    assert_eq!(server.received(1), &vec![ServerMessage::Welcome(1)]);
    assert_eq!(server.received(2), &vec![ServerMessage::Welcome(2)]);
    server.read(&mut a, report(3.0, 4.0, 5.0));
    assert_eq!(a.phase(), Phase::Active);
    assert_eq!(server.states.get(1), Some(remote(1, 3.0, 4.0, 5.0)));
    server.tick();
    assert_eq!(
        server.received(2),
        &vec![ServerMessage::Welcome(2), ServerMessage::Update(vec![remote(1, 3.0, 4.0, 5.0)])]
    );
}

#[test]
fn the_welcome_is_the_first_message_and_the_only_welcome() {
    let mut server = Server::new();
    let mut a = server.connect();
    server.read(&mut a, report(1.0, 1.0, 1.0));
    server.tick();
    let mut b = server.connect();
    server.tick();
    server.read(&mut b, report(2.0, 2.0, 2.0));
    let mut c = server.connect();
    server.tick();
    server.read(&mut a, Inbound::Failed);
    server.tick();
    server.read(&mut c, Inbound::Frame(None));
    server.tick();
    for id in 1usize..=3 {
        let log = server.received(id);
        assert_eq!(log[0], ServerMessage::Welcome(id));
        for message in &log[1..] {
            assert!(!matches!(message, ServerMessage::Welcome(_)));
        }
    }
    let log = server.received(3);
    assert_eq!(log.len(), 5);
    assert_eq!(
        sorted(&log[1]),
        ServerMessage::Update(vec![remote(1, 1.0, 1.0, 1.0), remote(2, 2.0, 2.0, 2.0)])
    );
    assert_eq!(log[2], ServerMessage::GoodBye(1));
    assert_eq!(log[3], ServerMessage::Update(vec![remote(2, 2.0, 2.0, 2.0)]));
    assert_eq!(log[4], ServerMessage::Update(vec![remote(2, 2.0, 2.0, 2.0)]));
}

fn sorted(message: &ServerMessage) -> ServerMessage {
    match message {
        ServerMessage::Update(states) => {
            let mut states = states.clone();
            states.sort_by_key(|s| s.id);
            ServerMessage::Update(states)
        }
        other => other.clone(),
    }
}

#[test]
fn everyone_else_hears_of_a_departure_exactly_once() {
    let mut server = Server::new();
    let mut handlers: Vec<Handler> = Vec::new();
    for _ in 0..4 {
        handlers.push(server.connect());
    }
    server.read(&mut handlers[1], Inbound::Failed);
    server.read(&mut handlers[1], Inbound::Failed);
    server.read(&mut handlers[1], Inbound::Finished);
    for id in [1usize, 3, 4] {
        assert_eq!(
            server.received(id),
            &vec![ServerMessage::Welcome(id), ServerMessage::GoodBye(2)]
        );
    }
    assert_eq!(server.received(2), &vec![ServerMessage::Welcome(2)]);
    server.read(&mut handlers[3], Inbound::Finished);
    assert_eq!(
        server.received(1),
        &vec![ServerMessage::Welcome(1), ServerMessage::GoodBye(2), ServerMessage::GoodBye(4)]
    );
    assert_eq!(
        server.received(3),
        &vec![ServerMessage::Welcome(3), ServerMessage::GoodBye(2), ServerMessage::GoodBye(4)]
    );
    assert_eq!(server.received(4), &vec![ServerMessage::Welcome(4), ServerMessage::GoodBye(2)]);
    assert_eq!(server.received(2), &vec![ServerMessage::Welcome(2)]);
}

#[test]
fn identifiers_are_not_reused_after_a_disconnect() {
    let mut server = Server::new();
    let mut a = server.connect();
    server.read(&mut a, Inbound::Finished);
    let b = server.connect();
    assert_eq!(b.id(), 2);
    let mut c = server.connect();
    server.read(&mut c, Inbound::Finished);
    let d = server.connect();
    assert_eq!(d.id(), 4);
}

#[test]
fn a_stale_state_without_a_connection_is_tolerated() {
    let mut server = Server::new();
    let _a = server.connect();
    server.states.upsert(9, state(9.0, 9.0, 9.0));
    server.tick();
    assert_eq!(
        server.received(1),
        &vec![ServerMessage::Welcome(1), ServerMessage::Update(vec![remote(9, 9.0, 9.0, 9.0)])]
    );
}
