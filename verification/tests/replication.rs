use network::{
    ClientId, ClientMessage, ClientSession, Dispatch, ProtocolViolation, ServerEvent,
    ServerMessage, ServerSession,
};
use std::collections::HashMap;

/// A server, the clients that are connected to it, and what is in flight to
/// each of them.
struct World {
    server: ServerSession,
    clients: HashMap<ClientId, ClientSession>,
    in_flight: HashMap<ClientId, Vec<ServerMessage>>,
    violations: Vec<ProtocolViolation>,
}

fn world() -> World {
    World {
        server: ServerSession::new(),
        clients: HashMap::new(),
        in_flight: HashMap::new(),
        violations: Vec::new(),
    }
}

fn post(w: &mut World, sender: ClientId, d: Dispatch) {
    if let Some(m) = d.reply {
        w.in_flight.entry(sender).or_default().push(m);
    }
    if let Some(m) = d.broadcast {
        for id in d.recipients {
            w.in_flight.entry(id).or_default().push(m.clone());
        }
    }
}

fn connect(w: &mut World, id: ClientId, name: &str) {
    let mut c = ClientSession::new(name.to_string());
    let join = c.handle_connected();
    w.clients.insert(id, c);
    w.in_flight.insert(id, Vec::new());
    w.server.handle_event(ServerEvent::Connected { client_id: id }).unwrap();
    let d = w.server.handle_message(id, join).unwrap();
    post(w, id, d);
}

fn say_goodbye(w: &mut World, id: ClientId) {
    let farewell = w.clients.get_mut(&id).unwrap().handle_app_exit().unwrap();
    let d = w.server.handle_message(id, farewell).unwrap();
    w.in_flight.remove(&id);
    w.clients.remove(&id);
    post(w, id, d);
}

fn drop_connection(w: &mut World, id: ClientId) {
    if let Some(c) = w.clients.get_mut(&id) {
        c.handle_connection_lost();
    }
    w.clients.remove(&id);
    w.in_flight.remove(&id);
    let d = w.server.handle_connection_lost(id);
    post(w, id, d);
}

fn drain(w: &mut World) {
    let ids: Vec<ClientId> = w.clients.keys().copied().collect();
    for id in ids {
        let pending = w.in_flight.insert(id, Vec::new()).unwrap_or_default();
        for m in pending {
            if let Err(v) = w.clients.get_mut(&id).unwrap().handle_message(m) {
                w.violations.push(v);
            }
        }
    }
}

fn assert_converged(w: &World) {
    let authoritative = w.server.snapshot();
    assert_eq!(w.clients.len(), authoritative.len());
    for (id, c) in &w.clients {
        assert!(c.is_joined());
        assert_eq!(c.local_id(), Some(*id));
        let mut expected = authoritative.clone();
        expected.remove(id);
        expected.insert(*id, c.name());
        assert_eq!(c.directory(), expected);
        assert_eq!(c.directory(), authoritative);
    }
    assert_eq!(w.violations, Vec::new());
}

#[test]
fn replicas_converge_after_joins() {
    let mut w = world();
    connect(&mut w, 1, "Alice");
    connect(&mut w, 2, "Bob");
    connect(&mut w, 3, "Carol");
    drain(&mut w);
    assert_converged(&w);
    assert_eq!(w.server.participant_count(), 3);
}

#[test]
fn replicas_converge_with_churn() {
    let mut w = world();
    connect(&mut w, 1, "Alice");
    connect(&mut w, 2, "Bob");
    drain(&mut w);
    assert_converged(&w);
    connect(&mut w, 3, "Carol");
    drop_connection(&mut w, 1);
    connect(&mut w, 4, "Dave");
    say_goodbye(&mut w, 2);
    drop_connection(&mut w, 2);
    connect(&mut w, 1, "Alice returns");
    drain(&mut w);
    assert_converged(&w);
    let mut ids = w.server.participants();
    ids.sort();
    assert_eq!(ids, vec![1, 3, 4]);
}

#[test]
fn replicas_converge_when_drained_only_at_the_end() {
    let mut w = world();
    let mut next: ClientId = 0;
    for round in 0..40u64 {
        connect(&mut w, next, &format!("player{}", next));
        next += 1;
        if round % 3 == 2 {
            let leaver = round / 3 * 2;
            if w.clients.contains_key(&leaver) {
                drop_connection(&mut w, leaver);
            }
        }
        if round % 7 == 6 {
            let leaver = round - 1;
            if w.clients.contains_key(&leaver) {
                say_goodbye(&mut w, leaver);
            }
        }
    }
    drain(&mut w);
    assert_converged(&w);
    assert!(w.server.participant_count() > 0);
}

#[test]
fn client_never_hears_of_its_own_departure() {
    let mut w = world();
    connect(&mut w, 1, "Alice");
    connect(&mut w, 2, "Bob");
    connect(&mut w, 3, "Carol");
    let d = w.server.handle_message(2, ClientMessage::Disconnect {}).unwrap();
    assert!(!d.recipients.contains(&2));
    assert_eq!(d.reply, None);
    let d = w.server.handle_connection_lost(3);
    assert!(!d.recipients.contains(&3));
    assert_eq!(d.recipients, vec![1]);
}

#[test]
fn second_joiner_sees_first_and_first_learns_of_second() {
    let mut w = world();
    connect(&mut w, 7, "A");
    connect(&mut w, 9, "B");
    match &w.in_flight[&9][0] {
        ServerMessage::InitClient { client_id, usernames } => {
            assert_eq!(*client_id, 9);
            assert_eq!(usernames.get(&7), Some(&"A".to_string()));
            assert!(!usernames.contains_key(&9));
        }
        other => panic!("expected InitClient, got {:?}", other),
    }
    drain(&mut w);
    assert_eq!(w.clients[&7].name_of(9), Some("B".to_string()));
    assert_eq!(w.clients[&9].name_of(7), Some("A".to_string()));
    assert_converged(&w);
}
