use network::{
    ClientEvent, ClientId, ClientMessage, ClientPhase, ClientSession, ConnectError,
    ConnectionTarget, NetworkEvent, ProtocolViolation, ServerMessage,
};
use std::collections::HashMap;

fn table(entries: &[(ClientId, &str)]) -> HashMap<ClientId, String> {
    let mut m = HashMap::new();
    for (id, name) in entries {
        m.insert(*id, name.to_string());
    }
    m
}

fn joined_client(name: &str, id: ClientId, others: &[(ClientId, &str)]) -> ClientSession {
    let mut c = ClientSession::new(name.to_string());
    c.handle_connected();
    c.handle_message(ServerMessage::InitClient { client_id: id, usernames: table(others) })
        .expect("init is in order");
    c
}

#[test]
fn new_client_is_disconnected_and_empty() {
    let c = ClientSession::new("Alice".to_string());
    assert_eq!(c.phase(), ClientPhase::Disconnected);
    assert_eq!(c.local_id(), None);
    assert_eq!(c.directory(), HashMap::new());
    assert_eq!(c.participant_count(), 0);
    assert_eq!(c.name(), "Alice".to_string());
    assert!(!c.is_joined());
}

#[test]
fn connecting_sends_join_with_configured_name() {
    let mut c = ClientSession::new("Alice".to_string());
    let m = c.handle_connected();
    assert_eq!(m, ClientMessage::Join { name: "Alice".to_string() });
    assert_eq!(c.phase(), ClientPhase::AwaitingInit);
    assert_eq!(c.local_id(), None);
    assert_eq!(c.participant_count(), 0);
}

#[test]
fn init_sets_identity_and_replaces_replica() {
    let mut c = ClientSession::new("Bob".to_string());
    c.handle_connected();
    let r = c.handle_message(ServerMessage::InitClient {
        client_id: 2,
        usernames: table(&[(1, "Alice")]),
    });
    assert_eq!(r, Ok(()));
    assert_eq!(c.phase(), ClientPhase::Joined);
    assert!(c.is_joined());
    assert_eq!(c.local_id(), Some(2));
    assert_eq!(c.directory(), table(&[(1, "Alice"), (2, "Bob")]));
    assert_eq!(c.name_of(2), Some("Bob".to_string()));
    assert_eq!(c.name_of(1), Some("Alice".to_string()));
    assert_eq!(c.name_of(3), None);
    assert_eq!(c.participant_count(), 2);
    let mut ids = c.participants();
    ids.sort();
    assert_eq!(ids, vec![1, 2]);
}

#[test]
fn init_before_connecting_is_a_violation() {
    let mut c = ClientSession::new("Bob".to_string());
    let r = c.handle_message(ServerMessage::InitClient {
        client_id: 2,
        usernames: table(&[(1, "Alice")]),
    });
    assert_eq!(r, Err(ProtocolViolation::UnexpectedInit));
    assert_eq!(c.phase(), ClientPhase::Disconnected);
    assert_eq!(c.local_id(), None);
    assert_eq!(c.directory(), HashMap::new());
}

#[test]
fn second_init_is_a_violation() {
    let mut c = joined_client("Bob", 2, &[(1, "Alice")]);
    let r = c.handle_message(ServerMessage::InitClient { client_id: 9, usernames: table(&[]) });
    assert_eq!(r, Err(ProtocolViolation::UnexpectedInit));
    assert_eq!(c.local_id(), Some(2));
    assert_eq!(c.directory(), table(&[(1, "Alice"), (2, "Bob")]));
}

#[test]
fn client_connected_inserts_and_overwrites() {
    let mut c = joined_client("Bob", 2, &[(1, "Alice")]);
    assert_eq!(
        c.handle_message(ServerMessage::ClientConnected {
            client_id: 3,
            username: "Carol".to_string()
        }),
        Ok(())
    );
    assert_eq!(c.directory(), table(&[(1, "Alice"), (2, "Bob"), (3, "Carol")]));
    assert_eq!(
        c.handle_message(ServerMessage::ClientConnected {
            client_id: 3,
            username: "Caroline".to_string()
        }),
        Ok(())
    );
    assert_eq!(c.directory(), table(&[(1, "Alice"), (2, "Bob"), (3, "Caroline")]));
}

#[test]
fn client_connected_before_init_is_a_violation() {
    let mut c = ClientSession::new("Bob".to_string());
    c.handle_connected();
    let r = c.handle_message(ServerMessage::ClientConnected {
        client_id: 3,
        username: "Carol".to_string(),
    });
    assert_eq!(r, Err(ProtocolViolation::NotJoined));
    assert_eq!(c.directory(), HashMap::new());
    assert_eq!(c.phase(), ClientPhase::AwaitingInit);
}

#[test]
fn client_disconnected_removes_and_is_idempotent() {
    let mut c = joined_client("Bob", 2, &[(1, "Alice"), (3, "Carol")]);
    assert_eq!(c.handle_message(ServerMessage::ClientDisconnected { client_id: 1 }), Ok(()));
    assert_eq!(c.directory(), table(&[(2, "Bob"), (3, "Carol")]));
    assert_eq!(c.handle_message(ServerMessage::ClientDisconnected { client_id: 1 }), Ok(()));
    assert_eq!(c.directory(), table(&[(2, "Bob"), (3, "Carol")]));
}

#[test]
fn client_disconnected_of_self_is_a_violation() {
    let mut c = joined_client("Bob", 2, &[(1, "Alice")]);
    let r = c.handle_message(ServerMessage::ClientDisconnected { client_id: 2 });
    assert_eq!(r, Err(ProtocolViolation::SelfDisconnect));
    assert_eq!(c.directory(), table(&[(1, "Alice"), (2, "Bob")]));
    assert_eq!(c.local_id(), Some(2));
    assert!(c.is_joined());
}

#[test]
fn client_disconnected_before_init_is_a_violation() {
    let mut c = ClientSession::new("Bob".to_string());
    let r = c.handle_message(ServerMessage::ClientDisconnected { client_id: 1 });
    assert_eq!(r, Err(ProtocolViolation::NotJoined));
    c.handle_connected();
    let r = c.handle_message(ServerMessage::ClientDisconnected { client_id: 1 });
    assert_eq!(r, Err(ProtocolViolation::NotJoined));
}

#[test]
fn connection_lost_clears_everything() {
    let mut c = joined_client("Bob", 2, &[(1, "Alice")]);
    c.handle_connection_lost();
    assert_eq!(c.phase(), ClientPhase::Disconnected);
    assert_eq!(c.local_id(), None);
    assert_eq!(c.directory(), HashMap::new());
    assert_eq!(c.name(), "Bob".to_string());
}

#[test]
fn reconnection_starts_a_fresh_cycle() {
    let mut c = joined_client("Bob", 2, &[(1, "Alice")]);
    c.handle_connection_lost();
    let m = c.handle_connected();
    assert_eq!(m, ClientMessage::Join { name: "Bob".to_string() });
    assert_eq!(c.phase(), ClientPhase::AwaitingInit);
    let r = c.handle_message(ServerMessage::InitClient { client_id: 5, usernames: table(&[]) });
    assert_eq!(r, Ok(()));
    assert_eq!(c.local_id(), Some(5));
    assert_eq!(c.directory(), table(&[(5, "Bob")]));
}

#[test]
fn request_moves_a_disconnected_client_to_connecting() {
    let mut c = ClientSession::new("Bob".to_string());
    let r = c.request_connection(&NetworkEvent::ClientConnect("10.0.0.7".to_string(), 6000));
    assert_eq!(
        r,
        Ok(ConnectionTarget {
            server_ip: [10, 0, 0, 7],
            server_port: 6000,
            local_ip: [0, 0, 0, 0],
            local_port: 0,
            verify_certificate: false,
        })
    );
    assert_eq!(c.phase(), ClientPhase::Connecting);
    assert_eq!(c.local_id(), None);
    assert_eq!(c.participant_count(), 0);
    assert_eq!(c.handle_connected(), ClientMessage::Join { name: "Bob".to_string() });
    assert_eq!(c.phase(), ClientPhase::AwaitingInit);
}

#[test]
fn malformed_request_leaves_the_session_alone() {
    let mut c = ClientSession::new("Bob".to_string());
    let r = c.request_connection(&NetworkEvent::ClientConnect("example.org".to_string(), 6000));
    assert_eq!(r, Err(ConnectError::MalformedHost));
    assert_eq!(c.phase(), ClientPhase::Disconnected);

    let mut joined = joined_client("Bob", 2, &[(1, "Alice")]);
    let r = joined.request_connection(&NetworkEvent::ClientConnect("1.2.3".to_string(), 1));
    assert_eq!(r, Err(ConnectError::MalformedHost));
    assert_eq!(joined.phase(), ClientPhase::Joined);
    assert_eq!(joined.directory(), table(&[(1, "Alice"), (2, "Bob")]));
}

#[test]
fn request_while_connected_keeps_the_session() {
    let mut joined = joined_client("Bob", 2, &[(1, "Alice")]);
    let r = joined.request_connection(&NetworkEvent::ClientConnect("1.2.3.4".to_string(), 1));
    assert_eq!(r.map(|t| t.server_ip), Ok([1, 2, 3, 4]));
    assert_eq!(joined.phase(), ClientPhase::Joined);
    assert_eq!(joined.local_id(), Some(2));
    assert_eq!(joined.directory(), table(&[(1, "Alice"), (2, "Bob")]));
}

#[test]
fn connection_that_never_comes_about_returns_to_disconnected() {
    let mut c = ClientSession::new("Bob".to_string());
    c.request_connection(&NetworkEvent::ClientConnect("10.0.0.7".to_string(), 6000)).unwrap();
    c.handle_connection_lost();
    assert_eq!(c.phase(), ClientPhase::Disconnected);
}

#[test]
fn failed_open_is_reported_and_ends_the_connecting() {
    let mut c = ClientSession::new("Bob".to_string());
    c.request_connection(&NetworkEvent::ClientConnect("10.0.0.7".to_string(), 6000)).unwrap();
    assert_eq!(c.handle_open_result(false), Err(ConnectError::OpenFailed));
    assert_eq!(c.phase(), ClientPhase::Disconnected);
    assert_eq!(c.local_id(), None);
    assert_eq!(c.name(), "Bob".to_string());
}

#[test]
fn successful_open_changes_nothing() {
    let mut c = ClientSession::new("Bob".to_string());
    c.request_connection(&NetworkEvent::ClientConnect("10.0.0.7".to_string(), 6000)).unwrap();
    assert_eq!(c.handle_open_result(true), Ok(()));
    assert_eq!(c.phase(), ClientPhase::Connecting);
    let mut joined = joined_client("Bob", 2, &[(1, "Alice")]);
    assert_eq!(joined.handle_open_result(true), Ok(()));
    assert_eq!(joined.directory(), table(&[(1, "Alice"), (2, "Bob")]));
}

#[test]
fn failed_open_leaves_an_established_session_alone() {
    let mut joined = joined_client("Bob", 2, &[(1, "Alice")]);
    joined.request_connection(&NetworkEvent::ClientConnect("1.2.3.4".to_string(), 1)).unwrap();
    assert_eq!(joined.handle_open_result(false), Err(ConnectError::OpenFailed));
    assert_eq!(joined.phase(), ClientPhase::Joined);
    assert_eq!(joined.local_id(), Some(2));
    assert_eq!(joined.directory(), table(&[(1, "Alice"), (2, "Bob")]));
}

#[test]
fn messages_while_connecting_are_violations() {
    let mut c = ClientSession::new("Bob".to_string());
    c.request_connection(&NetworkEvent::ClientConnect("10.0.0.7".to_string(), 6000)).unwrap();
    assert_eq!(
        c.handle_message(ServerMessage::InitClient { client_id: 1, usernames: table(&[]) }),
        Err(ProtocolViolation::UnexpectedInit)
    );
    assert_eq!(
        c.handle_message(ServerMessage::ClientDisconnected { client_id: 1 }),
        Err(ProtocolViolation::NotJoined)
    );
    assert_eq!(c.phase(), ClientPhase::Connecting);
}

#[test]
fn app_exit_says_goodbye_only_when_connected() {
    let mut idle = ClientSession::new("Bob".to_string());
    assert_eq!(idle.handle_app_exit(), None);

    let mut connecting = ClientSession::new("Bob".to_string());
    connecting
        .request_connection(&NetworkEvent::ClientConnect("10.0.0.7".to_string(), 6000))
        .unwrap();
    assert_eq!(connecting.handle_app_exit(), None);
    assert_eq!(connecting.phase(), ClientPhase::Disconnected);

    let mut waiting = ClientSession::new("Bob".to_string());
    waiting.handle_connected();
    assert_eq!(waiting.handle_app_exit(), Some(ClientMessage::Disconnect {}));
    assert_eq!(waiting.phase(), ClientPhase::Disconnected);

    let mut joined = joined_client("Bob", 2, &[(1, "Alice")]);
    assert_eq!(joined.handle_app_exit(), Some(ClientMessage::Disconnect {}));
    assert_eq!(joined.phase(), ClientPhase::Disconnected);
    assert_eq!(joined.local_id(), None);
    assert_eq!(joined.directory(), HashMap::new());
    assert_eq!(joined.handle_app_exit(), None);
}

#[test]
fn handle_event_covers_every_event() {
    let mut c = ClientSession::new("Bob".to_string());
    assert_eq!(
        c.handle_event(ClientEvent::Connected),
        Ok(Some(ClientMessage::Join { name: "Bob".to_string() }))
    );
    assert_eq!(
        c.handle_event(ClientEvent::Received(ServerMessage::InitClient {
            client_id: 2,
            usernames: table(&[(1, "Alice")]),
        })),
        Ok(None)
    );
    assert_eq!(
        c.handle_event(ClientEvent::Received(ServerMessage::ClientDisconnected {
            client_id: 2
        })),
        Err(ProtocolViolation::SelfDisconnect)
    );
    assert_eq!(c.directory(), table(&[(1, "Alice"), (2, "Bob")]));
    assert_eq!(c.handle_event(ClientEvent::AppExit), Ok(Some(ClientMessage::Disconnect {})));
    assert_eq!(c.handle_event(ClientEvent::Connected).is_ok(), true);
    assert_eq!(c.handle_event(ClientEvent::ConnectionLost), Ok(None));
    assert_eq!(c.phase(), ClientPhase::Disconnected);
    assert_eq!(c.handle_event(ClientEvent::AppExit), Ok(None));
}
