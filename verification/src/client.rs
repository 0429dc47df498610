//! A client's side of a session: its replica of the participant directory,
//! the identity the server gave it, and the rule that says how each event of
//! the transport changes them.

use crate::connect::{answers, connection_target, ConnectError, ConnectionTarget};
use crate::protocol::{
    directory_of, lemma_directory_of_empty, lemma_directory_of_insert, lemma_directory_of_remove,
    ClientId, ClientMessage, ClientMessageView, Directory, NetworkEvent, ProtocolViolation,
    ServerMessage, ServerMessageView,
};
use std::collections::HashMap;
use vstd::prelude::*;
use vstd::std_specs::iter::IteratorSpec;

verus! {

broadcast use vstd::std_specs::hash::group_hash_axioms;

/// Where a client stands in the life of its connection.
#[derive(Debug, Clone, Copy, PartialEq, Eq, Structural)]
pub enum ClientPhase {
    /// No connection is open, and none is asked for.
    Disconnected,
    /// A connection is asked for and not established yet.
    Connecting,
    /// Connected; `Join` is sent and `InitClient` has not arrived yet.
    AwaitingInit,
    /// `InitClient` has arrived: the replica follows the server's directory.
    Joined,
}

/// What the transport, or the application, reports to the client's session.
#[derive(Debug, Clone, PartialEq, Eq)]
pub enum ClientEvent {
    /// The connection to the server is established.
    Connected,
    /// A message arrived from the server.
    Received(ServerMessage),
    /// The connection is closed, by whatever cause.
    ConnectionLost,
    /// The application is about to exit.
    AppExit,
}

/// Mathematical view of a `ClientEvent`.
pub enum ClientEventView {
    Connected,
    Received(ServerMessageView),
    ConnectionLost,
    AppExit,
}

impl View for ClientEvent {
    type V = ClientEventView;

    open spec fn view(&self) -> ClientEventView {
        match self {
            ClientEvent::Connected => ClientEventView::Connected,
            ClientEvent::Received(m) => ClientEventView::Received(m@),
            ClientEvent::ConnectionLost => ClientEventView::ConnectionLost,
            ClientEvent::AppExit => ClientEventView::AppExit,
        }
    }
}

/// Mathematical view of a client's session.
pub struct ClientView {
    /// The display name configured for this client, which it sends in `Join`.
    pub name: Seq<char>,
    pub phase: ClientPhase,
    /// The identity the server gave this client, once `InitClient` has said it.
    pub local_id: Option<ClientId>,
    /// The replica of the participant directory.
    pub replica: Directory,
}

impl ClientView {
    /// The local identity is known exactly while the client is joined, the
    /// replica then holds the client itself, and it is empty otherwise.
    pub open spec fn consistent(self) -> bool {
        if self.phase == ClientPhase::Joined {
            self.local_id matches Some(id) && self.replica.contains_key(id)
        } else {
            self.local_id is None && self.replica == Map::<ClientId, Seq<char>>::empty()
        }
    }
}

/// The session of a client named `name` that has no connection.
pub open spec fn idle(name: Seq<char>) -> ClientView {
    ClientView {
        name,
        phase: ClientPhase::Disconnected,
        local_id: None,
        replica: Map::empty(),
    }
}

/// The session after a connection is asked for: a client that had none is
/// connecting; one that has a connection, or is already connecting, stays as
/// it is.
pub open spec fn requested(c: ClientView) -> ClientView {
    if c.phase == ClientPhase::Disconnected {
        ClientView {
            name: c.name,
            phase: ClientPhase::Connecting,
            local_id: c.local_id,
            replica: c.replica,
        }
    } else {
        c
    }
}

/// The session after the transport has failed to open a connection: a
/// client that was connecting has no connection again; one that is further
/// on is on another connection and stays as it is.
pub open spec fn open_failed(c: ClientView) -> ClientView {
    if c.phase == ClientPhase::Connecting {
        idle(c.name)
    } else {
        c
    }
}

/// Whether a connection to the server is established in phase `p`.
pub open spec fn is_connected(p: ClientPhase) -> bool {
    p == ClientPhase::AwaitingInit || p == ClientPhase::Joined
}

/// The session after the connection is established: whatever an earlier
/// connection left behind is dropped, and the client awaits `InitClient`.
pub open spec fn connected(c: ClientView) -> ClientView {
    ClientView {
        name: c.name,
        phase: ClientPhase::AwaitingInit,
        local_id: None,
        replica: Map::empty(),
    }
}

/// The session after message `m` from the server, and whether the message
/// was in order.
///
/// `InitClient` while awaiting it: the identity is taken, the replica becomes
/// the snapshot with the client itself added under its own name, and the
/// client is joined. `ClientConnected` while joined: the entry is inserted,
/// replacing one with the same identity. `ClientDisconnected` while joined,
/// of another identity: the entry is removed if there is one. Everything else
/// is a violation and changes nothing.
pub open spec fn receive(c: ClientView, m: ServerMessageView) -> (
    ClientView,
    Result<(), ProtocolViolation>,
) {
    match m {
        ServerMessageView::InitClient { client_id, usernames } => {
            if c.phase == ClientPhase::AwaitingInit {
                (
                    ClientView {
                        name: c.name,
                        phase: ClientPhase::Joined,
                        local_id: Some(client_id),
                        replica: usernames.insert(client_id, c.name),
                    },
                    Ok(()),
                )
            } else {
                (c, Err(ProtocolViolation::UnexpectedInit))
            }
        },
        ServerMessageView::ClientConnected { client_id, username } => {
            if c.phase == ClientPhase::Joined {
                (
                    ClientView {
                        name: c.name,
                        phase: c.phase,
                        local_id: c.local_id,
                        replica: c.replica.insert(client_id, username),
                    },
                    Ok(()),
                )
            } else {
                (c, Err(ProtocolViolation::NotJoined))
            }
        },
        ServerMessageView::ClientDisconnected { client_id } => {
            if c.phase != ClientPhase::Joined {
                (c, Err(ProtocolViolation::NotJoined))
            } else if c.local_id == Some(client_id) {
                (c, Err(ProtocolViolation::SelfDisconnect))
            } else {
                (
                    ClientView {
                        name: c.name,
                        phase: c.phase,
                        local_id: c.local_id,
                        replica: c.replica.remove(client_id),
                    },
                    Ok(()),
                )
            }
        },
    }
}

/// What a client's session does with one event.
pub struct ClientStep {
    /// The session after the event.
    pub session: ClientView,
    /// The message to send to the server, if any, or the violation for which
    /// the event was ignored.
    pub outcome: Result<Option<ClientMessageView>, ProtocolViolation>,
}

/// The client's transition function.
///
/// Connection established: `Join` with the client's name is sent. A message:
/// as `receive` says, and nothing is sent. Connection closed: all that the
/// session had learnt is cleared. Application exit: a client whose connection
/// is established says `Disconnect{}`, and the session is cleared.
pub open spec fn client_step(c: ClientView, event: ClientEventView) -> ClientStep {
    match event {
        ClientEventView::Connected => ClientStep {
            session: connected(c),
            outcome: Ok(Some(ClientMessageView::Join { name: c.name })),
        },
        ClientEventView::Received(m) => ClientStep {
            session: receive(c, m).0,
            outcome: match receive(c, m).1 {
                Ok(_) => Ok(None),
                Err(v) => Err(v),
            },
        },
        ClientEventView::ConnectionLost => ClientStep { session: idle(c.name), outcome: Ok(None) },
        ClientEventView::AppExit => ClientStep {
            session: idle(c.name),
            outcome: Ok(
                if is_connected(c.phase) {
                    Some(ClientMessageView::Disconnect)
                } else {
                    None
                },
            ),
        },
    }
}

/// Every step keeps a consistent session consistent, and so do asking for a
/// connection and failing to open one.
pub proof fn lemma_client_step_consistent(c: ClientView, event: ClientEventView)
    requires
        c.consistent(),
    ensures
        client_step(c, event).session.consistent(),
        requested(c).consistent(),
        open_failed(c).consistent(),
        idle(c.name).consistent(),
{
}

/// View of what `ClientSession::handle_event` returns.
pub open spec fn sent_view(r: Result<Option<ClientMessage>, ProtocolViolation>) -> Result<
    Option<ClientMessageView>,
    ProtocolViolation,
> {
    match r {
        Ok(Some(m)) => Ok(Some(m@)),
        Ok(None) => Ok(None),
        Err(v) => Err(v),
    }
}

/// A client's session state.
#[derive(Debug)]
pub struct ClientSession {
    name: String,
    phase: ClientPhase,
    local_id: Option<ClientId>,
    names: HashMap<ClientId, String>,
}

impl View for ClientSession {
    type V = ClientView;

    closed spec fn view(&self) -> ClientView {
        ClientView {
            name: self.name@,
            phase: self.phase,
            local_id: self.local_id,
            replica: directory_of(self.names@),
        }
    }
}

impl ClientSession {
    /// The session of a client that will join under `name` and has no
    /// connection yet.
    pub fn new(name: String) -> (s: Self)
        ensures
            s@ == idle(name@),
            s@.consistent(),
    {
        proof {
            lemma_directory_of_empty();
        }
        ClientSession {
            name,
            phase: ClientPhase::Disconnected,
            local_id: None,
            names: HashMap::new(),
        }
    }

    /// The display name this client joins under.
    pub fn name(&self) -> (name: String)
        ensures
            name@ == self@.name,
    {
        self.name.clone()
    }

    /// Where the session stands.
    pub fn phase(&self) -> (p: ClientPhase)
        ensures
            p == self@.phase,
    {
        self.phase
    }

    /// Whether `InitClient` has arrived on the present connection.
    pub fn is_joined(&self) -> (b: bool)
        ensures
            b == (self@.phase == ClientPhase::Joined),
    {
        match self.phase {
            ClientPhase::Joined => true,
            _ => false,
        }
    }

    /// The identity the server gave this client, once known.
    pub fn local_id(&self) -> (id: Option<ClientId>)
        ensures
            id == self@.local_id,
    {
        self.local_id
    }

    /// The display name the replica holds for `client_id`, if any.
    pub fn name_of(&self, client_id: ClientId) -> (name: Option<String>)
        ensures
            match name {
                Some(n) => self@.replica.contains_key(client_id) && n@ == self@.replica[client_id],
                None => !self@.replica.contains_key(client_id),
            },
    {
        match self.names.get(&client_id) {
            Some(n) => Some(n.clone()),
            None => None,
        }
    }

    /// How many participants the replica holds.
    pub fn participant_count(&self) -> (n: usize)
        ensures
            n == self@.replica.len(),
    {
        proof {
            assert(self@.replica.dom() =~= self.names@.dom());
        }
        self.names.len()
    }

    /// The identities in the replica, each once, in no particular order.
    pub fn participants(&self) -> (ids: Vec<ClientId>)
        ensures
            ids@.no_duplicates(),
            ids@.to_set() == self@.replica.dom(),
    {
        let mut ids: Vec<ClientId> = Vec::new();
        for id in it: self.names.keys()
            invariant
                ids@ == it.seq().take(it.index()).unref(),
        {
            ids.push(*id);
        }
        proof {
            let all = self.names.keys().remaining();
            assert(all.take(all.len() as int) == all);
            assert(self@.replica.dom() =~= self.names@.dom());
        }
        ids
    }

    /// A copy of the replica.
    pub fn directory(&self) -> (names: HashMap<ClientId, String>)
        ensures
            directory_of(names@) == self@.replica,
    {
        self.names.clone()
    }

    /// Forgets everything but the name.
    fn clear(&mut self)
        ensures
            final(self)@ == idle(old(self)@.name),
    {
        proof {
            lemma_directory_of_empty();
        }
        self.phase = ClientPhase::Disconnected;
        self.local_id = None;
        self.names = HashMap::new();
    }

    /// A connection is asked for: returns the target to open, or the reason
    /// why the request has none, in which case the session stays as it was.
    /// Whether the connection comes about is learnt later, from the
    /// transport.
    pub fn request_connection(&mut self, event: &NetworkEvent) -> (r: Result<
        ConnectionTarget,
        ConnectError,
    >)
        ensures
            answers(*event, r),
            r is Ok ==> final(self)@ == requested(old(self)@),
            r is Err ==> final(self)@ == old(self)@,
            old(self)@.consistent() ==> final(self)@.consistent(),
    {
        let target = connection_target(event)?;
        match self.phase {
            ClientPhase::Disconnected => {
                self.phase = ClientPhase::Connecting;
            },
            _ => {},
        }
        Ok(target)
    }

    /// The transport has said whether it could open the connection that was
    /// asked for. If it could, nothing changes: the connection is established
    /// later. If it could not, the failure is returned for the one who asked,
    /// and a client that was connecting has no connection again.
    pub fn handle_open_result(&mut self, opened: bool) -> (r: Result<(), ConnectError>)
        ensures
            opened ==> r is Ok && final(self)@ == old(self)@,
            !opened ==> r == Err::<(), ConnectError>(ConnectError::OpenFailed) && final(self)@
                == open_failed(old(self)@),
            old(self)@.consistent() ==> final(self)@.consistent(),
    {
        if opened {
            return Ok(());
        }
        match self.phase {
            ClientPhase::Connecting => {
                self.clear();
            },
            _ => {},
        }
        Err(ConnectError::OpenFailed)
    }

    /// The connection is established: returns the `Join` to send at once,
    /// and awaits `InitClient`.
    pub fn handle_connected(&mut self) -> (join: ClientMessage)
        ensures
            final(self)@ == connected(old(self)@),
            final(self)@.consistent(),
            join@ == (ClientMessageView::Join { name: old(self)@.name }),
    {
        proof {
            lemma_directory_of_empty();
        }
        self.phase = ClientPhase::AwaitingInit;
        self.local_id = None;
        self.names = HashMap::new();
        ClientMessage::Join { name: self.name.clone() }
    }

    /// Applies a message from the server, as `receive` says. A message that
    /// is out of order is reported and leaves the session as it was.
    pub fn handle_message(&mut self, message: ServerMessage) -> (r: Result<(), ProtocolViolation>)
        ensures
            receive(old(self)@, message@) == (final(self)@, r),
            old(self)@.consistent() ==> final(self)@.consistent(),
    {
        match message {
            ServerMessage::InitClient { client_id, usernames } => {
                match self.phase {
                    ClientPhase::AwaitingInit => {
                        proof {
                            lemma_directory_of_insert(usernames@, client_id, self.name);
                        }
                        self.names = usernames;
                        self.names.insert(client_id, self.name.clone());
                        self.local_id = Some(client_id);
                        self.phase = ClientPhase::Joined;
                        Ok(())
                    },
                    _ => Err(ProtocolViolation::UnexpectedInit),
                }
            },
            ServerMessage::ClientConnected { client_id, username } => {
                match self.phase {
                    ClientPhase::Joined => {
                        proof {
                            lemma_directory_of_insert(self.names@, client_id, username);
                        }
                        self.names.insert(client_id, username);
                        Ok(())
                    },
                    _ => Err(ProtocolViolation::NotJoined),
                }
            },
            ServerMessage::ClientDisconnected { client_id } => {
                match self.phase {
                    ClientPhase::Joined => {
                        if self.local_id == Some(client_id) {
                            Err(ProtocolViolation::SelfDisconnect)
                        } else {
                            proof {
                                lemma_directory_of_remove(self.names@, client_id);
                            }
                            self.names.remove(&client_id);
                            Ok(())
                        }
                    },
                    _ => Err(ProtocolViolation::NotJoined),
                }
            },
        }
    }

    /// The connection is closed: the replica, the local identity and the
    /// joined state are cleared. A later connection starts afresh.
    pub fn handle_connection_lost(&mut self)
        ensures
            final(self)@ == idle(old(self)@.name),
            final(self)@.consistent(),
    {
        self.clear();
    }

    /// The application exits: returns `Disconnect{}` to send before the
    /// connection is closed, if one is established, and clears the session.
    pub fn handle_app_exit(&mut self) -> (farewell: Option<ClientMessage>)
        ensures
            final(self)@ == idle(old(self)@.name),
            final(self)@.consistent(),
            !is_connected(old(self)@.phase) ==> farewell is None,
            is_connected(old(self)@.phase) ==> (farewell matches Some(m) && m@
                == ClientMessageView::Disconnect),
    {
        let farewell = match self.phase {
            ClientPhase::AwaitingInit | ClientPhase::Joined => Some(
                ClientMessage::Disconnect {  },
            ),
            _ => None,
        };
        self.clear();
        farewell
    }

    /// Processes one event, as `client_step` says: the session is updated,
    /// and the message to send to the server, if any, is returned.
    pub fn handle_event(&mut self, event: ClientEvent) -> (r: Result<
        Option<ClientMessage>,
        ProtocolViolation,
    >)
        ensures
            client_step(old(self)@, event@) == (ClientStep {
                session: final(self)@,
                outcome: sent_view(r),
            }),
            old(self)@.consistent() ==> final(self)@.consistent(),
    {
        match event {
            ClientEvent::Connected => Ok(Some(self.handle_connected())),
            ClientEvent::Received(message) => match self.handle_message(message) {
                Ok(_) => Ok(None),
                Err(v) => Err(v),
            },
            ClientEvent::ConnectionLost => {
                self.handle_connection_lost();
                Ok(None)
            },
            ClientEvent::AppExit => Ok(self.handle_app_exit()),
        }
    }
}

} // verus!
