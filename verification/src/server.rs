//! The server's side of a session: the authoritative participant directory
//! and the rule that says, for each event of the transport, how the directory
//! changes and which messages leave.

use crate::protocol::{
    directory_of, lemma_directory_of_empty, lemma_directory_of_insert, lemma_directory_of_remove,
    ClientId, ClientMessage, ClientMessageView, Directory, ProtocolViolation, ServerMessage,
    ServerMessageView,
};
use std::collections::HashMap;
use vstd::prelude::*;
use vstd::std_specs::iter::IteratorSpec;

verus! {

broadcast use vstd::std_specs::hash::group_hash_axioms;

/// What the transport reports to the server.
#[derive(Debug, Clone, PartialEq, Eq)]
pub enum ServerEvent {
    /// A connection was accepted and given the identity `client_id`.
    Connected { client_id: ClientId },
    /// A message arrived on the connection of `client_id`.
    Received { client_id: ClientId, message: ClientMessage },
    /// The connection of `client_id` is closed, by whatever cause.
    ConnectionLost { client_id: ClientId },
}

/// Mathematical view of a `ServerEvent`.
pub enum ServerEventView {
    Connected { client_id: ClientId },
    Received { client_id: ClientId, message: ClientMessageView },
    ConnectionLost { client_id: ClientId },
}

impl View for ServerEvent {
    type V = ServerEventView;

    open spec fn view(&self) -> ServerEventView {
        match self {
            ServerEvent::Connected { client_id } => ServerEventView::Connected {
                client_id: *client_id,
            },
            ServerEvent::Received { client_id, message } => ServerEventView::Received {
                client_id: *client_id,
                message: message@,
            },
            ServerEvent::ConnectionLost { client_id } => ServerEventView::ConnectionLost {
                client_id: *client_id,
            },
        }
    }
}

impl ServerEventView {
    /// The identity that the event comes from.
    pub open spec fn origin(self) -> ClientId {
        match self {
            ServerEventView::Connected { client_id } => client_id,
            ServerEventView::Received { client_id, .. } => client_id,
            ServerEventView::ConnectionLost { client_id } => client_id,
        }
    }
}

/// What the server has to send after one event.
///
/// `reply` goes to the identity that the event came from and to nobody else.
/// `broadcast` goes once to every identity in `recipients`; each of these
/// sends stands alone, so that one that fails holds back none of the others.
#[derive(Debug, Clone, PartialEq, Eq)]
pub struct Dispatch {
    pub reply: Option<ServerMessage>,
    pub broadcast: Option<ServerMessage>,
    pub recipients: Vec<ClientId>,
}

/// Mathematical view of a `Dispatch`: the recipients as a set.
pub struct DispatchView {
    pub reply: Option<ServerMessageView>,
    pub broadcast: Option<ServerMessageView>,
    pub recipients: Set<ClientId>,
}

impl View for Dispatch {
    type V = DispatchView;

    open spec fn view(&self) -> DispatchView {
        DispatchView {
            reply: match self.reply {
                Some(m) => Some(m@),
                None => None,
            },
            broadcast: match self.broadcast {
                Some(m) => Some(m@),
                None => None,
            },
            recipients: self.recipients@.to_set(),
        }
    }
}

/// The dispatch that sends nothing.
pub open spec fn silent() -> DispatchView {
    DispatchView { reply: None, broadcast: None, recipients: Set::empty() }
}

/// Result of one step of the server: the directory after the event, and
/// either what is sent or the violation for which the event was ignored.
pub struct ServerStep {
    pub directory: Directory,
    pub outcome: Result<DispatchView, ProtocolViolation>,
}

/// `Join{name}` from `id`.
///
/// From an identity that is not in the directory: the identity is recorded
/// under `name`, it alone is sent `InitClient` with its identity and the
/// directory as it stood before, and every identity of that earlier directory
/// is sent `ClientConnected`. From one that is already there the message is a
/// violation and changes nothing.
pub open spec fn join(dir: Directory, id: ClientId, name: Seq<char>) -> ServerStep {
    if dir.contains_key(id) {
        ServerStep { directory: dir, outcome: Err(ProtocolViolation::AlreadyJoined) }
    } else {
        ServerStep {
            directory: dir.insert(id, name),
            outcome: Ok(
                DispatchView {
                    reply: Some(ServerMessageView::InitClient { client_id: id, usernames: dir }),
                    broadcast: Some(
                        ServerMessageView::ClientConnected { client_id: id, username: name },
                    ),
                    recipients: dir.dom(),
                },
            ),
        }
    }
}

/// Departure of `id`, whether announced by `Disconnect{}` or noticed by the
/// transport.
///
/// If `id` is in the directory it is removed and every identity that remains
/// is sent `ClientDisconnected`; if not, nothing changes and nothing is sent.
pub open spec fn leave(dir: Directory, id: ClientId) -> (Directory, DispatchView) {
    if dir.contains_key(id) {
        (
            dir.remove(id),
            DispatchView {
                reply: None,
                broadcast: Some(ServerMessageView::ClientDisconnected { client_id: id }),
                recipients: dir.remove(id).dom(),
            },
        )
    } else {
        (dir, silent())
    }
}

/// The server's transition function: the directory and the outcome after
/// `event` is processed in directory `dir`.
///
/// A newly accepted connection changes nothing. `Join` is answered as `join`
/// says. `Disconnect{}` and the closing of a connection are the same
/// departure, answered as `leave` says, so whichever of the two comes second
/// for an identity finds it gone and is a silent no-op.
pub open spec fn server_step(dir: Directory, event: ServerEventView) -> ServerStep {
    match event {
        ServerEventView::Connected { client_id } => ServerStep {
            directory: dir,
            outcome: Ok(silent()),
        },
        ServerEventView::Received { client_id, message: ClientMessageView::Join { name } } => join(
            dir,
            client_id,
            name,
        ),
        ServerEventView::Received { client_id, message: ClientMessageView::Disconnect } => ServerStep {
            directory: leave(dir, client_id).0,
            outcome: Ok(leave(dir, client_id).1),
        },
        ServerEventView::ConnectionLost { client_id } => ServerStep {
            directory: leave(dir, client_id).0,
            outcome: Ok(leave(dir, client_id).1),
        },
    }
}

/// Snapshot exclusion. Whatever the directory and the event, the identity
/// that the event comes from is not among the recipients of the broadcast,
/// and the only reply there is answers an accepted `Join`: `InitClient` with
/// that identity and the directory as it stood before, which does not hold
/// that identity.
pub proof fn lemma_snapshot_excludes_joiner(dir: Directory, event: ServerEventView)
    ensures
        server_step(dir, event).outcome matches Ok(sent) ==> {
            &&& !sent.recipients.contains(event.origin())
            &&& sent.reply matches Some(m) ==> {
                &&& m == (ServerMessageView::InitClient {
                    client_id: event.origin(),
                    usernames: dir,
                })
                &&& !dir.contains_key(event.origin())
                &&& event matches ServerEventView::Received {
                    message: ClientMessageView::Join { .. },
                    ..
                }
            }
        },
{
}

/// View of what a handler returns.
pub open spec fn outcome_view(r: Result<Dispatch, ProtocolViolation>) -> Result<
    DispatchView,
    ProtocolViolation,
> {
    match r {
        Ok(d) => Ok(d@),
        Err(v) => Err(v),
    }
}

/// The server's session state: the authoritative participant directory.
#[derive(Debug)]
pub struct ServerSession {
    names: HashMap<ClientId, String>,
}

impl View for ServerSession {
    type V = Directory;

    closed spec fn view(&self) -> Directory {
        directory_of(self.names@)
    }
}

impl Default for ServerSession {
    /// The session of a server that has just started.
    fn default() -> (s: Self)
        ensures
            s@ == Map::<ClientId, Seq<char>>::empty(),
    {
        ServerSession::new()
    }
}

/// The identities of a table of names, each once, in no particular order.
fn identities(names: &HashMap<ClientId, String>) -> (ids: Vec<ClientId>)
    ensures
        ids@.no_duplicates(),
        ids@.to_set() == directory_of(names@).dom(),
{
    let mut ids: Vec<ClientId> = Vec::new();
    for id in it: names.keys()
        invariant
            ids@ == it.seq().take(it.index()).unref(),
    {
        ids.push(*id);
    }
    proof {
        let all = names.keys().remaining();
        assert(all.take(all.len() as int) == all);
        assert(directory_of(names@).dom() =~= names@.dom());
    }
    ids
}

impl ServerSession {
    /// The session of a server that has just started: nobody has joined.
    pub fn new() -> (s: Self)
        ensures
            s@ == Map::<ClientId, Seq<char>>::empty(),
    {
        proof {
            lemma_directory_of_empty();
        }
        ServerSession { names: HashMap::new() }
    }

    /// Whether `client_id` has joined and not left.
    pub fn is_joined(&self, client_id: ClientId) -> (b: bool)
        ensures
            b == self@.contains_key(client_id),
    {
        self.names.contains_key(&client_id)
    }

    /// The display name under which `client_id` joined, if it has.
    pub fn name_of(&self, client_id: ClientId) -> (name: Option<String>)
        ensures
            match name {
                Some(n) => self@.contains_key(client_id) && n@ == self@[client_id],
                None => !self@.contains_key(client_id),
            },
    {
        match self.names.get(&client_id) {
            Some(n) => Some(n.clone()),
            None => None,
        }
    }

    /// How many participants are joined.
    pub fn participant_count(&self) -> (n: usize)
        ensures
            n == self@.len(),
    {
        proof {
            assert(self@.dom() =~= self.names@.dom());
        }
        self.names.len()
    }

    /// The joined identities, each once, in no particular order.
    pub fn participants(&self) -> (ids: Vec<ClientId>)
        ensures
            ids@.no_duplicates(),
            ids@.to_set() == self@.dom(),
    {
        identities(&self.names)
    }

    /// A copy of the whole directory.
    pub fn snapshot(&self) -> (names: HashMap<ClientId, String>)
        ensures
            directory_of(names@) == self@,
    {
        self.names.clone()
    }

    /// Processes `Join{name}` from `client_id`, as `join` says.
    pub fn handle_join(&mut self, client_id: ClientId, name: String) -> (r: Result<
        Dispatch,
        ProtocolViolation,
    >)
        ensures
            join(old(self)@, client_id, name@) == (ServerStep {
                directory: final(self)@,
                outcome: outcome_view(r),
            }),
            r matches Ok(d) ==> d.recipients@.no_duplicates() && !d.recipients@.contains(client_id),
            r matches Ok(d) ==> (d.reply matches Some(
                ServerMessage::InitClient { client_id: to, usernames },
            ) && to == client_id && !usernames@.contains_key(client_id)),
    {
        if self.names.contains_key(&client_id) {
            return Err(ProtocolViolation::AlreadyJoined);
        }
        let before = self.names.clone();
        let recipients = identities(&self.names);
        self.names.insert(client_id, name.clone());
        proof {
            lemma_directory_of_insert(old(self).names@, client_id, name);
        }
        Ok(
            Dispatch {
                reply: Some(ServerMessage::InitClient { client_id, usernames: before }),
                broadcast: Some(ServerMessage::ClientConnected { client_id, username: name }),
                recipients,
            },
        )
    }

    /// Processes the departure of `client_id`, as `leave` says. Both ways in
    /// which a participant leaves end here, so a second notice for the same
    /// identity finds it gone and does nothing.
    pub fn handle_leave(&mut self, client_id: ClientId) -> (d: Dispatch)
        ensures
            leave(old(self)@, client_id) == (final(self)@, d@),
            d.recipients@.no_duplicates(),
            !d.recipients@.contains(client_id),
    {
        match self.names.remove(&client_id) {
            Some(_) => {
                proof {
                    lemma_directory_of_remove(old(self).names@, client_id);
                }
                let recipients = identities(&self.names);
                assert(!recipients@.to_set().contains(client_id));
                Dispatch {
                    reply: None,
                    broadcast: Some(ServerMessage::ClientDisconnected { client_id }),
                    recipients,
                }
            },
            None => {
                proof {
                    lemma_directory_of_remove(old(self).names@, client_id);
                    assert(old(self)@.remove(client_id) =~= old(self)@);
                }
                let recipients: Vec<ClientId> = Vec::new();
                assert(recipients@.to_set() =~= Set::<ClientId>::empty());
                Dispatch { reply: None, broadcast: None, recipients }
            },
        }
    }

    /// Processes a message that arrived from `client_id`.
    ///
    /// `Join` is handled by `handle_join`, `Disconnect{}` by `handle_leave`.
    /// The only violation is a `Join` from an identity that is already
    /// joined. `Disconnect{}` from an identity that is not in the directory,
    /// because it never joined or because its departure was already
    /// processed, is ignored in silence: nothing changes and nothing is sent.
    pub fn handle_message(&mut self, client_id: ClientId, message: ClientMessage) -> (r: Result<
        Dispatch,
        ProtocolViolation,
    >)
        ensures
            server_step(old(self)@, ServerEventView::Received { client_id, message: message@ })
                == (ServerStep { directory: final(self)@, outcome: outcome_view(r) }),
            r matches Ok(d) ==> d.recipients@.no_duplicates() && !d.recipients@.contains(client_id),
    {
        match message {
            ClientMessage::Join { name } => self.handle_join(client_id, name),
            ClientMessage::Disconnect {  } => Ok(self.handle_leave(client_id)),
        }
    }

    /// Processes the transport's notice that the connection of `client_id`
    /// is closed. Never a violation: for an identity that is not joined, or
    /// that has already left by `Disconnect{}`, nothing changes and nothing
    /// is sent.
    pub fn handle_connection_lost(&mut self, client_id: ClientId) -> (d: Dispatch)
        ensures
            server_step(old(self)@, ServerEventView::ConnectionLost { client_id }) == (ServerStep {
                directory: final(self)@,
                outcome: Ok(d@),
            }),
            d.recipients@.no_duplicates(),
            !d.recipients@.contains(client_id),
    {
        self.handle_leave(client_id)
    }

    /// Processes one event of the transport, as `server_step` says.
    ///
    /// A newly accepted connection changes nothing: its identity is not
    /// joined until its `Join` arrives.
    pub fn handle_event(&mut self, event: ServerEvent) -> (r: Result<Dispatch, ProtocolViolation>)
        ensures
            server_step(old(self)@, event@) == (ServerStep {
                directory: final(self)@,
                outcome: outcome_view(r),
            }),
            r matches Ok(d) ==> d.recipients@.no_duplicates() && !d.recipients@.contains(
                event@.origin(),
            ),
    {
        match event {
            ServerEvent::Connected { client_id } => {
                let recipients: Vec<ClientId> = Vec::new();
                assert(recipients@.to_set() =~= Set::<ClientId>::empty());
                Ok(Dispatch { reply: None, broadcast: None, recipients })
            },
            ServerEvent::Received { client_id, message } => self.handle_message(client_id, message),
            ServerEvent::ConnectionLost { client_id } => Ok(self.handle_connection_lost(client_id)),
        }
    }
}

} // verus!
