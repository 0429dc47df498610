//! The closed sets of messages exchanged between client and server, and the
//! mathematical view of each.

// An identity is the one that the transport gives a connection when it
// accepts it.
pub use bevy_quinnet::shared::ClientId;
use std::collections::HashMap;
use vstd::prelude::*;

verus! {

/// A participant directory as a mathematical map from identity to display name.
pub type Directory = Map<ClientId, Seq<char>>;

/// The directory that a table of names stands for.
pub open spec fn directory_of(names: Map<ClientId, String>) -> Directory {
    Map::new(|id: ClientId| names.contains_key(id), |id: ClientId| names[id]@)
}

/// Inserting into the table inserts the name's text into the directory.
pub proof fn lemma_directory_of_insert(names: Map<ClientId, String>, id: ClientId, name: String)
    ensures
        directory_of(names.insert(id, name)) == directory_of(names).insert(id, name@),
{
    assert(directory_of(names.insert(id, name)) =~= directory_of(names).insert(id, name@));
}

/// Removing from the table removes from the directory.
pub proof fn lemma_directory_of_remove(names: Map<ClientId, String>, id: ClientId)
    ensures
        directory_of(names.remove(id)) == directory_of(names).remove(id),
{
    assert(directory_of(names.remove(id)) =~= directory_of(names).remove(id));
}

/// The empty table stands for the empty directory.
pub proof fn lemma_directory_of_empty()
    ensures
        directory_of(Map::<ClientId, String>::empty()) == Map::<ClientId, Seq<char>>::empty(),
{
    assert(directory_of(Map::<ClientId, String>::empty()) =~= Map::<ClientId, Seq<char>>::empty());
}

/// Messages from a client to the server.
#[derive(Debug, Clone, PartialEq, Eq)]
pub enum ClientMessage {
    /// Sent once, right after the connection is established.
    Join { name: String },
    /// Voluntary leave, sent before the client closes its connection.
    Disconnect {},
}

/// Mathematical view of a `ClientMessage`.
pub enum ClientMessageView {
    Join { name: Seq<char> },
    Disconnect,
}

impl View for ClientMessage {
    type V = ClientMessageView;

    open spec fn view(&self) -> ClientMessageView {
        match self {
            ClientMessage::Join { name } => ClientMessageView::Join { name: name@ },
            ClientMessage::Disconnect {  } => ClientMessageView::Disconnect,
        }
    }
}

/// Messages from the server to a client.
#[derive(Debug, Clone, PartialEq, Eq)]
pub enum ServerMessage {
    /// Another participant has joined.
    ClientConnected { client_id: ClientId, username: String },
    /// Another participant has left.
    ClientDisconnected { client_id: ClientId },
    /// Answer to `Join`: the identity given to the receiver, and the directory
    /// as it stood before the receiver was added to it.
    InitClient { client_id: ClientId, usernames: HashMap<ClientId, String> },
}

/// Mathematical view of a `ServerMessage`.
pub enum ServerMessageView {
    ClientConnected { client_id: ClientId, username: Seq<char> },
    ClientDisconnected { client_id: ClientId },
    InitClient { client_id: ClientId, usernames: Directory },
}

impl View for ServerMessage {
    type V = ServerMessageView;

    open spec fn view(&self) -> ServerMessageView {
        match self {
            ServerMessage::ClientConnected { client_id, username } => ServerMessageView::ClientConnected {
                client_id: *client_id,
                username: username@,
            },
            ServerMessage::ClientDisconnected { client_id } => ServerMessageView::ClientDisconnected {
                client_id: *client_id,
            },
            ServerMessage::InitClient { client_id, usernames } => ServerMessageView::InitClient {
                client_id: *client_id,
                usernames: directory_of(usernames@),
            },
        }
    }
}

/// Request of the presentation layer to connect to `host:port`.
#[derive(Debug, Clone, PartialEq, Eq)]
pub enum NetworkEvent {
    ClientConnect(String, u16),
}

/// What a peer did that the protocol does not allow in the receiver's state.
#[derive(Debug, Clone, Copy, PartialEq, Eq, Structural)]
pub enum ProtocolViolation {
    /// `Join` from an identity that is already in the directory.
    AlreadyJoined,
    /// A change to the directory sent to a client that is not joined.
    NotJoined,
    /// `InitClient` while no `Join` is awaiting its answer.
    UnexpectedInit,
    /// `ClientDisconnected` naming the receiver itself.
    SelfDisconnect,
}

} // verus!
