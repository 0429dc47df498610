//! Session layer of a small multiplayer game: the messages that clients and
//! server exchange, the server's authoritative participant directory, the
//! replica that every client keeps of it, and the reading of a connection
//! request as the target to open.
//!
//! Nothing here performs I/O. Each handler takes the current state and one
//! event of the transport, updates the state and returns what has to be sent;
//! the caller owns the transport and does the sending.

pub mod client;
pub mod connect;
pub mod protocol;
pub mod replication;
pub mod server;

// The transport's two ends, for those who run the sessions over it.
pub use bevy_quinnet::client::Client;
pub use bevy_quinnet::server::Server;

pub use client::{ClientEvent, ClientPhase, ClientSession};
pub use connect::{connection_target, parse_ipv4, ConnectError, ConnectionTarget};
pub use protocol::{ClientId, ClientMessage, NetworkEvent, ProtocolViolation, ServerMessage};
pub use server::{Dispatch, ServerEvent, ServerSession};
