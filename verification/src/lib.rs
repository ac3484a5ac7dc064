//! A text chat service: the wire messages and their codec, the server's
//! peer registry and connection handling, and the client's session state
//! machine.
//!
//! The library does no input or output. The server and the session are
//! state machines that are handed what arrived and say what is to be
//! written.

pub mod codec;
pub mod json;
pub mod message;
pub mod registry;
pub mod server;
pub mod session;

pub use codec::CodecError;
pub use message::{MessageData, WebSocketClientToServerMessage, WebSocketServerToClientMessage};
pub use session::{connect, Connection, Event};
