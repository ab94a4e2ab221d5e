//! Server-side core of a local-network group chat: wire protocol with
//! length-prefixed framing, connection registry with username negotiation,
//! broadcast fan-out, and a shared history log.

pub mod adapter;
pub mod client_logic;
pub mod discovery;
pub mod message;
pub mod message_types;
pub mod numeral;
pub mod server_core;
pub mod text;
pub mod wire;

pub use message_types::MessageType;
