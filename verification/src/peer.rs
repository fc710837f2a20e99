//! The peer wire protocol: the handshake and the framing of messages.
pub mod error;
pub mod value;
