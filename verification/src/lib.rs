//! Protocol core of a peer-to-peer file-sharing client: the bencode codec,
//! the torrent document built on it, the peer handshake and the peer message
//! framing, each with a machine-checked contract.
pub mod bencode;
pub mod bytes;
pub mod digits;
pub mod peer;
pub mod torrent;
pub mod tracker;
