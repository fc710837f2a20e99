//! The torrent document: its structure, how it is read out of a decoded
//! value, and its content identifier.
pub mod error;
pub mod parser;
pub mod value;
