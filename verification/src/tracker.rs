//! What a client says to a tracker, and what it reads in the answer.
pub mod client;
pub mod error;
pub mod value;
