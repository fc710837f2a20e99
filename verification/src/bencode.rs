//! The bencode codec: value model, canonical encoder, decoder and accessors.
pub mod decimal;
pub mod display;
pub mod encoder;
pub mod errors;
pub mod helper;
pub mod keys;
pub mod parser;
pub mod roundtrip;
pub mod text;
pub mod value;
