//! The failures of a handshake and of reading from a peer.
use crate::digits::{append_decimal, decimal_text};
use vstd::prelude::*;
use vstd::string::*;
use vstd::std_specs::convert::FromSpecImpl;

verus! {

/// The error type of the standard library's I/O, carried through as it is.
#[verifier::external_type_specification]
#[verifier::external_body]
pub struct ExIoError(std::io::Error);

/// The rule of the handshake that a response breaks.
#[derive(Debug, Clone, Copy, PartialEq, Eq, Structural)]
pub enum HandshakeError {
    /// The response is not exactly 68 bytes long.
    InvalidLength,
    /// The first byte, given here, is not 19.
    InvalidProtocolLength(u8),
    /// Bytes 1 to 19 are not the protocol label.
    InvalidProtocolString,
    /// The content identifier is not the expected one.
    InfoHashMismatch,
    /// The peer identifier is the caller's own.
    SelfConnection,
}

/// Why a handshake with a peer failed: the peer's response broke a rule,
/// or the connection failed.
#[derive(Debug)]
pub enum PeerHandshakeError {
    HandshakeError(HandshakeError),
    IOError(std::io::Error),
}

impl From<std::io::Error> for PeerHandshakeError {
    fn from(err: std::io::Error) -> (e: PeerHandshakeError) {
        PeerHandshakeError::IOError(err)
    }
}

impl FromSpecImpl<std::io::Error> for PeerHandshakeError {
    open spec fn obeys_from_spec() -> bool {
        true
    }

    open spec fn from_spec(err: std::io::Error) -> PeerHandshakeError {
        PeerHandshakeError::IOError(err)
    }
}

impl From<HandshakeError> for PeerHandshakeError {
    fn from(err: HandshakeError) -> (e: PeerHandshakeError) {
        PeerHandshakeError::HandshakeError(err)
    }
}

impl FromSpecImpl<HandshakeError> for PeerHandshakeError {
    open spec fn obeys_from_spec() -> bool {
        true
    }

    open spec fn from_spec(err: HandshakeError) -> PeerHandshakeError {
        PeerHandshakeError::HandshakeError(err)
    }
}

impl HandshakeError {
    /// The broken rule in words.
    pub open spec fn message_text(self) -> Seq<char> {
        match self {
            HandshakeError::InvalidLength => "Invalid input length"@,
            HandshakeError::InvalidProtocolLength(actual) => "Invalid Protocol Length: "@
                + decimal_text(actual as nat),
            HandshakeError::InvalidProtocolString => "Invalid Protocol String"@,
            HandshakeError::InfoHashMismatch => "Info Hash Mismatch"@,
            HandshakeError::SelfConnection => "Self Connection: Tried to connect to self"@,
        }
    }

    /// The broken rule in words.
    pub fn message(&self) -> (text: String)
        ensures
            text@ == self.message_text(),
    {
        match self {
            HandshakeError::InvalidLength => String::from_str("Invalid input length"),
            HandshakeError::InvalidProtocolLength(actual) => {
                let mut text = String::from_str("Invalid Protocol Length: ");
                append_decimal(&mut text, *actual as u64);
                text
            },
            HandshakeError::InvalidProtocolString => String::from_str("Invalid Protocol String"),
            HandshakeError::InfoHashMismatch => String::from_str("Info Hash Mismatch"),
            HandshakeError::SelfConnection => String::from_str(
                "Self Connection: Tried to connect to self",
            ),
        }
    }
}

/// Calls `to_string` on an I/O error. Trusted: nothing is promised of the
/// text, which the standard library and the operating system word.
#[verifier::external_body]
fn io_error_text(err: &std::io::Error) -> String {
    err.to_string()
}

impl PeerHandshakeError {
    /// The failure in words: those of the broken rule, or those of the
    /// I/O error.
    pub fn message(&self) -> (text: String)
        ensures
            self matches PeerHandshakeError::HandshakeError(h) ==> text@ == h.message_text(),
    {
        match self {
            PeerHandshakeError::HandshakeError(h) => h.message(),
            PeerHandshakeError::IOError(i) => io_error_text(i),
        }
    }
}

} // verus!
