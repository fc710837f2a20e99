//! The failures of reading a tracker's answer.
use crate::bencode::errors::{BencodeError, ErrorView};
use vstd::prelude::*;
use vstd::string::*;

verus! {

/// Why bytes are not a tracker's answer.
#[derive(Debug, PartialEq, Eq)]
pub enum TrackerError {
    /// The bytes do not decode, or a field is missing or of the wrong shape.
    Bencode(BencodeError),
    /// The address of a peer is not an IPv4 address in dotted decimal form.
    InvalidAddress,
}

/// The mathematical content of a [`TrackerError`].
pub ghost enum TrackerErrorView {
    Bencode(ErrorView),
    InvalidAddress,
}

impl View for TrackerError {
    type V = TrackerErrorView;

    open spec fn view(&self) -> TrackerErrorView {
        match self {
            TrackerError::Bencode(e) => TrackerErrorView::Bencode(e@),
            TrackerError::InvalidAddress => TrackerErrorView::InvalidAddress,
        }
    }
}

impl TrackerErrorView {
    /// The failure in words.
    pub open spec fn message(self) -> Seq<char> {
        match self {
            TrackerErrorView::Bencode(e) => e.message(),
            TrackerErrorView::InvalidAddress => "invalid IPv4 address syntax"@,
        }
    }
}

impl TrackerError {
    /// The failure in words.
    pub fn message(&self) -> (text: String)
        ensures
            text@ == self@.message(),
    {
        match self {
            TrackerError::Bencode(e) => e.message(),
            TrackerError::InvalidAddress => String::from_str("invalid IPv4 address syntax"),
        }
    }
}

} // verus!
