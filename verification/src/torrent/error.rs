//! The failures of reading a torrent document.
use crate::bencode::errors::{BencodeError, ErrorView};
use vstd::prelude::*;
use vstd::string::*;

verus! {

/// Why a value is not a torrent document.
#[derive(Debug, PartialEq, Eq)]
pub enum TorrentError {
    /// The bytes do not decode, or a field is missing or of the wrong shape.
    Bencode(BencodeError),
    /// The metadata section has both `length` and `files`, or neither.
    InvalidFilesInfo,
    /// The length of `pieces` is not a multiple of 20.
    InvalidPieces,
}

/// The mathematical content of a [`TorrentError`].
pub ghost enum TorrentErrorView {
    Bencode(ErrorView),
    InvalidFilesInfo,
    InvalidPieces,
}

impl View for TorrentError {
    type V = TorrentErrorView;

    open spec fn view(&self) -> TorrentErrorView {
        match self {
            TorrentError::Bencode(e) => TorrentErrorView::Bencode(e@),
            TorrentError::InvalidFilesInfo => TorrentErrorView::InvalidFilesInfo,
            TorrentError::InvalidPieces => TorrentErrorView::InvalidPieces,
        }
    }
}

impl TorrentErrorView {
    /// The failure in words.
    pub open spec fn message(self) -> Seq<char> {
        match self {
            TorrentErrorView::Bencode(e) => e.message(),
            TorrentErrorView::InvalidFilesInfo => "Must have exactly one of 'length' or 'files'"@,
            TorrentErrorView::InvalidPieces => "Invalid piece length"@,
        }
    }
}

impl TorrentError {
    /// The failure in words.
    pub fn message(&self) -> (text: String)
        ensures
            text@ == self@.message(),
    {
        match self {
            TorrentError::Bencode(e) => e.message(),
            TorrentError::InvalidFilesInfo => String::from_str(
                "Must have exactly one of 'length' or 'files'",
            ),
            TorrentError::InvalidPieces => String::from_str("Invalid piece length"),
        }
    }
}

} // verus!
