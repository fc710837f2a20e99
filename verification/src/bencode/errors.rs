//! The codec's failures.
use vstd::prelude::*;
use vstd::string::*;

verus! {

/// Why decoding a document, or reading a field out of a value, failed.
#[derive(Debug, PartialEq, Eq)]
pub enum BencodeError {
    /// An integer is malformed.
    InvalidInteger(String),
    /// A string, or a dictionary key, is malformed.
    InvalidString(String),
    /// A list is malformed.
    InvalidList(String),
    /// A dictionary is malformed.
    InvalidDict(String),
    /// The input ended where a value had to start.
    UnexpectedEof,
    /// A dictionary has no entry for the key.
    MissingKey(String),
    /// A value has another shape than the one asked for.
    WrongType { expected: String, found: String },
    /// Lists and dictionaries are nested deeper than the decoder's limit.
    DepthLimitExceeded,
}

/// The mathematical content of a [`BencodeError`].
pub ghost enum ErrorView {
    InvalidInteger(Seq<char>),
    InvalidString(Seq<char>),
    InvalidList(Seq<char>),
    InvalidDict(Seq<char>),
    UnexpectedEof,
    MissingKey(Seq<char>),
    WrongType { expected: Seq<char>, found: Seq<char> },
    DepthLimitExceeded,
}

impl View for BencodeError {
    type V = ErrorView;

    open spec fn view(&self) -> ErrorView {
        match self {
            BencodeError::InvalidInteger(m) => ErrorView::InvalidInteger(m@),
            BencodeError::InvalidString(m) => ErrorView::InvalidString(m@),
            BencodeError::InvalidList(m) => ErrorView::InvalidList(m@),
            BencodeError::InvalidDict(m) => ErrorView::InvalidDict(m@),
            BencodeError::UnexpectedEof => ErrorView::UnexpectedEof,
            BencodeError::MissingKey(k) => ErrorView::MissingKey(k@),
            BencodeError::WrongType { expected, found } => ErrorView::WrongType {
                expected: expected@,
                found: found@,
            },
            BencodeError::DepthLimitExceeded => ErrorView::DepthLimitExceeded,
        }
    }
}

impl ErrorView {
    /// The failure in words.
    pub open spec fn message(self) -> Seq<char> {
        match self {
            ErrorView::UnexpectedEof => "Unexpected EOF"@,
            ErrorView::InvalidInteger(m) => "Invalid Integer: "@ + m,
            ErrorView::InvalidString(m) => "Invalid String: "@ + m,
            ErrorView::InvalidList(m) => "Invalid List: "@ + m,
            ErrorView::InvalidDict(m) => "Invalid Dict: "@ + m,
            ErrorView::MissingKey(k) => "Missing Key: "@ + k,
            ErrorView::WrongType { expected, found } => "Wrong type, \nExpected:"@ + expected
                + " Found:"@ + found,
            ErrorView::DepthLimitExceeded => "Depth limit exceeded"@,
        }
    }
}

impl BencodeError {
    /// The failure in words.
    pub fn message(&self) -> (text: String)
        ensures
            text@ == self@.message(),
    {
        match self {
            BencodeError::UnexpectedEof => String::from_str("Unexpected EOF"),
            BencodeError::InvalidInteger(m) => String::from_str("Invalid Integer: ").concat(
                m.as_str(),
            ),
            BencodeError::InvalidString(m) => String::from_str("Invalid String: ").concat(
                m.as_str(),
            ),
            BencodeError::InvalidList(m) => String::from_str("Invalid List: ").concat(m.as_str()),
            BencodeError::InvalidDict(m) => String::from_str("Invalid Dict: ").concat(m.as_str()),
            BencodeError::MissingKey(k) => String::from_str("Missing Key: ").concat(k.as_str()),
            BencodeError::WrongType { expected, found } => {
                let mut text = String::from_str("Wrong type, \nExpected:");
                text.append(expected.as_str());
                text.append(" Found:");
                text.append(found.as_str());
                text
            },
            BencodeError::DepthLimitExceeded => String::from_str("Depth limit exceeded"),
        }
    }
}

} // verus!
