use torrent_core::bencode::errors::BencodeError;
use torrent_core::bencode::parser::BencodeParser;
use torrent_core::bencode::value::{BencodeDict, BencodeValue};
use torrent_core::peer::error::{HandshakeError, PeerHandshakeError};
use torrent_core::torrent::error::TorrentError;
use torrent_core::tracker::error::TrackerError;

#[test]
fn codec_failures_in_words() {
    assert_eq!(BencodeError::UnexpectedEof.message(), "Unexpected EOF");
    assert_eq!(
        BencodeError::InvalidInteger("x".to_string()).message(),
        "Invalid Integer: x"
    );
    assert_eq!(
        BencodeError::InvalidString("x".to_string()).message(),
        "Invalid String: x"
    );
    assert_eq!(
        BencodeError::InvalidList("x".to_string()).message(),
        "Invalid List: x"
    );
    assert_eq!(
        BencodeError::InvalidDict("x".to_string()).message(),
        "Invalid Dict: x"
    );
    assert_eq!(
        BencodeError::MissingKey("name".to_string()).message(),
        "Missing Key: name"
    );
    assert_eq!(
        BencodeError::WrongType { expected: "Dict".to_string(), found: "Int".to_string() }
            .message(),
        "Wrong type, \nExpected:Dict Found:Int"
    );
    assert_eq!(
        BencodeError::DepthLimitExceeded.message(),
        "Depth limit exceeded"
    );
    assert_eq!(
        BencodeParser::parse_value(b"i03e").unwrap_err().message(),
        "Invalid Integer: Error while parsing 03 to i64"
    );
}

#[test]
fn handshake_failures_in_words() {
    assert_eq!(HandshakeError::InvalidLength.message(), "Invalid input length");
    assert_eq!(
        HandshakeError::InvalidProtocolLength(0).message(),
        "Invalid Protocol Length: 0"
    );
    assert_eq!(
        HandshakeError::InvalidProtocolLength(255).message(),
        "Invalid Protocol Length: 255"
    );
    assert_eq!(
        HandshakeError::InvalidProtocolString.message(),
        "Invalid Protocol String"
    );
    assert_eq!(HandshakeError::InfoHashMismatch.message(), "Info Hash Mismatch");
    assert_eq!(
        HandshakeError::SelfConnection.message(),
        "Self Connection: Tried to connect to self"
    );
}

#[test]
fn connection_failures_in_words() {
    assert_eq!(
        PeerHandshakeError::HandshakeError(HandshakeError::InfoHashMismatch).message(),
        "Info Hash Mismatch"
    );
    let io = std::io::Error::new(std::io::ErrorKind::UnexpectedEof, "short read");
    let expected = io.to_string();
    assert_eq!(PeerHandshakeError::IOError(io).message(), expected);
    assert_eq!(expected, "short read");
}

#[test]
fn document_failures_in_words() {
    assert_eq!(
        TorrentError::InvalidFilesInfo.message(),
        "Must have exactly one of 'length' or 'files'"
    );
    assert_eq!(TorrentError::InvalidPieces.message(), "Invalid piece length");
    assert_eq!(
        TorrentError::Bencode(BencodeError::UnexpectedEof).message(),
        "Unexpected EOF"
    );
    assert_eq!(
        TrackerError::InvalidAddress.message(),
        "invalid IPv4 address syntax"
    );
    assert_eq!(
        TrackerError::Bencode(BencodeError::MissingKey("ip".to_string())).message(),
        "Missing Key: ip"
    );
}

#[test]
fn values_written_out() {
    assert_eq!(BencodeValue::Integer(0).to_text(), "0");
    assert_eq!(BencodeValue::Integer(-42).to_text(), "-42");
    assert_eq!(BencodeValue::Integer(i64::MIN).to_text(), "-9223372036854775808");
    assert_eq!(BencodeValue::Integer(i64::MAX).to_text(), "9223372036854775807");
    assert_eq!(BencodeValue::String("spam".to_string()).to_text(), " \" spam \" ");
    assert_eq!(BencodeValue::Bytes(vec![0xff; 12]).to_text(), "12");
    assert_eq!(BencodeValue::List(vec![]).to_text(), "[]");
    assert_eq!(
        BencodeValue::List(vec![
            BencodeValue::Integer(1),
            BencodeValue::String("a".to_string()),
            BencodeValue::List(vec![BencodeValue::Integer(2)]),
        ])
        .to_text(),
        "[1,  \" a \" , [2]]"
    );
    assert_eq!(BencodeValue::Dictionary(BencodeDict::new()).to_text(), "{}");
    let mut dict = BencodeDict::new();
    dict.insert("b".to_string(), BencodeValue::Integer(1));
    dict.insert("a".to_string(), BencodeValue::List(vec![]));
    assert_eq!(
        BencodeValue::Dictionary(dict).to_text(),
        "{\"a\": [], \"b\": 1}"
    );
}

#[test]
fn a_copy_has_the_same_content() {
    let mut dict = BencodeDict::new();
    dict.insert("b".to_string(), BencodeValue::Bytes(vec![1, 2]));
    dict.insert(
        "a".to_string(),
        BencodeValue::List(vec![BencodeValue::Integer(1), BencodeValue::String("x".to_string())]),
    );
    let value = BencodeValue::Dictionary(dict);
    let copy = value.clone();
    assert_eq!(copy, value);
    assert_eq!(copy.encode(), value.encode());
}
