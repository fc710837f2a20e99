use torrent_core::bencode::errors::BencodeError;
use torrent_core::bencode::value::{BencodeDict, BencodeValue};
use torrent_core::tracker::client::{parse_ipv4, parse_peers, parse_tracker_response};
use torrent_core::tracker::error::TrackerError;
use torrent_core::tracker::value::{Event, Peer, TrackerRequest, TrackerResponse};

fn request() -> TrackerRequest {
    let mut info_hash = [0u8; 20];
    for (i, b) in info_hash.iter_mut().enumerate() {
        *b = (i as u8) * 13;
    }
    TrackerRequest {
        announce_url: "http://tracker.example/announce".to_string(),
        info_hash,
        peer_id: *b"-RS0001-abcdefghijkl",
        ip: None,
        port: 6881,
        uploaded: 0,
        downloaded: 1234567890123,
        left: u64::MAX,
        compact: true,
        event: None,
    }
}

#[test]
fn events_have_their_keywords() {
    assert_eq!(Event::Started.as_str(), "started");
    assert_eq!(Event::Completed.as_str(), "completed");
    assert_eq!(Event::Stopped.as_str(), "stopped");
}

#[test]
fn the_url_holds_the_fields_in_order() {
    assert_eq!(
        request().build_url(),
        "http://tracker.example/announce?info_hash=%00%0D%1A%27%34%41%4E%5B%68%75%82%8F%9C%A9%B6%C3%D0%DD%EA%F7\
&peer_id=%2D%52%53%30%30%30%31%2D%61%62%63%64%65%66%67%68%69%6A%6B%6C\
&port=6881&uploaded=0&downloaded=1234567890123&left=18446744073709551615&compact=1"
    );
}

#[test]
fn the_url_holds_the_event_and_the_address_where_given() {
    let mut req = request();
    req.compact = false;
    req.event = Some(Event::Started);
    req.ip = Some([192, 168, 0, 10]);
    let url = req.build_url();
    assert!(url.ends_with("&compact=0&event=started&ip=192.168.0.10"));
    req.event = None;
    req.ip = Some([0, 255, 9, 100]);
    assert!(req.build_url().ends_with("&compact=0&ip=0.255.9.100"));
    req.event = Some(Event::Stopped);
    req.ip = None;
    assert!(req.build_url().ends_with("&compact=0&event=stopped"));
}

#[test]
fn a_peer_identifier_starts_with_the_client_prefix() {
    let id = TrackerRequest::generate_peer_id();
    assert_eq!(&id[..8], b"-RS0001-");
    assert_eq!(id.len(), 20);
}

#[test]
fn a_peer_identifier_holds_the_given_bytes() {
    let id = TrackerRequest::peer_id_from(&[1, 2, 3, 4, 5, 6, 7, 8, 9, 10, 11, 12]);
    assert_eq!(&id[..8], b"-RS0001-");
    assert_eq!(&id[8..], &[1, 2, 3, 4, 5, 6, 7, 8, 9, 10, 11, 12]);
}

#[test]
fn addresses_are_read_in_dotted_decimal() {
    assert_eq!(parse_ipv4("192.168.0.10"), Some([192, 168, 0, 10]));
    assert_eq!(parse_ipv4("0.0.0.0"), Some([0, 0, 0, 0]));
    assert_eq!(parse_ipv4("255.255.255.255"), Some([255, 255, 255, 255]));
    assert_eq!(parse_ipv4("1.2.3.4"), Some([1, 2, 3, 4]));
}

#[test]
fn malformed_addresses_are_refused() {
    for text in [
        "", "1", "1.2.3", "1.2.3.4.5", "1.2.3.", ".1.2.3", "1..2.3", "256.1.1.1", "1.1.1.256",
        "01.2.3.4", "1.2.3.04", "1.2.3.4 ", " 1.2.3.4", "a.b.c.d", "1.2.3.-4", "+1.2.3.4",
        "1.2.3.4\n", "1000.1.1.1", "::1", "1.2.3.4/8",
    ] {
        assert_eq!(parse_ipv4(text), None, "{:?}", text);
    }
}

fn peer_entry(entries: Vec<(&str, BencodeValue)>) -> BencodeValue {
    let mut dict = BencodeDict::new();
    for (key, value) in entries {
        dict.insert(key.to_string(), value);
    }
    BencodeValue::Dictionary(dict)
}

fn text(s: &str) -> BencodeValue {
    BencodeValue::String(s.to_string())
}

#[test]
fn peers_are_read_in_order() {
    let list = vec![
        peer_entry(vec![
            ("peer id", BencodeValue::Bytes(vec![0xff; 20])),
            ("ip", text("10.0.0.1")),
            ("port", BencodeValue::Integer(6881)),
        ]),
        peer_entry(vec![("ip", text("10.0.0.2")), ("port", BencodeValue::Integer(51413))]),
        peer_entry(vec![
            ("peer id", text("-XX0001-aaaaaaaaaaaa")),
            ("ip", text("10.0.0.3")),
            ("port", BencodeValue::Integer(65536 + 80)),
        ]),
    ];
    assert_eq!(
        parse_peers(&list),
        Ok(vec![
            Peer { id: Some(vec![0xff; 20]), ip: [10, 0, 0, 1], port: 6881 },
            Peer { id: None, ip: [10, 0, 0, 2], port: 51413 },
            Peer { id: None, ip: [10, 0, 0, 3], port: 80 },
        ])
    );
    assert_eq!(parse_peers(&vec![]), Ok(vec![]));
}

#[test]
fn a_bad_peer_fails_the_list() {
    let good = peer_entry(vec![("ip", text("10.0.0.1")), ("port", BencodeValue::Integer(1))]);
    assert_eq!(
        parse_peers(&vec![good, BencodeValue::Integer(1)]),
        Err(TrackerError::Bencode(BencodeError::WrongType {
            expected: "Dict".to_string(),
            found: "Int".to_string(),
        }))
    );
    assert_eq!(
        parse_peers(&vec![peer_entry(vec![("port", BencodeValue::Integer(1))])]),
        Err(TrackerError::Bencode(BencodeError::MissingKey("ip".to_string())))
    );
    assert_eq!(
        parse_peers(&vec![peer_entry(vec![("ip", text("10.0.0.300"))])]),
        Err(TrackerError::InvalidAddress)
    );
    assert_eq!(
        parse_peers(&vec![peer_entry(vec![("ip", text("10.0.0.3"))])]),
        Err(TrackerError::Bencode(BencodeError::MissingKey("port".to_string())))
    );
    assert_eq!(
        parse_peers(&vec![
            peer_entry(vec![("ip", text("nowhere")), ("port", BencodeValue::Integer(1))]),
            BencodeValue::Integer(1),
        ]),
        Err(TrackerError::InvalidAddress)
    );
}

#[test]
fn an_answer_is_read_from_bytes() {
    let bytes = b"d8:intervali1800e5:peersld2:ip8:10.0.0.14:porti6881eed2:ip8:10.0.0.24:porti6882eeee";
    let expected = TrackerResponse {
        interval: 1800,
        peers: vec![
            Peer { id: None, ip: [10, 0, 0, 1], port: 6881 },
            Peer { id: None, ip: [10, 0, 0, 2], port: 6882 },
        ],
    };
    assert_eq!(parse_tracker_response(bytes), Ok(expected));
}

#[test]
fn a_malformed_answer_is_refused() {
    assert_eq!(
        parse_tracker_response(b""),
        Err(TrackerError::Bencode(BencodeError::UnexpectedEof))
    );
    assert_eq!(
        parse_tracker_response(b"le"),
        Err(TrackerError::Bencode(BencodeError::WrongType {
            expected: "Dict".to_string(),
            found: "List".to_string(),
        }))
    );
    assert_eq!(
        parse_tracker_response(b"de"),
        Err(TrackerError::Bencode(BencodeError::MissingKey("interval".to_string())))
    );
    assert_eq!(
        parse_tracker_response(b"d8:intervali1ee"),
        Err(TrackerError::Bencode(BencodeError::MissingKey("peers".to_string())))
    );
    assert_eq!(
        parse_tracker_response(b"d8:intervali1e5:peers6:abcdefe"),
        Err(TrackerError::Bencode(BencodeError::WrongType {
            expected: "List".to_string(),
            found: "String".to_string(),
        }))
    );
}

#[test]
fn an_interval_is_cut_to_32_bits() {
    assert_eq!(
        parse_tracker_response(b"d8:intervali4294967297e5:peerslee"),
        Ok(TrackerResponse { interval: 1, peers: vec![] })
    );
}
