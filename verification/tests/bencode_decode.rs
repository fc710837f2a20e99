use torrent_core::bencode::errors::BencodeError;
use torrent_core::bencode::parser::{BencodeParser, MAX_DEPTH};
use torrent_core::bencode::value::{BencodeDict, BencodeValue};

fn text(s: &str) -> BencodeValue {
    BencodeValue::String(s.to_string())
}

fn decoded(input: &[u8]) -> (BencodeValue, Vec<u8>) {
    let (value, rest) = BencodeParser::parse_value(input).unwrap();
    (value, rest.to_vec())
}

fn failure(input: &[u8]) -> BencodeError {
    BencodeParser::parse_value(input).unwrap_err()
}

#[test]
fn integer_positive() {
    assert_eq!(decoded(b"i3e"), (BencodeValue::Integer(3), vec![]));
}

#[test]
fn integer_negative() {
    assert_eq!(decoded(b"i-3e"), (BencodeValue::Integer(-3), vec![]));
}

#[test]
fn integer_zero() {
    assert_eq!(decoded(b"i0e"), (BencodeValue::Integer(0), vec![]));
}

#[test]
fn integer_leaves_the_rest() {
    assert_eq!(
        decoded(b"i42e4:spam"),
        (BencodeValue::Integer(42), b"4:spam".to_vec())
    );
}

#[test]
fn integer_extremes() {
    assert_eq!(
        decoded(b"i9223372036854775807e"),
        (BencodeValue::Integer(i64::MAX), vec![])
    );
    assert_eq!(
        decoded(b"i-9223372036854775808e"),
        (BencodeValue::Integer(i64::MIN), vec![])
    );
}

#[test]
fn integer_overflow_is_rejected() {
    assert_eq!(
        failure(b"i9223372036854775808e"),
        BencodeError::InvalidInteger("Error while parsing 9223372036854775808 to i64".to_string())
    );
    assert_eq!(
        failure(b"i-9223372036854775809e"),
        BencodeError::InvalidInteger(
            "Error while parsing -9223372036854775809 to i64".to_string()
        )
    );
    assert!(matches!(
        failure(b"i99999999999999999999999999e"),
        BencodeError::InvalidInteger(_)
    ));
}

#[test]
fn integer_leading_zero_is_rejected() {
    assert_eq!(
        failure(b"i03e"),
        BencodeError::InvalidInteger("Error while parsing 03 to i64".to_string())
    );
}

#[test]
fn integer_negative_zero_is_rejected() {
    assert_eq!(
        failure(b"i-0e"),
        BencodeError::InvalidInteger("Error while parsing -0 to i64".to_string())
    );
    assert!(matches!(failure(b"i-03e"), BencodeError::InvalidInteger(_)));
}

#[test]
fn integer_lone_minus_is_rejected() {
    assert_eq!(
        failure(b"i-e"),
        BencodeError::InvalidInteger("Error while parsing - to i64".to_string())
    );
}

#[test]
fn integer_without_digits_is_rejected() {
    assert!(matches!(failure(b"ie"), BencodeError::InvalidInteger(_)));
}

#[test]
fn integer_with_sign_or_junk_is_rejected() {
    assert!(matches!(failure(b"i+3e"), BencodeError::InvalidInteger(_)));
    assert!(matches!(failure(b"i3xe"), BencodeError::InvalidInteger(_)));
    assert!(matches!(failure(b"i 3e"), BencodeError::InvalidInteger(_)));
    assert!(matches!(failure(b"i3-e"), BencodeError::InvalidInteger(_)));
}

#[test]
fn integer_without_end_is_rejected() {
    assert_eq!(
        failure(b"i3"),
        BencodeError::InvalidInteger("Input missing ending 'e'".to_string())
    );
}

#[test]
fn parse_int_wants_the_lead() {
    assert_eq!(
        BencodeParser::parse_int(b"3e").unwrap_err(),
        BencodeError::InvalidInteger("Input does not start with 'i': 3e".to_string())
    );
    assert!(matches!(
        BencodeParser::parse_int(b""),
        Err(BencodeError::InvalidInteger(_))
    ));
}

#[test]
fn string_spam() {
    assert_eq!(decoded(b"4:spam"), (text("spam"), vec![]));
}

#[test]
fn string_empty() {
    assert_eq!(decoded(b"0:"), (text(""), vec![]));
}

#[test]
fn string_leaves_the_rest() {
    assert_eq!(decoded(b"4:spameggs"), (text("spam"), b"eggs".to_vec()));
}

#[test]
fn string_too_short_is_rejected() {
    assert_eq!(
        failure(b"10:12345"),
        BencodeError::InvalidString("String length exceeds input length".to_string())
    );
}

#[test]
fn string_without_colon_is_rejected() {
    assert_eq!(
        failure(b"4spam"),
        BencodeError::InvalidString("Missing ':'".to_string())
    );
}

#[test]
fn string_length_with_leading_zero_is_rejected() {
    assert_eq!(
        failure(b"04:spam"),
        BencodeError::InvalidString("Error while parsing string length: 04:spam".to_string())
    );
}

#[test]
fn string_length_beyond_the_machine_is_rejected() {
    assert!(matches!(
        failure(b"99999999999999999999999999:a"),
        BencodeError::InvalidString(_)
    ));
    assert!(matches!(
        failure(b"18446744073709551615:a"),
        BencodeError::InvalidString(_)
    ));
}

#[test]
fn string_of_multibyte_text() {
    let (value, rest) = decoded("6:h\u{e9}llo!".as_bytes());
    assert_eq!(value, text("h\u{e9}llo"));
    assert_eq!(rest, b"!".to_vec());
}

#[test]
fn string_that_is_not_utf8_gives_bytes() {
    assert_eq!(
        decoded(&[b'3', b':', 0xff, 0x00, 0x80]),
        (BencodeValue::Bytes(vec![0xff, 0x00, 0x80]), vec![])
    );
}

#[test]
fn string_cut_inside_a_character_gives_bytes() {
    assert_eq!(
        decoded(&[b'1', b':', 0xc3, 0xa9]),
        (BencodeValue::Bytes(vec![0xc3]), vec![0xa9])
    );
}

#[test]
fn list_of_strings() {
    assert_eq!(
        decoded(b"l4:spam4:eggse"),
        (BencodeValue::List(vec![text("spam"), text("eggs")]), vec![])
    );
}

#[test]
fn list_empty() {
    assert_eq!(decoded(b"le"), (BencodeValue::List(vec![]), vec![]));
}

#[test]
fn list_nested_keeps_order() {
    assert_eq!(
        decoded(b"li2eli1eei3eex"),
        (
            BencodeValue::List(vec![
                BencodeValue::Integer(2),
                BencodeValue::List(vec![BencodeValue::Integer(1)]),
                BencodeValue::Integer(3),
            ]),
            b"x".to_vec()
        )
    );
}

#[test]
fn list_without_end_is_rejected() {
    assert_eq!(
        failure(b"l4:spam"),
        BencodeError::InvalidList("Missing ending 'e' for input: l4:spam".to_string())
    );
}

#[test]
fn list_with_a_bad_item_is_rejected() {
    assert!(matches!(failure(b"li03ee"), BencodeError::InvalidInteger(_)));
}

#[test]
fn parse_list_wants_the_lead() {
    assert_eq!(
        BencodeParser::parse_list(b"i1e").unwrap_err(),
        BencodeError::InvalidList("Input does not start with 'l': i1e".to_string())
    );
}

#[test]
fn dictionary_of_strings() {
    let mut expected = BencodeDict::new();
    expected.insert("cow".to_string(), text("moo"));
    expected.insert("spam".to_string(), text("eggs"));
    assert_eq!(
        decoded(b"d3:cow3:moo4:spam4:eggse"),
        (BencodeValue::Dictionary(expected), vec![])
    );
}

#[test]
fn dictionary_of_list() {
    let mut expected = BencodeDict::new();
    expected.insert(
        "spam".to_string(),
        BencodeValue::List(vec![text("a"), text("b")]),
    );
    assert_eq!(
        decoded(b"d4:spaml1:a1:bee"),
        (BencodeValue::Dictionary(expected), vec![])
    );
}

#[test]
fn dictionary_empty() {
    assert_eq!(
        decoded(b"de"),
        (BencodeValue::Dictionary(BencodeDict::new()), vec![])
    );
}

#[test]
fn dictionary_keys_out_of_order_are_accepted() {
    let mut expected = BencodeDict::new();
    expected.insert("a".to_string(), BencodeValue::Integer(2));
    expected.insert("b".to_string(), BencodeValue::Integer(1));
    assert_eq!(
        decoded(b"d1:bi1e1:ai2ee"),
        (BencodeValue::Dictionary(expected), vec![])
    );
}

#[test]
fn dictionary_duplicate_key_keeps_the_last() {
    let mut expected = BencodeDict::new();
    expected.insert("a".to_string(), BencodeValue::Integer(2));
    assert_eq!(
        decoded(b"d1:ai1e1:ai2ee"),
        (BencodeValue::Dictionary(expected), vec![])
    );
}

#[test]
fn dictionary_key_must_be_a_string() {
    assert!(matches!(failure(b"di1ei2ee"), BencodeError::InvalidString(_)));
}

#[test]
fn dictionary_key_must_be_text() {
    assert_eq!(
        failure(&[b'd', b'1', b':', 0xff, b'i', b'1', b'e', b'e']),
        BencodeError::InvalidString("Dictionary key must be String type".to_string())
    );
}

#[test]
fn dictionary_without_end_is_rejected() {
    assert_eq!(
        failure(b"d3:cow3:moo"),
        BencodeError::InvalidDict("Missing ending 'e' for the dictionary: d3:cow3:moo".to_string())
    );
}

#[test]
fn dictionary_without_a_value_is_rejected() {
    assert_eq!(failure(b"d3:cow"), BencodeError::UnexpectedEof);
}

#[test]
fn parse_dict_wants_the_lead() {
    assert_eq!(
        BencodeParser::parse_dict(b"le").unwrap_err(),
        BencodeError::InvalidDict("Input does not start with 'd': le".to_string())
    );
}

#[test]
fn empty_input_is_rejected() {
    assert_eq!(failure(b""), BencodeError::UnexpectedEof);
}

#[test]
fn unknown_lead_is_rejected() {
    assert_eq!(
        failure(b"x3e"),
        BencodeError::WrongType {
            expected: "String/List/Integer/Dictionary".to_string(),
            found: "Unknown: x3e".to_string(),
        }
    );
}

#[test]
fn unknown_lead_that_is_not_utf8_is_shown_lossily() {
    assert_eq!(
        failure(&[0xff, b'a']),
        BencodeError::WrongType {
            expected: "String/List/Integer/Dictionary".to_string(),
            found: "Unknown: \u{fffd}a".to_string(),
        }
    );
}

#[test]
fn stray_end_is_rejected() {
    assert!(matches!(failure(b"e"), BencodeError::WrongType { .. }));
}

fn nested_lists(levels: usize) -> Vec<u8> {
    let mut bytes = vec![b'l'; levels];
    bytes.extend(vec![b'e'; levels]);
    bytes
}

#[test]
fn nesting_up_to_the_limit_is_accepted() {
    let bytes = nested_lists(MAX_DEPTH);
    let (_, rest) = BencodeParser::parse_value(&bytes).unwrap();
    assert!(rest.is_empty());
}

#[test]
fn nesting_past_the_limit_is_rejected() {
    let bytes = nested_lists(MAX_DEPTH + 1);
    assert_eq!(failure(&bytes), BencodeError::DepthLimitExceeded);
    let deep = nested_lists(100_000);
    assert_eq!(failure(&deep), BencodeError::DepthLimitExceeded);
}

#[test]
fn nesting_limit_can_be_chosen() {
    assert_eq!(
        BencodeParser::parse_value_bounded(b"i1e", 0).unwrap().0,
        BencodeValue::Integer(1)
    );
    assert_eq!(
        BencodeParser::parse_value_bounded(b"le", 0).unwrap_err(),
        BencodeError::DepthLimitExceeded
    );
    assert_eq!(
        BencodeParser::parse_value_bounded(b"de", 0).unwrap_err(),
        BencodeError::DepthLimitExceeded
    );
    assert!(BencodeParser::parse_value_bounded(b"lli1eee", 2).is_ok());
    assert_eq!(
        BencodeParser::parse_value_bounded(b"lli1eee", 1).unwrap_err(),
        BencodeError::DepthLimitExceeded
    );
    assert_eq!(
        BencodeParser::parse_value_bounded(b"d1:adee", 1).unwrap_err(),
        BencodeError::DepthLimitExceeded
    );
    assert!(BencodeParser::parse_list_bounded(b"lleleleee", 1).is_ok());
    assert!(BencodeParser::parse_dict_bounded(b"d1:alee", 1).is_ok());
    assert_eq!(
        BencodeParser::parse_dict_bounded(b"d1:alee", 0).unwrap_err(),
        BencodeError::DepthLimitExceeded
    );
}

#[test]
fn parse_string_reads_any_lead() {
    assert_eq!(
        BencodeParser::parse_string(b"4:spam").unwrap(),
        (text("spam"), &b""[..])
    );
    assert!(matches!(
        BencodeParser::parse_string(b"x:spam"),
        Err(BencodeError::InvalidString(_))
    ));
    assert!(matches!(
        BencodeParser::parse_string(b"+4:spam"),
        Err(BencodeError::InvalidString(_))
    ));
    assert!(matches!(
        BencodeParser::parse_string(b":spam"),
        Err(BencodeError::InvalidString(_))
    ));
}
