use torrent_core::bencode::errors::BencodeError;
use torrent_core::bencode::helper::{get_bytes, get_dict, get_int, get_list, get_string};
use torrent_core::bencode::value::{BencodeDict, BencodeValue};

fn sample() -> BencodeDict {
    let mut inner = BencodeDict::new();
    inner.insert("x".to_string(), BencodeValue::Integer(1));
    let mut dict = BencodeDict::new();
    dict.insert("int".to_string(), BencodeValue::Integer(-5));
    dict.insert("text".to_string(), BencodeValue::String("hello".to_string()));
    dict.insert("bytes".to_string(), BencodeValue::Bytes(vec![0xff, 1]));
    dict.insert(
        "list".to_string(),
        BencodeValue::List(vec![BencodeValue::Integer(1)]),
    );
    dict.insert("dict".to_string(), BencodeValue::Dictionary(inner));
    dict
}

fn wrong(expected: &str, found: &str) -> BencodeError {
    BencodeError::WrongType {
        expected: expected.to_string(),
        found: found.to_string(),
    }
}

#[test]
fn accessors_read_their_shape() {
    let dict = sample();
    assert_eq!(get_int(&dict, "int"), Ok(-5));
    assert_eq!(get_string(&dict, "text"), Ok("hello".to_string()));
    assert_eq!(get_bytes(&dict, "bytes"), Ok(&vec![0xff, 1]));
    assert_eq!(get_list(&dict, "list"), Ok(&vec![BencodeValue::Integer(1)]));
    let mut inner = BencodeDict::new();
    inner.insert("x".to_string(), BencodeValue::Integer(1));
    assert_eq!(get_dict(&dict, "dict"), Ok(&inner));
}

#[test]
fn accessors_report_a_missing_key() {
    let dict = sample();
    let missing = BencodeError::MissingKey("nope".to_string());
    assert_eq!(get_int(&dict, "nope"), Err(BencodeError::MissingKey("nope".to_string())));
    assert_eq!(get_string(&dict, "nope").unwrap_err(), missing);
    assert_eq!(get_bytes(&dict, "nope").unwrap_err(), missing);
    assert_eq!(get_list(&dict, "nope").unwrap_err(), missing);
    assert_eq!(get_dict(&dict, "nope").unwrap_err(), missing);
}

#[test]
fn accessors_report_the_shape_they_found() {
    let dict = sample();
    assert_eq!(get_int(&dict, "text").unwrap_err(), wrong("Integer", "String"));
    assert_eq!(get_string(&dict, "int").unwrap_err(), wrong("String", "Int"));
    assert_eq!(get_bytes(&dict, "text").unwrap_err(), wrong("Bytes", "String"));
    assert_eq!(get_list(&dict, "dict").unwrap_err(), wrong("List", "Dict"));
    assert_eq!(get_dict(&dict, "list").unwrap_err(), wrong("Dict", "List"));
    assert_eq!(get_string(&dict, "bytes").unwrap_err(), wrong("String", "Bytes"));
}

#[test]
fn values_name_their_shape() {
    assert_eq!(BencodeValue::Integer(1).shape_name(), "Int");
    assert_eq!(BencodeValue::String(String::new()).shape_name(), "String");
    assert_eq!(BencodeValue::Bytes(vec![]).shape_name(), "Bytes");
    assert_eq!(BencodeValue::List(vec![]).shape_name(), "List");
    assert_eq!(BencodeValue::Dictionary(BencodeDict::new()).shape_name(), "Dict");
}

#[test]
fn values_open_as_their_shape() {
    let int = BencodeValue::Integer(7);
    let text = BencodeValue::String("t".to_string());
    let bytes = BencodeValue::Bytes(vec![9]);
    let list = BencodeValue::List(vec![BencodeValue::Integer(1)]);
    let dict = BencodeValue::Dictionary(sample());
    assert_eq!(int.as_int(), Ok(&7));
    assert_eq!(text.as_string(), Ok("t"));
    assert_eq!(bytes.as_bytes(), Ok(&vec![9]));
    assert_eq!(list.as_list(), Ok(&vec![BencodeValue::Integer(1)]));
    assert_eq!(dict.as_dict(), Ok(&sample()));
}

#[test]
fn values_refuse_another_shape() {
    let int = BencodeValue::Integer(7);
    let text = BencodeValue::String("t".to_string());
    assert_eq!(text.as_int().unwrap_err(), wrong("Integer", "String"));
    assert_eq!(int.as_string().unwrap_err(), wrong("String", "Int"));
    assert_eq!(int.as_bytes().unwrap_err(), wrong("Bytes", "Int"));
    assert_eq!(int.as_list().unwrap_err(), wrong("List", "Int"));
    assert_eq!(int.as_dict().unwrap_err(), wrong("Dict", "Int"));
}
