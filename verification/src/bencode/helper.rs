//! Typed access to the entries of a dictionary.
//!
//! Each accessor fails with `MissingKey` where the dictionary has no entry
//! for the key, and with `WrongType` where the entry has another shape
//! than the one asked for.
use crate::bencode::errors::{BencodeError, ErrorView};
use crate::bencode::value::{list_view, BencodeDict, BencodeValue, Value};
use vstd::prelude::*;
use vstd::string::*;

verus! {

/// The entry of `m` under `key`.
pub open spec fn field(m: Map<Seq<char>, Value>, key: Seq<char>) -> Result<Value, ErrorView> {
    if m.contains_key(key) {
        Ok(m[key])
    } else {
        Err(ErrorView::MissingKey(key))
    }
}

/// The integer that `m` holds under `key`.
pub open spec fn int_field(m: Map<Seq<char>, Value>, key: Seq<char>) -> Result<int, ErrorView> {
    match field(m, key) {
        Ok(Value::Integer(n)) => Ok(n),
        Ok(other) => Err(other.mismatch("Integer"@)),
        Err(e) => Err(e),
    }
}

/// The text that `m` holds under `key`.
pub open spec fn text_field(m: Map<Seq<char>, Value>, key: Seq<char>) -> Result<
    Seq<char>,
    ErrorView,
> {
    match field(m, key) {
        Ok(Value::Text(s)) => Ok(s),
        Ok(other) => Err(other.mismatch("String"@)),
        Err(e) => Err(e),
    }
}

/// The raw bytes that `m` holds under `key`.
pub open spec fn bytes_field(m: Map<Seq<char>, Value>, key: Seq<char>) -> Result<
    Seq<u8>,
    ErrorView,
> {
    match field(m, key) {
        Ok(Value::Bytes(b)) => Ok(b),
        Ok(other) => Err(other.mismatch("Bytes"@)),
        Err(e) => Err(e),
    }
}

/// The list that `m` holds under `key`.
pub open spec fn list_field(m: Map<Seq<char>, Value>, key: Seq<char>) -> Result<
    Seq<Value>,
    ErrorView,
> {
    match field(m, key) {
        Ok(Value::List(l)) => Ok(l),
        Ok(other) => Err(other.mismatch("List"@)),
        Err(e) => Err(e),
    }
}

/// The dictionary that `m` holds under `key`.
pub open spec fn dict_field(m: Map<Seq<char>, Value>, key: Seq<char>) -> Result<
    Map<Seq<char>, Value>,
    ErrorView,
> {
    match field(m, key) {
        Ok(Value::Dict(d)) => Ok(d),
        Ok(other) => Err(other.mismatch("Dict"@)),
        Err(e) => Err(e),
    }
}

/// The entry under `key`.
fn lookup<'a>(dict: &'a BencodeDict, key: &str) -> (r: Result<&'a BencodeValue, BencodeError>)
    ensures
        match r {
            Ok(v) => field(dict@, key@) == Ok::<Value, ErrorView>(v@),
            Err(e) => field(dict@, key@) == Err::<Value, ErrorView>(e@),
        },
{
    match dict.get(key) {
        Some(v) => Ok(v),
        None => Err(BencodeError::MissingKey(String::from_str(key))),
    }
}

/// Reads the integer under `key`.
pub fn get_int(dict: &BencodeDict, key: &str) -> (r: Result<i64, BencodeError>)
    ensures
        match r {
            Ok(n) => int_field(dict@, key@) == Ok::<int, ErrorView>(n as int),
            Err(e) => int_field(dict@, key@) == Err::<int, ErrorView>(e@),
        },
{
    let value = lookup(dict, key)?;
    match value {
        BencodeValue::Integer(n) => Ok(*n),
        _ => Err(value.wrong_type("Integer")),
    }
}

/// Reads the text under `key`.
pub fn get_string(dict: &BencodeDict, key: &str) -> (r: Result<String, BencodeError>)
    ensures
        match r {
            Ok(s) => text_field(dict@, key@) == Ok::<Seq<char>, ErrorView>(s@),
            Err(e) => text_field(dict@, key@) == Err::<Seq<char>, ErrorView>(e@),
        },
{
    let value = lookup(dict, key)?;
    match value {
        BencodeValue::String(s) => Ok(s.clone()),
        _ => Err(value.wrong_type("String")),
    }
}

/// Reads the raw bytes under `key`.
pub fn get_bytes<'a>(dict: &'a BencodeDict, key: &str) -> (r: Result<&'a Vec<u8>, BencodeError>)
    ensures
        match r {
            Ok(b) => bytes_field(dict@, key@) == Ok::<Seq<u8>, ErrorView>(b@),
            Err(e) => bytes_field(dict@, key@) == Err::<Seq<u8>, ErrorView>(e@),
        },
{
    let value = lookup(dict, key)?;
    match value {
        BencodeValue::Bytes(b) => Ok(b),
        _ => Err(value.wrong_type("Bytes")),
    }
}

/// Reads the list under `key`.
pub fn get_list<'a>(dict: &'a BencodeDict, key: &str) -> (r: Result<
    &'a Vec<BencodeValue>,
    BencodeError,
>)
    ensures
        match r {
            Ok(l) => list_field(dict@, key@) == Ok::<Seq<Value>, ErrorView>(list_view(l@)),
            Err(e) => list_field(dict@, key@) == Err::<Seq<Value>, ErrorView>(e@),
        },
{
    let value = lookup(dict, key)?;
    match value {
        BencodeValue::List(l) => {
            proof {
                assert(value@->List_0 =~= list_view(l@));
            }
            Ok(l)
        },
        _ => Err(value.wrong_type("List")),
    }
}

/// Reads the dictionary under `key`.
pub fn get_dict<'a>(dict: &'a BencodeDict, key: &str) -> (r: Result<
    &'a BencodeDict,
    BencodeError,
>)
    ensures
        match r {
            Ok(d) => dict_field(dict@, key@) == Ok::<Map<Seq<char>, Value>, ErrorView>(d@),
            Err(e) => dict_field(dict@, key@) == Err::<Map<Seq<char>, Value>, ErrorView>(e@),
        },
{
    let value = lookup(dict, key)?;
    match value {
        BencodeValue::Dictionary(d) => Ok(d),
        _ => Err(value.wrong_type("Dict")),
    }
}

} // verus!
