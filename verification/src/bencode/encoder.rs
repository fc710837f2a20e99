//! The canonical encoder.
use crate::bencode::decimal::{int_digits, nat_digits, push_decimal};
use crate::bencode::keys::ascending_keys;
use crate::bencode::keys::{key_before, lemma_ascending_keys, lemma_ascending_keys_unique};
use crate::bencode::value::{list_view, BencodeDict, BencodeValue, Value};
use vstd::prelude::*;
use vstd::string::*;
use vstd::utf8::*;

verus! {

/// The encoding of the integer `n`: `i`, its decimal numeral, `e`.
pub open spec fn integer_encoding(n: int) -> Seq<u8> {
    seq![0x69u8] + int_digits(n) + seq![0x65u8]
}

/// The encoding of a byte string: its length in decimal, `:`, the bytes.
pub open spec fn bytes_encoding(b: Seq<u8>) -> Seq<u8> {
    nat_digits(b.len()) + seq![0x3au8] + b
}

/// The encoding of a text: that of its UTF-8 bytes.
pub open spec fn text_encoding(s: Seq<char>) -> Seq<u8> {
    bytes_encoding(encode_utf8(s))
}

/// The canonical encoding of a value.
pub open spec fn encoding(v: Value) -> Seq<u8>
    decreases v, 0nat,
{
    match v {
        Value::Integer(n) => integer_encoding(n),
        Value::Text(s) => text_encoding(s),
        Value::Bytes(b) => bytes_encoding(b),
        Value::List(l) => seq![0x6cu8] + items_encoding(l) + seq![0x65u8],
        Value::Dict(m) => seq![0x64u8] + entries_encoding(m, ascending_keys(m.dom())) + seq![
            0x65u8,
        ],
    }
}

/// The encodings of the items of a list, one after the other.
pub open spec fn items_encoding(l: Seq<Value>) -> Seq<u8>
    decreases l, l.len(),
{
    if l.len() == 0 {
        Seq::empty()
    } else {
        encoding(l[0]) + items_encoding(l.drop_first())
    }
}

/// The encodings of the entries of `m` under the keys `ks`, in the order of
/// `ks`: each key as a text, followed by its value.
pub open spec fn entries_encoding(m: Map<Seq<char>, Value>, ks: Seq<Seq<char>>) -> Seq<u8>
    decreases m, ks.len(),
    when m.dom().finite()
{
    if ks.len() == 0 {
        Seq::empty()
    } else if m.contains_key(ks[0]) {
        text_encoding(ks[0]) + encoding(m[ks[0]]) + entries_encoding(m, ks.drop_first())
    } else {
        entries_encoding(m, ks.drop_first())
    }
}

/// The encoding of a list: `l`, its items, `e`.
pub open spec fn list_encoding(l: Seq<Value>) -> Seq<u8> {
    encoding(Value::List(l))
}

/// The encoding of a dictionary: `d`, its entries in ascending order of the
/// keys' raw bytes, `e`.
pub open spec fn dict_encoding(m: Map<Seq<char>, Value>) -> Seq<u8> {
    encoding(Value::Dict(m))
}

/// Encodes an integer.
pub fn encode_integer(n: i64) -> (out: Vec<u8>)
    ensures
        out@ == integer_encoding(n as int),
{
    let mut out: Vec<u8> = Vec::new();
    out.push(0x69u8);
    if n < 0 {
        out.push(0x2du8);
        let magnitude: u64 = ((-(n + 1)) as u64) + 1;
        push_decimal(&mut out, magnitude);
    } else {
        push_decimal(&mut out, n as u64);
    }
    out.push(0x65u8);
    proof {
        assert(out@ =~= integer_encoding(n as int));
    }
    out
}

/// Encodes a byte string.
pub fn encode_bytes(bytes: &[u8]) -> (out: Vec<u8>)
    ensures
        out@ == bytes_encoding(bytes@),
{
    let mut out: Vec<u8> = Vec::new();
    push_decimal(&mut out, bytes.len() as u64);
    out.push(0x3au8);
    out.extend_from_slice(bytes);
    proof {
        assert(out@ =~= bytes_encoding(bytes@));
    }
    out
}

/// Encodes a text as the byte string of its UTF-8 bytes.
pub fn encode_string(s: &str) -> (out: Vec<u8>)
    ensures
        out@ == text_encoding(s@),
{
    encode_bytes(s.as_bytes())
}

/// Appending an item to a list appends its encoding.
pub proof fn lemma_items_encoding_push(l: Seq<Value>, x: Value)
    ensures
        items_encoding(l.push(x)) == items_encoding(l) + encoding(x),
    decreases l.len(),
{
    let lx = l.push(x);
    if l.len() == 0 {
        assert(lx.drop_first() =~= Seq::<Value>::empty());
        assert(items_encoding(lx) =~= encoding(x) + items_encoding(lx.drop_first()));
        assert(items_encoding(lx) =~= items_encoding(l) + encoding(x));
    } else {
        assert(lx.drop_first() =~= l.drop_first().push(x));
        lemma_items_encoding_push(l.drop_first(), x);
        assert(items_encoding(lx) =~= items_encoding(l) + encoding(x));
    }
}

/// Appending a key of the dictionary to a key list appends its entry's encoding.
pub proof fn lemma_entries_encoding_push(
    m: Map<Seq<char>, Value>,
    ks: Seq<Seq<char>>,
    k: Seq<char>,
)
    requires
        m.dom().finite(),
        m.contains_key(k),
    ensures
        entries_encoding(m, ks.push(k)) == entries_encoding(m, ks) + text_encoding(k) + encoding(
            m[k],
        ),
    decreases ks.len(),
{
    let kx = ks.push(k);
    if ks.len() == 0 {
        assert(kx.drop_first() =~= Seq::<Seq<char>>::empty());
        assert(entries_encoding(m, kx) =~= text_encoding(k) + encoding(m[k]) + entries_encoding(
            m,
            kx.drop_first(),
        ));
        assert(entries_encoding(m, kx) =~= entries_encoding(m, ks) + text_encoding(k) + encoding(
            m[k],
        ));
    } else {
        assert(kx.drop_first() =~= ks.drop_first().push(k));
        lemma_entries_encoding_push(m, ks.drop_first(), k);
        assert(entries_encoding(m, kx) =~= entries_encoding(m, ks) + text_encoding(k) + encoding(
            m[k],
        ));
    }
}

/// Encodes a value in canonical form.
pub fn encode(input: &BencodeValue) -> (out: Vec<u8>)
    ensures
        out@ == encoding(input@),
    decreases input,
{
    match input {
        BencodeValue::Integer(i) => encode_integer(*i),
        BencodeValue::String(s) => encode_string(s.as_str()),
        BencodeValue::Bytes(b) => encode_bytes(b.as_slice()),
        BencodeValue::List(l) => {
            proof {
                assert(input@->List_0 =~= list_view(l@));
            }
            encode_list(l.as_slice())
        },
        BencodeValue::Dictionary(d) => encode_dict(d),
    }
}

/// Encodes a list: `l`, the items in order, `e`.
pub fn encode_list(l: &[BencodeValue]) -> (out: Vec<u8>)
    ensures
        out@ == list_encoding(list_view(l@)),
    decreases l@,
{
    let ghost items = list_view(l@);
    let mut out: Vec<u8> = Vec::new();
    out.push(0x6cu8);
    let mut i: usize = 0;
    proof {
        assert(items.take(0) =~= Seq::<Value>::empty());
    }
    while i < l.len()
        invariant
            i <= l@.len(),
            items == list_view(l@),
            out@ == seq![0x6cu8] + items_encoding(items.take(i as int)),
        decreases l@.len() - i,
    {
        let mut piece = encode(&l[i]);
        proof {
            lemma_items_encoding_push(items.take(i as int), items[i as int]);
            assert(items.take(i + 1) =~= items.take(i as int).push(items[i as int]));
        }
        out.append(&mut piece);
        i += 1;
    }
    out.push(0x65u8);
    proof {
        assert(items.take(i as int) =~= items);
    }
    out
}

/// Encodes a dictionary: `d`, the entries in ascending order of the keys'
/// raw bytes, `e`.
pub fn encode_dict(dict: &BencodeDict) -> (out: Vec<u8>)
    ensures
        out@ == dict_encoding(dict@),
    decreases dict,
{
    let n = dict.len();
    let ghost m = dict@;
    let ghost ks = ascending_keys(m.dom());
    proof {
        lemma_ascending_keys(m.dom());
        assert(ks.take(0) =~= Seq::<Seq<char>>::empty());
    }
    let mut out: Vec<u8> = Vec::new();
    out.push(0x64u8);
    let mut i: usize = 0;
    while i < n
        invariant
            i <= n,
            n == ks.len(),
            n == m.len(),
            m == dict@,
            m.dom().finite(),
            ks == ascending_keys(m.dom()),
            out@ == seq![0x64u8] + entries_encoding(m, ks.take(i as int)),
        decreases n - i,
    {
        match dict.entry_at(i) {
            Some((key, value)) => {
                let mut key_piece = encode_string(key);
                let mut value_piece = encode(value);
                proof {
                    lemma_entries_encoding_push(m, ks.take(i as int), ks[i as int]);
                    assert(ks.take(i + 1) =~= ks.take(i as int).push(ks[i as int]));
                }
                out.append(&mut key_piece);
                out.append(&mut value_piece);
            },
            None => {},
        }
        i += 1;
    }
    out.push(0x65u8);
    proof {
        assert(ks.take(i as int) =~= ks);
    }
    out
}

/// The encoding of a dictionary does not depend on the order in which its
/// entries were inserted.
pub proof fn lemma_encoding_ignores_insertion_order(
    m: Map<Seq<char>, Value>,
    k1: Seq<char>,
    v1: Value,
    k2: Seq<char>,
    v2: Value,
)
    requires
        k1 != k2,
    ensures
        dict_encoding(m.insert(k1, v1).insert(k2, v2)) == dict_encoding(
            m.insert(k2, v2).insert(k1, v1),
        ),
{
    assert(m.insert(k1, v1).insert(k2, v2) =~= m.insert(k2, v2).insert(k1, v1));
}

/// A dictionary of two entries is encoded with the key first that sorts
/// first by its raw bytes.
pub proof fn lemma_two_entries_encoding(a: Seq<char>, x: Value, b: Seq<char>, y: Value)
    requires
        key_before(a, b),
    ensures
        dict_encoding(Map::<Seq<char>, Value>::empty().insert(b, y).insert(a, x)) == seq![0x64u8]
            + text_encoding(a) + encoding(x) + text_encoding(b) + encoding(y) + seq![0x65u8],
{
    let m = Map::<Seq<char>, Value>::empty().insert(b, y).insert(a, x);
    let ks = seq![a, b];
    assert forall|k: Seq<char>| ks.contains(k) <==> m.dom().contains(k) by {
        assert(ks[0] == a && ks[1] == b);
    }
    lemma_ascending_keys_unique(ks, m.dom());
    crate::bencode::keys::lemma_bytes_before_irreflexive(encode_utf8(a));
    assert(a != b);
    let rest = ks.drop_first();
    assert(rest[0] == b);
    assert(rest.drop_first() =~= Seq::<Seq<char>>::empty());
    assert(entries_encoding(m, rest.drop_first()) =~= Seq::<u8>::empty());
    assert(entries_encoding(m, rest) =~= text_encoding(b) + encoding(y));
    assert(entries_encoding(m, ks) =~= text_encoding(a) + encoding(x) + text_encoding(b)
        + encoding(y));
    assert(dict_encoding(m) =~= seq![0x64u8] + text_encoding(a) + encoding(x) + text_encoding(b)
        + encoding(y) + seq![0x65u8]);
}

} // verus!
