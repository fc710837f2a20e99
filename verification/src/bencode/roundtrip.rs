//! Decoding inverts encoding.
use crate::bencode::decimal::{int_digits, is_digit, lemma_int_digits, lemma_nat_digits, nat_digits};
use crate::bencode::encoder::{
    bytes_encoding, encoding, entries_encoding, integer_encoding, items_encoding, text_encoding,
};
use crate::bencode::keys::{ascending_keys, lemma_ascending_keys};
use crate::bencode::parser::{
    decode_entries, decode_int, decode_items, decode_string, decode_value, decoded,
    payload_value,
};
use crate::bytes::lemma_index_of_first;
use crate::bencode::value::Value;
use vstd::prelude::*;
use vstd::utf8::*;

verus! {

/// An integer's encoding, whatever follows it, decodes to the integer and
/// leaves what follows.
pub proof fn lemma_decode_int_inverts(n: int, tail: Seq<u8>)
    requires
        i64::MIN <= n <= i64::MAX,
    ensures
        decode_int(integer_encoding(n) + tail) == decoded(Value::Integer(n), tail),
{
    let d = int_digits(n);
    let s = integer_encoding(n) + tail;
    let end = 1 + d.len() as int;
    lemma_int_digits(n);
    assert forall|j: int| 0 <= j < d.len() implies d[j] != 0x65 by {
        if n < 0 {
            lemma_nat_digits((-n) as nat);
            if j > 0 {
                assert(is_digit(nat_digits((-n) as nat)[j - 1]));
            }
        } else {
            lemma_nat_digits(n as nat);
            assert(is_digit(nat_digits(n as nat)[j]));
        }
    }
    assert forall|j: int| 0 <= j < end implies s[j] != 0x65 by {
        if j > 0 {
            assert(s[j] == d[j - 1]);
        }
    }
    lemma_index_of_first(s, 0x65u8, end);
    assert(s.subrange(1, end) =~= d);
    assert(s.skip(end + 1) =~= tail);
}

/// A byte string's encoding, whatever follows it, decodes to the value of
/// its payload and leaves what follows.
pub proof fn lemma_decode_string_inverts(payload: Seq<u8>, tail: Seq<u8>)
    requires
        payload.len() <= usize::MAX,
    ensures
        decode_string(bytes_encoding(payload) + tail) == decoded(payload_value(payload), tail),
        is_digit((bytes_encoding(payload) + tail)[0]),
{
    let d = nat_digits(payload.len());
    let s = bytes_encoding(payload) + tail;
    let colon = d.len() as int;
    lemma_nat_digits(payload.len());
    assert forall|j: int| 0 <= j < colon implies s[j] != 0x3a by {
        assert(s[j] == d[j]);
        assert(is_digit(d[j]));
    }
    assert(s[0] == d[0]);
    assert(is_digit(d[0]));
    lemma_index_of_first(s, 0x3au8, colon);
    assert(s.subrange(0, colon) =~= d);
    let start = colon + 1;
    let end = start + payload.len();
    assert(s.subrange(start, end) =~= payload);
    assert(s.skip(end) =~= tail);
}

/// Every encoding is non-empty and does not start with `e`.
pub proof fn lemma_encoding_lead(v: Value)
    ensures
        encoding(v).len() > 0,
        encoding(v)[0] != 0x65,
{
    match v {
        Value::Integer(n) => {},
        Value::Text(s) => {
            lemma_nat_digits(encode_utf8(s).len());
            assert(is_digit(nat_digits(encode_utf8(s).len())[0]));
        },
        Value::Bytes(b) => {
            lemma_nat_digits(b.len());
            assert(is_digit(nat_digits(b.len())[0]));
        },
        Value::List(l) => {},
        Value::Dict(m) => {},
    }
}

/// The entries of `m` under the first `n` keys of `ks`.
pub open spec fn leading_entries(m: Map<Seq<char>, Value>, ks: Seq<Seq<char>>, n: int) -> Map<
    Seq<char>,
    Value,
> {
    Map::new(|k: Seq<char>| ks.take(n).contains(k), |k: Seq<char>| m[k])
}

/// The encoding of a value, whatever follows it, decodes to the value and
/// leaves what follows.
pub proof fn lemma_decode_inverts(v: Value, depth: nat, tail: Seq<u8>)
    requires
        v.decodable(depth),
    ensures
        decode_value(encoding(v) + tail, depth) == decoded(v, tail),
    decreases v, 0nat,
{
    let s = encoding(v) + tail;
    lemma_encoding_lead(v);
    assert(s[0] == encoding(v)[0]);
    match v {
        Value::Integer(n) => {
            lemma_decode_int_inverts(n, tail);
        },
        Value::Text(t) => {
            lemma_decode_string_inverts(encode_utf8(t), tail);
            encode_utf8_valid_utf8(t);
            encode_utf8_decode_utf8(t);
        },
        Value::Bytes(b) => {
            lemma_decode_string_inverts(b, tail);
        },
        Value::List(l) => {
            let inner = (depth - 1) as nat;
            assert(s.skip(1) =~= items_encoding(l) + seq![0x65u8] + tail);
            lemma_decode_items_inverts(s, l, inner, Seq::empty(), tail);
            assert(Seq::<Value>::empty() + l =~= l);
        },
        Value::Dict(m) => {
            let inner = (depth - 1) as nat;
            let ks = ascending_keys(m.dom());
            lemma_ascending_keys(m.dom());
            assert(s.skip(1) =~= entries_encoding(m, ks.skip(0)) + seq![0x65u8] + tail) by {
                assert(ks.skip(0) =~= ks);
            }
            assert(leading_entries(m, ks, 0) =~= Map::<Seq<char>, Value>::empty()) by {
                assert(ks.take(0) =~= Seq::<Seq<char>>::empty());
            }
            lemma_decode_entries_inverts(s, m, 0, inner, tail);
        },
    }
}

/// The encodings of the items `l` and the closing `e` decode to the list
/// of `done` followed by `l`.
pub proof fn lemma_decode_items_inverts(
    whole: Seq<u8>,
    l: Seq<Value>,
    depth: nat,
    done: Seq<Value>,
    tail: Seq<u8>,
)
    requires
        forall|i: int| 0 <= i < l.len() ==> (#[trigger] l[i]).decodable(depth),
    ensures
        decode_items(whole, items_encoding(l) + seq![0x65u8] + tail, depth, done) == decoded(
            Value::List(done + l),
            tail,
        ),
    decreases l, l.len(),
{
    let rest = items_encoding(l) + seq![0x65u8] + tail;
    if l.len() == 0 {
        assert(rest.skip(1) =~= tail);
        assert(done + l =~= done);
    } else {
        let x = l[0];
        let more = l.drop_first();
        let after = items_encoding(more) + seq![0x65u8] + tail;
        assert(rest =~= encoding(x) + after);
        lemma_encoding_lead(x);
        assert(rest[0] == encoding(x)[0]);
        lemma_decode_inverts(x, depth, after);
        assert forall|i: int| 0 <= i < more.len() implies (#[trigger] more[i]).decodable(depth) by {
            assert(more[i] == l[i + 1]);
        }
        lemma_decode_items_inverts(whole, more, depth, done.push(x), tail);
        assert(done.push(x) + more =~= done + l);
    }
}

/// The encodings of the entries of `m` from the `from`-th key of its
/// ascending enumeration on, and the closing `e`, decode to `m` when the
/// entries before them have been read.
pub proof fn lemma_decode_entries_inverts(
    whole: Seq<u8>,
    m: Map<Seq<char>, Value>,
    from: int,
    depth: nat,
    tail: Seq<u8>,
)
    requires
        m.dom().finite(),
        0 <= from <= ascending_keys(m.dom()).len(),
        forall|k: Seq<char>| #[trigger]
            m.contains_key(k) ==> encode_utf8(k).len() <= usize::MAX && m[k].decodable(depth),
    ensures
        decode_entries(
            whole,
            entries_encoding(m, ascending_keys(m.dom()).skip(from)) + seq![0x65u8] + tail,
            depth,
            leading_entries(m, ascending_keys(m.dom()), from),
        ) == decoded(Value::Dict(m), tail),
    decreases m, ascending_keys(m.dom()).len() - from,
{
    let ks = ascending_keys(m.dom());
    lemma_ascending_keys(m.dom());
    let pending = ks.skip(from);
    let rest = entries_encoding(m, pending) + seq![0x65u8] + tail;
    let done = leading_entries(m, ks, from);
    if from == ks.len() {
        assert(rest.skip(1) =~= tail);
        assert(done =~= m) by {
            assert(ks.take(from) =~= ks);
        }
    } else {
        let k = ks[from];
        assert(ks.contains(k));
        assert(m.contains_key(k));
        assert(pending[0] == k);
        assert(pending.drop_first() =~= ks.skip(from + 1));
        let after = entries_encoding(m, ks.skip(from + 1)) + seq![0x65u8] + tail;
        let after_key = encoding(m[k]) + after;
        assert(rest =~= text_encoding(k) + after_key);
        lemma_decode_string_inverts(encode_utf8(k), after_key);
        encode_utf8_valid_utf8(k);
        encode_utf8_decode_utf8(k);
        assert(rest[0] != 0x65);
        lemma_decode_inverts(m[k], depth, after);
        lemma_encoding_lead(m[k]);
        assert(done.insert(k, m[k]) =~= leading_entries(m, ks, from + 1)) by {
            let shorter = ks.take(from);
            let longer = ks.take(from + 1);
            assert(longer =~= shorter.push(k));
            assert forall|q: Seq<char>| longer.contains(q) <==> (q == k || shorter.contains(
                q,
            )) by {
                if longer.contains(q) {
                    let i = choose|i: int| 0 <= i < longer.len() && longer[i] == q;
                    if i < from {
                        assert(shorter[i] == q);
                    }
                }
                if shorter.contains(q) {
                    let i = choose|i: int| 0 <= i < shorter.len() && shorter[i] == q;
                    assert(longer[i] == q);
                }
                if q == k {
                    assert(longer[from] == q);
                }
            }
        }
        lemma_decode_entries_inverts(whole, m, from + 1, depth, tail);
    }
}

/// Decoding the canonical encoding of a value gives the value back and
/// leaves no bytes over.
pub proof fn lemma_decode_encode(v: Value, depth: nat)
    requires
        v.decodable(depth),
    ensures
        decode_value(encoding(v), depth) == decoded(v, Seq::empty()),
{
    lemma_decode_inverts(v, depth, Seq::empty());
    assert(encoding(v) + Seq::<u8>::empty() =~= encoding(v));
}

/// What decodes from the front of an input that a machine can hold is a
/// value that the decoder can return.
pub proof fn lemma_decoded_is_decodable(s: Seq<u8>, depth: nat)
    requires
        s.len() <= usize::MAX,
    ensures
        decode_value(s, depth) matches Ok((v, _)) ==> v.decodable(depth),
    decreases s.len(), 3nat,
{
    if s.len() > 0 {
        if s[0] == 0x69 {
        } else if s[0] == 0x6c {
            if depth > 0 {
                lemma_decoded_items_are_decodable(
                    s,
                    s.skip(1),
                    (depth - 1) as nat,
                    Seq::empty(),
                );
            }
        } else if s[0] == 0x64 {
            if depth > 0 {
                lemma_decoded_entries_are_decodable(
                    s,
                    s.skip(1),
                    (depth - 1) as nat,
                    Map::empty(),
                );
            }
        } else if is_digit(s[0]) {
            lemma_decoded_string_is_decodable(s, depth);
        }
    }
}

/// What decodes as a string is a value that the decoder can return: a text,
/// or bytes that are no well-formed UTF-8, no longer than the input.
pub proof fn lemma_decoded_string_is_decodable(s: Seq<u8>, depth: nat)
    requires
        s.len() <= usize::MAX,
    ensures
        decode_string(s) matches Ok((v, _)) ==> v.decodable(depth) && (v matches Value::Text(k)
            ==> encode_utf8(k).len() <= usize::MAX),
{
    s.index_of_first_ensures(0x3au8);
    if let Ok((v, _)) = decode_string(s) {
        match v {
            Value::Text(t) => {
                let colon = s.index_of_first(0x3au8)->0;
                let start = colon + 1;
                let numeral = s.subrange(0, colon);
                let payload = s.subrange(start, start + crate::bencode::decimal::digits_value(numeral));
                decode_utf8_encode_utf8(payload);
            },
            _ => {},
        }
    }
}

/// The items that decode from the rest of a list are values that the
/// decoder can return.
pub proof fn lemma_decoded_items_are_decodable(
    whole: Seq<u8>,
    rest: Seq<u8>,
    depth: nat,
    done: Seq<Value>,
)
    requires
        rest.len() <= usize::MAX,
        forall|i: int| 0 <= i < done.len() ==> (#[trigger] done[i]).decodable(depth),
    ensures
        decode_items(whole, rest, depth, done) matches Ok((v, _)) ==> v.decodable(depth + 1),
    decreases rest.len(), 4nat,
{
    if rest.len() > 0 && rest[0] != 0x65 {
        lemma_decoded_is_decodable(rest, depth);
        if let Ok((item, after)) = decode_value(rest, depth) {
            if after.len() < rest.len() {
                let more = done.push(item);
                assert forall|i: int| 0 <= i < more.len() implies (#[trigger] more[i]).decodable(
                    depth,
                ) by {
                    if i < done.len() {
                        assert(more[i] == done[i]);
                    }
                }
                lemma_decoded_items_are_decodable(whole, after, depth, more);
            }
        }
    }
}

/// The entries that decode from the rest of a dictionary have keys and
/// values that the decoder can return.
pub proof fn lemma_decoded_entries_are_decodable(
    whole: Seq<u8>,
    rest: Seq<u8>,
    depth: nat,
    done: Map<Seq<char>, Value>,
)
    requires
        rest.len() <= usize::MAX,
        done.dom().finite(),
        forall|k: Seq<char>| #[trigger]
            done.contains_key(k) ==> encode_utf8(k).len() <= usize::MAX && done[k].decodable(
                depth,
            ),
    ensures
        decode_entries(whole, rest, depth, done) matches Ok((v, _)) ==> v.decodable(depth + 1),
    decreases rest.len(), 4nat,
{
    if rest.len() > 0 && rest[0] != 0x65 {
        lemma_decoded_string_is_decodable(rest, depth);
        if let Ok((Value::Text(key), after_key)) = decode_string(rest) {
            if after_key.len() < rest.len() {
                lemma_decoded_is_decodable(after_key, depth);
                if let Ok((value, after)) = decode_value(after_key, depth) {
                    if after.len() < after_key.len() {
                        lemma_decoded_entries_are_decodable(
                            whole,
                            after,
                            depth,
                            done.insert(key, value),
                        );
                    }
                }
            }
        }
    }
}

/// Whatever the decoder returns, encoding it and decoding the encoding
/// gives it back and leaves no bytes over.
pub proof fn lemma_decoded_value_reencodes(s: Seq<u8>, depth: nat)
    requires
        s.len() <= usize::MAX,
    ensures
        decode_value(s, depth) matches Ok((v, _)) ==> decode_value(encoding(v), depth) == decoded(
            v,
            Seq::empty(),
        ),
{
    lemma_decoded_is_decodable(s, depth);
    if let Ok((v, _)) = decode_value(s, depth) {
        lemma_decode_encode(v, depth);
    }
}

} // verus!
