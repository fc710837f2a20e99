//! The decoder: what each form of the grammar decodes to, and the functions
//! that compute it.
use crate::bencode::decimal::{
    digits_value, int_value, is_canonical_int, is_canonical_nat, is_digit, read_decimal, read_int,
};
use crate::bencode::errors::{BencodeError, ErrorView};
use crate::bencode::text::{lossy_text, text_of, with_fragment};
use crate::bencode::value::{list_view, BencodeDict, BencodeValue, Value};
use crate::bytes::find_byte;
use vstd::prelude::*;
use vstd::slice::{slice_subrange, slice_to_vec};
use vstd::string::*;
use vstd::utf8::*;

verus! {

/// How many levels of lists and dictionaries [`BencodeParser::parse_value`]
/// follows before it gives up.
pub const MAX_DEPTH: usize = 256;

/// The value that the payload of a string stands for: text where the bytes
/// are well-formed UTF-8, raw bytes where they are not.
pub open spec fn payload_value(payload: Seq<u8>) -> Value {
    if valid_utf8(payload) {
        Value::Text(decode_utf8(payload))
    } else {
        Value::Bytes(payload)
    }
}

/// Decoding an integer from the front of `s`: `i`, a signed numeral of the
/// grammar within the range of `i64`, `e`. The numeral runs up to the first
/// `e` of the input.
pub open spec fn decode_int(s: Seq<u8>) -> Result<(Value, Seq<u8>), ErrorView> {
    if s.len() == 0 || s[0] != 0x69 {
        Err(ErrorView::InvalidInteger("Input does not start with 'i': "@ + lossy_text(s)))
    } else {
        match s.index_of_first(0x65u8) {
            None => Err(ErrorView::InvalidInteger("Input missing ending 'e'"@)),
            Some(end) => {
                let numeral = s.subrange(1, end);
                if is_canonical_int(numeral) && i64::MIN <= int_value(numeral) <= i64::MAX {
                    Ok((Value::Integer(int_value(numeral)), s.skip(end + 1)))
                } else {
                    Err(
                        ErrorView::InvalidInteger(
                            "Error while parsing "@ + lossy_text(numeral) + " to i64"@,
                        ),
                    )
                }
            },
        }
    }
}

/// Decoding a string from the front of `s`: an unsigned numeral of the
/// grammar up to the first `:`, then exactly that many bytes.
pub open spec fn decode_string(s: Seq<u8>) -> Result<(Value, Seq<u8>), ErrorView> {
    match s.index_of_first(0x3au8) {
        None => Err(ErrorView::InvalidString("Missing ':'"@)),
        Some(colon) => {
            let numeral = s.subrange(0, colon);
            if !is_canonical_nat(numeral) || digits_value(numeral) > usize::MAX {
                Err(
                    ErrorView::InvalidString(
                        "Error while parsing string length: "@ + lossy_text(s),
                    ),
                )
            } else {
                let start = colon + 1;
                let end = start + digits_value(numeral);
                if s.len() < end {
                    Err(ErrorView::InvalidString("String length exceeds input length"@))
                } else {
                    Ok((payload_value(s.subrange(start, end)), s.skip(end)))
                }
            }
        },
    }
}

/// Decoding one value from the front of `s`, following at most `depth`
/// levels of lists and dictionaries. The first byte tells the form.
pub open spec fn decode_value(s: Seq<u8>, depth: nat) -> Result<(Value, Seq<u8>), ErrorView>
    decreases s.len(), 3nat,
{
    if s.len() == 0 {
        Err(ErrorView::UnexpectedEof)
    } else if s[0] == 0x69 {
        decode_int(s)
    } else if s[0] == 0x6c {
        if depth == 0 {
            Err(ErrorView::DepthLimitExceeded)
        } else {
            decode_list(s, (depth - 1) as nat)
        }
    } else if s[0] == 0x64 {
        if depth == 0 {
            Err(ErrorView::DepthLimitExceeded)
        } else {
            decode_dict(s, (depth - 1) as nat)
        }
    } else if is_digit(s[0]) {
        decode_string(s)
    } else {
        Err(
            ErrorView::WrongType {
                expected: "String/List/Integer/Dictionary"@,
                found: "Unknown: "@ + lossy_text(s),
            },
        )
    }
}

/// Decoding a list from the front of `s`: `l`, values up to the closing
/// `e`. The items may hold `depth` further levels.
pub open spec fn decode_list(s: Seq<u8>, depth: nat) -> Result<(Value, Seq<u8>), ErrorView>
    decreases s.len(), 2nat,
{
    if s.len() == 0 || s[0] != 0x6c {
        Err(ErrorView::InvalidList("Input does not start with 'l': "@ + lossy_text(s)))
    } else {
        decode_items(s, s.skip(1), depth, Seq::empty())
    }
}

/// Decoding the rest of the list `whole`, where `done` holds the items read
/// so far and `rest` is what follows them.
///
/// The test that an item left less than it was given makes the definition
/// well-founded; by [`lemma_decode_value_consumes`] it never fails.
pub open spec fn decode_items(whole: Seq<u8>, rest: Seq<u8>, depth: nat, done: Seq<Value>) -> Result<
    (Value, Seq<u8>),
    ErrorView,
>
    decreases rest.len(), 4nat,
{
    if rest.len() == 0 {
        Err(ErrorView::InvalidList("Missing ending 'e' for input: "@ + lossy_text(whole)))
    } else if rest[0] == 0x65 {
        Ok((Value::List(done), rest.skip(1)))
    } else {
        match decode_value(rest, depth) {
            Err(e) => Err(e),
            Ok((item, after)) => {
                if after.len() < rest.len() {
                    decode_items(whole, after, depth, done.push(item))
                } else {
                    Err(ErrorView::UnexpectedEof)
                }
            },
        }
    }
}

/// Decoding a dictionary from the front of `s`: `d`, pairs of a text key
/// and a value up to the closing `e`. Where a key comes twice, the later
/// entry stands. The values may hold `depth` further levels.
pub open spec fn decode_dict(s: Seq<u8>, depth: nat) -> Result<(Value, Seq<u8>), ErrorView>
    decreases s.len(), 2nat,
{
    if s.len() == 0 || s[0] != 0x64 {
        Err(ErrorView::InvalidDict("Input does not start with 'd': "@ + lossy_text(s)))
    } else {
        decode_entries(s, s.skip(1), depth, Map::empty())
    }
}

/// Decoding the rest of the dictionary `whole`, where `done` holds the
/// entries read so far and `rest` is what follows them.
///
/// The tests that a key and a value left less than they were given make
/// the definition well-founded; by [`lemma_decode_scalar_consumes`] and
/// [`lemma_decode_value_consumes`] they never fail.
pub open spec fn decode_entries(
    whole: Seq<u8>,
    rest: Seq<u8>,
    depth: nat,
    done: Map<Seq<char>, Value>,
) -> Result<(Value, Seq<u8>), ErrorView>
    decreases rest.len(), 4nat,
{
    if rest.len() == 0 {
        Err(
            ErrorView::InvalidDict(
                "Missing ending 'e' for the dictionary: "@ + lossy_text(whole),
            ),
        )
    } else if rest[0] == 0x65 {
        Ok((Value::Dict(done), rest.skip(1)))
    } else {
        match decode_string(rest) {
            Err(e) => Err(e),
            Ok((Value::Text(key), after_key)) => {
                if after_key.len() < rest.len() {
                    match decode_value(after_key, depth) {
                        Err(e) => Err(e),
                        Ok((value, after)) => {
                            if after.len() < after_key.len() {
                                decode_entries(whole, after, depth, done.insert(key, value))
                            } else {
                                Err(ErrorView::UnexpectedEof)
                            }
                        },
                    }
                } else {
                    Err(ErrorView::UnexpectedEof)
                }
            },
            Ok(_) => Err(ErrorView::InvalidString("Dictionary key must be String type"@)),
        }
    }
}

/// The successful outcome of decoding: the value, and the bytes after it.
pub open spec fn decoded(value: Value, rest: Seq<u8>) -> Result<(Value, Seq<u8>), ErrorView> {
    Ok((value, rest))
}

/// The content of what a decoding function returns.
pub open spec fn decoded_view(r: Result<(BencodeValue, &[u8]), BencodeError>) -> Result<
    (Value, Seq<u8>),
    ErrorView,
> {
    match r {
        Ok((value, rest)) => Ok((value@, rest@)),
        Err(e) => Err(e@),
    }
}

/// `rest` is what is left of `input` after a non-empty prefix was taken off.
pub open spec fn is_remainder(rest: Seq<u8>, input: Seq<u8>) -> bool {
    &&& rest.len() < input.len()
    &&& rest == input.skip(input.len() - rest.len())
}

/// A remainder of a remainder is a remainder.
pub proof fn lemma_remainder_transitive(a: Seq<u8>, b: Seq<u8>, c: Seq<u8>)
    requires
        is_remainder(a, b),
        b.len() <= c.len(),
        b == c.skip(c.len() - b.len()),
    ensures
        is_remainder(a, c),
{
    assert(a =~= c.skip(c.len() - a.len()));
}

/// Decoding an integer or a string takes a non-empty prefix off the input.
pub proof fn lemma_decode_scalar_consumes(s: Seq<u8>)
    ensures
        decode_int(s) matches Ok((_, rest)) ==> is_remainder(rest, s),
        decode_string(s) matches Ok((_, rest)) ==> is_remainder(rest, s),
{
    s.index_of_first_ensures(0x65u8);
    s.index_of_first_ensures(0x3au8);
    if let Ok((_, rest)) = decode_int(s) {
        assert(rest =~= s.skip(s.len() - rest.len()));
    }
    if let Ok((_, rest)) = decode_string(s) {
        assert(rest =~= s.skip(s.len() - rest.len()));
    }
}

/// Decoding a value takes a non-empty prefix off the input: what is left
/// is a proper tail of it. So the decoder always moves on, and the items of
/// a list or dictionary are decoded one after the other.
pub proof fn lemma_decode_value_consumes(s: Seq<u8>, depth: nat)
    ensures
        decode_value(s, depth) matches Ok((_, rest)) ==> is_remainder(rest, s),
    decreases s.len(), 3nat,
{
    lemma_decode_scalar_consumes(s);
    if s.len() > 0 && depth > 0 {
        if s[0] == 0x6c {
            lemma_decode_items_consume(s, s.skip(1), (depth - 1) as nat, Seq::empty());
            if let Ok((_, rest)) = decode_list(s, (depth - 1) as nat) {
                lemma_remainder_transitive(rest, s.skip(1), s);
            }
        } else if s[0] == 0x64 {
            lemma_decode_entries_consume(s, s.skip(1), (depth - 1) as nat, Map::empty());
            if let Ok((_, rest)) = decode_dict(s, (depth - 1) as nat) {
                lemma_remainder_transitive(rest, s.skip(1), s);
            }
        }
    }
}

/// Decoding the rest of a list takes a non-empty prefix off what is left.
pub proof fn lemma_decode_items_consume(
    whole: Seq<u8>,
    rest: Seq<u8>,
    depth: nat,
    done: Seq<Value>,
)
    ensures
        decode_items(whole, rest, depth, done) matches Ok((_, after)) ==> is_remainder(after, rest),
    decreases rest.len(), 4nat,
{
    if rest.len() > 0 {
        if rest[0] == 0x65 {
            assert(rest.skip(1) =~= rest.skip(rest.len() - rest.skip(1).len()));
        } else {
            lemma_decode_value_consumes(rest, depth);
            if let Ok((item, after)) = decode_value(rest, depth) {
                lemma_decode_items_consume(whole, after, depth, done.push(item));
                if let Ok((_, end)) = decode_items(whole, after, depth, done.push(item)) {
                    lemma_remainder_transitive(end, after, rest);
                }
            }
        }
    }
}

/// Decoding the rest of a dictionary takes a non-empty prefix off what is left.
pub proof fn lemma_decode_entries_consume(
    whole: Seq<u8>,
    rest: Seq<u8>,
    depth: nat,
    done: Map<Seq<char>, Value>,
)
    ensures
        decode_entries(whole, rest, depth, done) matches Ok((_, after)) ==> is_remainder(
            after,
            rest,
        ),
    decreases rest.len(), 4nat,
{
    if rest.len() > 0 {
        if rest[0] == 0x65 {
            assert(rest.skip(1) =~= rest.skip(rest.len() - rest.skip(1).len()));
        } else {
            lemma_decode_scalar_consumes(rest);
            if let Ok((Value::Text(key), after_key)) = decode_string(rest) {
                lemma_decode_value_consumes(after_key, depth);
                if let Ok((value, after)) = decode_value(after_key, depth) {
                    lemma_decode_entries_consume(whole, after, depth, done.insert(key, value));
                    if let Ok((_, end)) = decode_entries(
                        whole,
                        after,
                        depth,
                        done.insert(key, value),
                    ) {
                        lemma_remainder_transitive(end, after, after_key);
                        lemma_remainder_transitive(end, after_key, rest);
                    }
                }
            }
        }
    }
}

/// The decoder. Every function takes the bytes to decode and returns the
/// decoded value together with the bytes that follow it.
pub struct BencodeParser;

impl BencodeParser {
    /// Decodes an integer from the front of `input`.
    pub fn parse_int(input: &[u8]) -> (r: Result<(BencodeValue, &[u8]), BencodeError>)
        ensures
            decoded_view(r) == decode_int(input@),
            r matches Ok((_, rest)) ==> is_remainder(rest@, input@),
    {
        if input.len() == 0 || input[0] != 0x69 {
            return Err(
                BencodeError::InvalidInteger(
                    with_fragment("Input does not start with 'i': ", input),
                ),
            );
        }
        let end = match find_byte(input, 0x65) {
            Some(end) => end,
            None => {
                return Err(
                    BencodeError::InvalidInteger(String::from_str("Input missing ending 'e'")),
                );
            },
        };
        let numeral = slice_subrange(input, 1, end);
        match read_int(numeral) {
            Some(n) => {
                let rest = slice_subrange(input, end + 1, input.len());
                proof {
                    assert(rest@ =~= input@.skip(end + 1));
                }
                Ok((BencodeValue::Integer(n), rest))
            },
            None => {
                let mut message = with_fragment("Error while parsing ", numeral);
                message.append(" to i64");
                Err(BencodeError::InvalidInteger(message))
            },
        }
    }

    /// Decodes a string from the front of `input`.
    pub fn parse_string(input: &[u8]) -> (r: Result<(BencodeValue, &[u8]), BencodeError>)
        ensures
            decoded_view(r) == decode_string(input@),
            r matches Ok((_, rest)) ==> is_remainder(rest@, input@),
    {
        let colon = match find_byte(input, 0x3a) {
            Some(colon) => colon,
            None => {
                return Err(BencodeError::InvalidString(String::from_str("Missing ':'")));
            },
        };
        let numeral = slice_subrange(input, 0, colon);
        let length = match read_decimal(numeral) {
            Some(n) if n <= usize::MAX as u64 => n as usize,
            _ => {
                return Err(
                    BencodeError::InvalidString(
                        with_fragment("Error while parsing string length: ", input),
                    ),
                );
            },
        };
        let total = input.len();
        let start = colon + 1;
        if total - start < length {
            return Err(
                BencodeError::InvalidString(String::from_str("String length exceeds input length")),
            );
        }
        let end = start + length;
        let payload = slice_subrange(input, start, end);
        let rest = slice_subrange(input, end, total);
        proof {
            assert(rest@ =~= input@.skip(end as int));
        }
        let value = match text_of(payload) {
            Some(text) => {
                proof {
                    encode_utf8_decode_utf8(text@);
                }
                BencodeValue::String(String::from_str(text))
            },
            None => BencodeValue::Bytes(slice_to_vec(payload)),
        };
        Ok((value, rest))
    }

    /// Decodes one value from the front of `input`, following at most
    /// [`MAX_DEPTH`] levels of lists and dictionaries.
    pub fn parse_value(input: &[u8]) -> (r: Result<(BencodeValue, &[u8]), BencodeError>)
        ensures
            decoded_view(r) == decode_value(input@, MAX_DEPTH as nat),
            r matches Ok((_, rest)) ==> is_remainder(rest@, input@),
    {
        Self::parse_value_bounded(input, MAX_DEPTH)
    }

    /// Decodes one value from the front of `input`, following at most
    /// `max_depth` levels of lists and dictionaries.
    pub fn parse_value_bounded(input: &[u8], max_depth: usize) -> (r: Result<
        (BencodeValue, &[u8]),
        BencodeError,
    >)
        ensures
            decoded_view(r) == decode_value(input@, max_depth as nat),
            r matches Ok((_, rest)) ==> is_remainder(rest@, input@),
        decreases input@.len(), 1nat,
    {
        if input.len() == 0 {
            return Err(BencodeError::UnexpectedEof);
        }
        let lead = input[0];
        if lead == 0x69 {
            Self::parse_int(input)
        } else if lead == 0x6c {
            if max_depth == 0 {
                Err(BencodeError::DepthLimitExceeded)
            } else {
                Self::parse_list_bounded(input, max_depth - 1)
            }
        } else if lead == 0x64 {
            if max_depth == 0 {
                Err(BencodeError::DepthLimitExceeded)
            } else {
                Self::parse_dict_bounded(input, max_depth - 1)
            }
        } else if 0x30 <= lead && lead <= 0x39 {
            Self::parse_string(input)
        } else {
            Err(
                BencodeError::WrongType {
                    expected: String::from_str("String/List/Integer/Dictionary"),
                    found: with_fragment("Unknown: ", input),
                },
            )
        }
    }

    /// Decodes a list from the front of `input`. Its items may hold
    /// `MAX_DEPTH - 1` further levels.
    pub fn parse_list(input: &[u8]) -> (r: Result<(BencodeValue, &[u8]), BencodeError>)
        ensures
            decoded_view(r) == decode_list(input@, (MAX_DEPTH - 1) as nat),
            r matches Ok((_, rest)) ==> is_remainder(rest@, input@),
    {
        Self::parse_list_bounded(input, MAX_DEPTH - 1)
    }

    /// Decodes a dictionary from the front of `input`. Its values may hold
    /// `MAX_DEPTH - 1` further levels.
    pub fn parse_dict(input: &[u8]) -> (r: Result<(BencodeValue, &[u8]), BencodeError>)
        ensures
            decoded_view(r) == decode_dict(input@, (MAX_DEPTH - 1) as nat),
            r matches Ok((_, rest)) ==> is_remainder(rest@, input@),
    {
        Self::parse_dict_bounded(input, MAX_DEPTH - 1)
    }

    /// Decodes a list whose items may hold `depth` further levels.
    pub fn parse_list_bounded(input: &[u8], depth: usize) -> (r: Result<
        (BencodeValue, &[u8]),
        BencodeError,
    >)
        ensures
            decoded_view(r) == decode_list(input@, depth as nat),
            r matches Ok((_, rest)) ==> is_remainder(rest@, input@),
        decreases input@.len(), 0nat,
    {
        if input.len() == 0 || input[0] != 0x6c {
            return Err(
                BencodeError::InvalidList(with_fragment("Input does not start with 'l': ", input)),
            );
        }
        let mut values: Vec<BencodeValue> = Vec::new();
        let mut rest = slice_subrange(input, 1, input.len());
        proof {
            assert(rest@ =~= input@.skip(1));
            assert(list_view(values@) =~= Seq::<Value>::empty());
        }
        while rest.len() > 0 && rest[0] != 0x65
            invariant
                is_remainder(rest@, input@),
                decode_list(input@, depth as nat) == decode_items(
                    input@,
                    rest@,
                    depth as nat,
                    list_view(values@),
                ),
            decreases rest@.len(),
        {
            match Self::parse_value_bounded(rest, depth) {
                Err(e) => {
                    return Err(e);
                },
                Ok((item, remaining)) => {
                    proof {
                        assert(list_view(values@.push(item)) =~= list_view(values@).push(item@));
                        assert(remaining@ =~= input@.skip(input@.len() - remaining@.len()));
                    }
                    values.push(item);
                    rest = remaining;
                },
            }
        }
        if rest.len() == 0 {
            return Err(
                BencodeError::InvalidList(with_fragment("Missing ending 'e' for input: ", input)),
            );
        }
        let after = slice_subrange(rest, 1, rest.len());
        let list = BencodeValue::List(values);
        proof {
            assert(after@ =~= rest@.skip(1));
            assert(after@ =~= input@.skip(input@.len() - after@.len()));
            assert(list@->List_0 =~= list_view(values@));
        }
        Ok((list, after))
    }

    /// Decodes a dictionary whose values may hold `depth` further levels.
    pub fn parse_dict_bounded(input: &[u8], depth: usize) -> (r: Result<
        (BencodeValue, &[u8]),
        BencodeError,
    >)
        ensures
            decoded_view(r) == decode_dict(input@, depth as nat),
            r matches Ok((_, rest)) ==> is_remainder(rest@, input@),
        decreases input@.len(), 0nat,
    {
        if input.len() == 0 || input[0] != 0x64 {
            return Err(
                BencodeError::InvalidDict(with_fragment("Input does not start with 'd': ", input)),
            );
        }
        let mut dict = BencodeDict::new();
        let mut rest = slice_subrange(input, 1, input.len());
        proof {
            assert(rest@ =~= input@.skip(1));
        }
        while rest.len() > 0 && rest[0] != 0x65
            invariant
                is_remainder(rest@, input@),
                decode_dict(input@, depth as nat) == decode_entries(
                    input@,
                    rest@,
                    depth as nat,
                    dict@,
                ),
            decreases rest@.len(),
        {
            let (key, after_key) = match Self::parse_string(rest) {
                Err(e) => {
                    return Err(e);
                },
                Ok((BencodeValue::String(key), after_key)) => (key, after_key),
                Ok(_) => {
                    return Err(
                        BencodeError::InvalidString(
                            String::from_str("Dictionary key must be String type"),
                        ),
                    );
                },
            };
            match Self::parse_value_bounded(after_key, depth) {
                Err(e) => {
                    return Err(e);
                },
                Ok((value, remaining)) => {
                    proof {
                        assert(remaining@ =~= input@.skip(input@.len() - remaining@.len()));
                    }
                    dict.insert(key, value);
                    rest = remaining;
                },
            }
        }
        if rest.len() == 0 {
            return Err(
                BencodeError::InvalidDict(
                    with_fragment("Missing ending 'e' for the dictionary: ", input),
                ),
            );
        }
        let after = slice_subrange(rest, 1, rest.len());
        proof {
            assert(after@ =~= rest@.skip(1));
            assert(after@ =~= input@.skip(input@.len() - after@.len()));
        }
        Ok((BencodeValue::Dictionary(dict), after))
    }
}

} // verus!
