//! Values written out for a reader.
use crate::bencode::keys::{ascending_keys, lemma_ascending_keys};
use crate::bencode::value::{list_view, BencodeDict, BencodeValue, Value};
use crate::digits::{append_decimal, append_int, decimal_text, int_text};
use vstd::prelude::*;
use vstd::string::*;

verus! {

/// A value as a reader sees it: an integer in decimal, a text between
/// quotes, raw bytes as their number, a list in square brackets and a
/// dictionary in braces, its entries in ascending order of the keys.
pub open spec fn rendering(v: Value) -> Seq<char>
    decreases v, 0nat,
{
    match v {
        Value::Integer(n) => int_text(n),
        Value::Text(s) => " \" "@ + s + " \" "@,
        Value::Bytes(b) => decimal_text(b.len()),
        Value::List(l) => "["@ + items_rendering(l) + "]"@,
        Value::Dict(m) => "{"@ + entries_rendering(m, ascending_keys(m.dom())) + "}"@,
    }
}

/// The items of a list, with `, ` between them.
pub open spec fn items_rendering(l: Seq<Value>) -> Seq<char>
    decreases l, l.len(),
{
    if l.len() == 0 {
        Seq::empty()
    } else if l.len() == 1 {
        rendering(l.last())
    } else {
        items_rendering(l.drop_last()) + ", "@ + rendering(l.last())
    }
}

/// One entry of a dictionary: the key between quotes, `: `, the value.
pub open spec fn entry_rendering(k: Seq<char>, v: Seq<char>) -> Seq<char> {
    "\""@ + k + "\": "@ + v
}

/// The entries of `m` under the keys `ks`, in the order of `ks`, with `, `
/// between them.
pub open spec fn entries_rendering(m: Map<Seq<char>, Value>, ks: Seq<Seq<char>>) -> Seq<char>
    decreases m, ks.len(),
    when m.dom().finite()
{
    if ks.len() == 0 {
        Seq::empty()
    } else if !m.contains_key(ks.last()) {
        entries_rendering(m, ks.drop_last())
    } else if ks.len() == 1 {
        entry_rendering(ks.last(), rendering(m[ks.last()]))
    } else {
        entries_rendering(m, ks.drop_last()) + ", "@ + entry_rendering(
            ks.last(),
            rendering(m[ks.last()]),
        )
    }
}

/// Writes a value out for a reader.
pub fn render(value: &BencodeValue) -> (text: String)
    ensures
        text@ == rendering(value@),
    decreases value,
{
    match value {
        BencodeValue::Integer(n) => {
            let mut text = String::new();
            append_int(&mut text, *n);
            text
        },
        BencodeValue::String(s) => {
            let mut text = String::from_str(" \" ");
            text.append(s.as_str());
            text.append(" \" ");
            text
        },
        BencodeValue::Bytes(b) => {
            let mut text = String::new();
            append_decimal(&mut text, b.len() as u64);
            text
        },
        BencodeValue::List(l) => {
            proof {
                assert(value@->List_0 =~= list_view(l@));
            }
            render_list(l.as_slice())
        },
        BencodeValue::Dictionary(d) => render_dict(d),
    }
}

/// Writes a list out: its items between square brackets.
pub fn render_list(l: &[BencodeValue]) -> (text: String)
    ensures
        text@ == rendering(Value::List(list_view(l@))),
    decreases l@,
{
    let ghost items = list_view(l@);
    let mut text = String::from_str("[");
    let mut i: usize = 0;
    proof {
        assert(items.take(0) =~= Seq::<Value>::empty());
    }
    while i < l.len()
        invariant
            i <= l@.len(),
            items == list_view(l@),
            text@ == "["@ + items_rendering(items.take(i as int)),
        decreases l@.len() - i,
    {
        let piece = render(&l[i]);
        proof {
            assert(items.take(i + 1).drop_last() =~= items.take(i as int));
            assert(items.take(i + 1).last() == items[i as int]);
        }
        if i > 0 {
            text.append(", ");
        }
        text.append(piece.as_str());
        proof {
            assert(text@ =~= "["@ + items_rendering(items.take(i + 1)));
        }
        i += 1;
    }
    text.append("]");
    proof {
        assert(items.take(i as int) =~= items);
    }
    text
}

/// Writes a dictionary out: its entries between braces, in ascending
/// order of the keys.
pub fn render_dict(dict: &BencodeDict) -> (text: String)
    ensures
        text@ == rendering(Value::Dict(dict@)),
    decreases dict,
{
    let n = dict.len();
    let ghost m = dict@;
    let ghost ks = ascending_keys(m.dom());
    proof {
        lemma_ascending_keys(m.dom());
        assert(ks.take(0) =~= Seq::<Seq<char>>::empty());
    }
    let mut text = String::from_str("{");
    let mut i: usize = 0;
    while i < n
        invariant
            i <= n,
            n == ks.len(),
            n == m.len(),
            m == dict@,
            m.dom().finite(),
            ks == ascending_keys(m.dom()),
            text@ == "{"@ + entries_rendering(m, ks.take(i as int)),
        decreases n - i,
    {
        match dict.entry_at(i) {
            Some((key, value)) => {
                let piece = render(value);
                proof {
                    assert(ks.take(i + 1).drop_last() =~= ks.take(i as int));
                    assert(ks.take(i + 1).last() == ks[i as int]);
                }
                if i > 0 {
                    text.append(", ");
                }
                text.append("\"");
                text.append(key);
                text.append("\": ");
                text.append(piece.as_str());
                proof {
                    assert(text@ =~= "{"@ + entries_rendering(m, ks.take(i + 1)));
                }
            },
            None => {},
        }
        i += 1;
    }
    text.append("}");
    proof {
        assert(ks.take(i as int) =~= ks);
    }
    text
}

impl BencodeValue {
    /// This value written out for a reader.
    pub fn to_text(&self) -> (text: String)
        ensures
            text@ == rendering(self@),
    {
        render(self)
    }
}

} // verus!
