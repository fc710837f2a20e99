//! The value tree of the format, its dictionary type and their mathematical model.
use crate::bencode::errors::{BencodeError, ErrorView};
use crate::bencode::keys::{
    ascending_keys, key_before, lemma_ascending_keys_unique, lemma_bytes_before_irreflexive,
    lemma_key_before_transitive, lists_keys, order_of, strictly_ascending, KeyOrder,
};
use vstd::prelude::*;
use vstd::string::*;
use vstd::utf8::*;

verus! {

/// The mathematical content of a value tree.
///
/// Two dictionaries are equal exactly when they map the same keys to the
/// same values: the order in which entries were inserted is not part of a
/// value.
pub ghost enum Value {
    Integer(int),
    Text(Seq<char>),
    Bytes(Seq<u8>),
    List(Seq<Value>),
    Dict(Map<Seq<char>, Value>),
}

/// A dictionary from text keys to values, with unique keys.
///
/// Entries are kept in ascending order of the keys' raw bytes, so walking
/// the entries by index visits them in the order in which they are encoded.
#[derive(Debug, PartialEq)]
pub struct BencodeDict {
    entries: Vec<(String, BencodeValue)>,
}

/// A value of the format.
#[derive(Debug, PartialEq)]
pub enum BencodeValue {
    Integer(i64),
    String(String),
    Bytes(Vec<u8>),
    List(Vec<BencodeValue>),
    Dictionary(BencodeDict),
}

impl Value {
    /// The name of the value's shape, as error reports give it.
    pub open spec fn shape_name(self) -> Seq<char> {
        match self {
            Value::Integer(_) => "Int"@,
            Value::Text(_) => "String"@,
            Value::Bytes(_) => "Bytes"@,
            Value::List(_) => "List"@,
            Value::Dict(_) => "Dict"@,
        }
    }

    /// The report that a value of this shape was found where `expected`
    /// was asked for.
    pub open spec fn mismatch(self, expected: Seq<char>) -> ErrorView {
        ErrorView::WrongType { expected, found: self.shape_name() }
    }

    /// Whether a decoder that follows `depth` levels of lists and
    /// dictionaries can return this value: its integers fit `i64`, its byte
    /// strings are no longer than `usize::MAX` and hold no well-formed
    /// UTF-8 (such bytes decode to text), its dictionaries are finite, and
    /// nothing is nested deeper than `depth`.
    pub open spec fn decodable(self, depth: nat) -> bool
        decreases self,
    {
        match self {
            Value::Integer(n) => i64::MIN <= n <= i64::MAX,
            Value::Text(s) => encode_utf8(s).len() <= usize::MAX,
            Value::Bytes(b) => b.len() <= usize::MAX && !valid_utf8(b),
            Value::List(l) => depth > 0 && forall|i: int|
                0 <= i < l.len() ==> (#[trigger] l[i]).decodable((depth - 1) as nat),
            Value::Dict(m) => depth > 0 && m.dom().finite() && forall|k: Seq<char>|
                #[trigger] m.contains_key(k) ==> encode_utf8(k).len() <= usize::MAX
                    && m[k].decodable((depth - 1) as nat),
        }
    }
}

impl View for BencodeValue {
    type V = Value;

    open spec fn view(&self) -> Value
        decreases self,
    {
        match self {
            BencodeValue::Integer(i) => Value::Integer(*i as int),
            BencodeValue::String(s) => Value::Text(s@),
            BencodeValue::Bytes(b) => Value::Bytes(b@),
            BencodeValue::List(l) => Value::List(
                Seq::new(
                    l@.len(),
                    |i: int|
                        if 0 <= i < l@.len() {
                            l[i]@
                        } else {
                            Value::Integer(0)
                        },
                ),
            ),
            BencodeValue::Dictionary(d) => Value::Dict(d@),
        }
    }
}

impl View for BencodeDict {
    type V = Map<Seq<char>, Value>;

    closed spec fn view(&self) -> Map<Seq<char>, Value>
        decreases self,
    {
        Map::new(
            |k: Seq<char>| self.key_seq().contains(k),
            |k: Seq<char>|
                {
                    let i = self.key_seq().index_of(k);
                    if 0 <= i < self.entries@.len() {
                        self.entries[i].1@
                    } else {
                        Value::Integer(0)
                    }
                },
        )
    }
}

/// The views of a vector of values, in order.
pub open spec fn list_view(l: Seq<BencodeValue>) -> Seq<Value> {
    Seq::new(l.len(), |i: int| l[i]@)
}

impl BencodeDict {
    /// The keys in storage order.
    closed spec fn key_seq(&self) -> Seq<Seq<char>> {
        Seq::new(self.entries@.len(), |i: int| self.entries@[i].0@)
    }

    #[verifier::type_invariant]
    closed spec fn ordered(&self) -> bool {
        strictly_ascending(self.key_seq())
    }

    /// What the ordering of the entries gives: the stored keys are the
    /// ascending enumeration of the domain, and each entry holds its key's value.
    proof fn lemma_entries(&self)
        requires
            self.ordered(),
        ensures
            self@.dom().finite(),
            self@.dom().len() == self.entries@.len(),
            ascending_keys(self@.dom()) == self.key_seq(),
            forall|i: int|
                0 <= i < self.entries@.len() ==> self@.contains_key(#[trigger] self.key_seq()[i])
                    && self@[self.key_seq()[i]] == self.entries@[i].1@,
    {
        let ks = self.key_seq();
        assert(lists_keys(ks, self@.dom()));
        lemma_ascending_keys_unique(ks, self@.dom());
        assert forall|i: int| 0 <= i < self.entries@.len() implies self@.contains_key(
            #[trigger] ks[i],
        ) && self@[ks[i]] == self.entries@[i].1@ by {
            assert(ks.contains(ks[i]));
            let j = ks.index_of(ks[i]);
            assert(0 <= j < ks.len() && ks[j] == ks[i]);
            if j < i {
                assert(key_before(ks[j], ks[i]));
                lemma_bytes_before_irreflexive(encode_utf8(ks[i]));
            } else if i < j {
                assert(key_before(ks[i], ks[j]));
                lemma_bytes_before_irreflexive(encode_utf8(ks[i]));
            }
        }
    }

    /// An empty dictionary.
    pub fn new() -> (d: BencodeDict)
        ensures
            d@ == Map::<Seq<char>, Value>::empty(),
    {
        let d = BencodeDict { entries: Vec::new() };
        proof {
            assert(d@ =~= Map::<Seq<char>, Value>::empty());
        }
        d
    }

    /// The number of entries.
    pub fn len(&self) -> (n: usize)
        ensures
            self@.dom().finite(),
            n == self@.len(),
    {
        proof {
            use_type_invariant(self);
            self.lemma_entries();
        }
        self.entries.len()
    }

    /// Whether the dictionary has no entries.
    pub fn is_empty(&self) -> (b: bool)
        ensures
            b == (self@ == Map::<Seq<char>, Value>::empty()),
    {
        proof {
            use_type_invariant(self);
            self.lemma_entries();
            if self.entries@.len() == 0 {
                assert(self@ =~= Map::<Seq<char>, Value>::empty());
            }
        }
        self.entries.len() == 0
    }

    /// Finds where `key` stands among the entries: the number of keys that
    /// sort before it, and whether the entry at that index has this key.
    fn locate(&self, key: &str) -> (r: (usize, bool))
        ensures
            r.0 <= self.entries@.len(),
            forall|i: int| 0 <= i < r.0 ==> key_before(#[trigger] self.key_seq()[i], key@),
            r.1 ==> r.0 < self.entries@.len() && self.key_seq()[r.0 as int] == key@,
            !r.1 ==> forall|i: int|
                r.0 <= i < self.entries@.len() ==> key_before(key@, #[trigger] self.key_seq()[i]),
    {
        proof {
            use_type_invariant(self);
        }
        let ghost ks = self.key_seq();
        let wanted = key.as_bytes();
        let mut lo: usize = 0;
        let mut hi: usize = self.entries.len();
        while lo < hi
            invariant
                ks == self.key_seq(),
                strictly_ascending(ks),
                wanted@ == encode_utf8(key@),
                lo <= hi <= self.entries@.len(),
                forall|i: int| 0 <= i < lo ==> key_before(#[trigger] ks[i], key@),
                forall|i: int| hi <= i < ks.len() ==> key_before(key@, #[trigger] ks[i]),
            decreases hi - lo,
        {
            let mid = lo + (hi - lo) / 2;
            let here = self.entries[mid].0.as_str().as_bytes();
            assert(here@ == encode_utf8(ks[mid as int]));
            match order_of(here, wanted) {
                KeyOrder::Before => {
                    proof {
                        assert forall|i: int| 0 <= i < mid + 1 implies key_before(
                            #[trigger] ks[i],
                            key@,
                        ) by {
                            if i < mid {
                                assert(key_before(ks[i], ks[mid as int]));
                                lemma_key_before_transitive(ks[i], ks[mid as int], key@);
                            }
                        }
                    }
                    lo = mid + 1;
                },
                KeyOrder::Same => {
                    proof {
                        encode_utf8_decode_utf8(ks[mid as int]);
                        encode_utf8_decode_utf8(key@);
                        assert forall|i: int| 0 <= i < mid implies key_before(
                            #[trigger] ks[i],
                            key@,
                        ) by {
                            assert(key_before(ks[i], ks[mid as int]));
                        }
                    }
                    return (mid, true);
                },
                KeyOrder::After => {
                    proof {
                        assert forall|i: int| mid <= i < ks.len() implies key_before(
                            key@,
                            #[trigger] ks[i],
                        ) by {
                            if mid < i {
                                assert(key_before(ks[mid as int], ks[i]));
                                lemma_key_before_transitive(key@, ks[mid as int], ks[i]);
                            }
                        }
                    }
                    hi = mid;
                },
            }
        }
        (lo, false)
    }

    /// A key that `locate` did not find is not in the dictionary.
    proof fn lemma_absent(&self, key: Seq<char>, at: int)
        requires
            self.ordered(),
            0 <= at <= self.entries@.len(),
            forall|i: int| 0 <= i < at ==> key_before(#[trigger] self.key_seq()[i], key),
            forall|i: int|
                at <= i < self.entries@.len() ==> key_before(key, #[trigger] self.key_seq()[i]),
        ensures
            !self@.contains_key(key),
    {
        let ks = self.key_seq();
        if ks.contains(key) {
            let i = choose|i: int| 0 <= i < ks.len() && ks[i] == key;
            assert(key_before(ks[i], key) || key_before(key, ks[i]));
            lemma_bytes_before_irreflexive(encode_utf8(key));
        }
    }

    /// Whether `key` has an entry.
    pub fn contains_key(&self, key: &str) -> (b: bool)
        ensures
            b == self@.contains_key(key@),
    {
        let (at, found) = self.locate(key);
        proof {
            use_type_invariant(self);
            if found {
                assert(self.key_seq().contains(self.key_seq()[at as int]));
            } else {
                self.lemma_absent(key@, at as int);
            }
        }
        found
    }

    /// The value stored under `key`, if there is one.
    pub fn get(&self, key: &str) -> (r: Option<&BencodeValue>)
        ensures
            match r {
                Some(v) => self@.contains_key(key@) && v@ == self@[key@],
                None => !self@.contains_key(key@),
            },
    {
        let (at, found) = self.locate(key);
        proof {
            use_type_invariant(self);
            self.lemma_entries();
            if !found {
                self.lemma_absent(key@, at as int);
            }
        }
        if found {
            Some(&self.entries[at].1)
        } else {
            None
        }
    }

    /// The entry at position `i` of the ascending enumeration of the keys.
    pub fn entry_at(&self, i: usize) -> (r: Option<(&str, &BencodeValue)>)
        ensures
            self@.dom().finite(),
            match r {
                Some((k, v)) => {
                    &&& i < self@.len()
                    &&& k@ == ascending_keys(self@.dom())[i as int]
                    &&& self@.contains_key(k@)
                    &&& v@ == self@[k@]
                    &&& decreases_to!(self => v)
                },
                None => i >= self@.len(),
            },
    {
        proof {
            use_type_invariant(self);
            self.lemma_entries();
        }
        if i < self.entries.len() {
            assert(self.key_seq()[i as int] == self.entries@[i as int].0@);
            Some((self.entries[i].0.as_str(), &self.entries[i].1))
        } else {
            None
        }
    }

    /// Stores `value` under `key`. An entry that was already there is
    /// replaced, and its value is handed back.
    pub fn insert(&mut self, key: String, value: BencodeValue) -> (r: Option<BencodeValue>)
        ensures
            final(self)@ == old(self)@.insert(key@, value@),
            match r {
                Some(prev) => old(self)@.contains_key(key@) && prev@ == old(self)@[key@],
                None => !old(self)@.contains_key(key@),
            },
    {
        let (at, found) = self.locate(key.as_str());
        proof {
            use_type_invariant(&*self);
            self.lemma_entries();
            if !found {
                self.lemma_absent(key@, at as int);
            }
        }
        let ghost before = *self;
        let ghost old_keys = self.key_seq();
        let mut entries: Vec<(String, BencodeValue)> = Vec::new();
        core::mem::swap(&mut self.entries, &mut entries);
        let previous = if found {
            let (_, prev) = entries.remove(at);
            Some(prev)
        } else {
            None
        };
        entries.insert(at, (key, value));
        let ghost after = BencodeDict { entries };
        proof {
            let new_keys = after.key_seq();
            if found {
                assert(after.entries@ =~= before.entries@.update(at as int, (key, value)));
                assert(new_keys =~= old_keys);
            } else {
                assert(after.entries@ =~= before.entries@.insert(at as int, (key, value)));
                assert(new_keys =~= old_keys.insert(at as int, key@));
                assert forall|i: int, j: int| 0 <= i < j < new_keys.len() implies key_before(
                    #[trigger] new_keys[i],
                    #[trigger] new_keys[j],
                ) by {
                    if j < at {
                        assert(key_before(old_keys[i], old_keys[j]));
                    } else if j == at {
                        assert(key_before(old_keys[i], key@));
                    } else if i < at {
                        assert(key_before(old_keys[i], old_keys[j - 1]));
                    } else if i == at {
                        assert(key_before(key@, old_keys[j - 1]));
                    } else {
                        assert(key_before(old_keys[i - 1], old_keys[j - 1]));
                    }
                }
            }
            after.lemma_entries();
            let target = before@.insert(key@, value@);
            assert forall|k: Seq<char>| after@.contains_key(k) <==> target.contains_key(k) by {
                if after@.contains_key(k) {
                    let i = choose|i: int| 0 <= i < new_keys.len() && new_keys[i] == k;
                    if found {
                        assert(old_keys.contains(old_keys[i]));
                    } else if i < at {
                        assert(old_keys.contains(old_keys[i]));
                    } else if i > at {
                        assert(old_keys.contains(old_keys[i - 1]));
                    }
                }
                if target.contains_key(k) {
                    if k == key@ {
                        assert(new_keys[at as int] == k);
                    } else {
                        let i = choose|i: int| 0 <= i < old_keys.len() && old_keys[i] == k;
                        if found || i < at {
                            assert(new_keys[i] == k);
                        } else {
                            assert(new_keys[i + 1] == k);
                        }
                    }
                    assert(new_keys.contains(k));
                }
            }
            assert forall|k: Seq<char>| after@.contains_key(k) implies after@[k] == target[k] by {
                let i = choose|i: int| 0 <= i < new_keys.len() && new_keys[i] == k;
                assert(after@[new_keys[i]] == after.entries@[i].1@);
                if i == at {
                } else if found || i < at {
                    assert(before@[old_keys[i]] == before.entries@[i].1@);
                } else {
                    assert(before@[old_keys[i - 1]] == before.entries@[i - 1].1@);
                }
            }
            assert(after@ =~= target);
            if found {
                assert(before@[old_keys[at as int]] == before.entries@[at as int].1@);
            }
        }
        self.entries = entries;
        previous
    }
}

impl BencodeValue {
    /// The name of the value's shape.
    pub fn shape_name(&self) -> (name: &'static str)
        ensures
            name@ == self@.shape_name(),
    {
        match self {
            BencodeValue::Integer(_) => "Int",
            BencodeValue::String(_) => "String",
            BencodeValue::Bytes(_) => "Bytes",
            BencodeValue::List(_) => "List",
            BencodeValue::Dictionary(_) => "Dict",
        }
    }

    /// The report that this value is not of the shape `expected`.
    pub(crate) fn wrong_type(&self, expected: &str) -> (e: BencodeError)
        ensures
            e@ == self@.mismatch(expected@),
    {
        BencodeError::WrongType {
            expected: String::from_str(expected),
            found: String::from_str(self.shape_name()),
        }
    }

    /// The dictionary that this value is.
    pub fn as_dict(&self) -> (r: Result<&BencodeDict, BencodeError>)
        ensures
            match r {
                Ok(d) => *self == BencodeValue::Dictionary(*d),
                Err(e) => !(self is Dictionary) && e@ == self@.mismatch("Dict"@),
            },
    {
        match self {
            BencodeValue::Dictionary(d) => Ok(d),
            _ => Err(self.wrong_type("Dict")),
        }
    }

    /// The integer that this value is.
    pub fn as_int(&self) -> (r: Result<&i64, BencodeError>)
        ensures
            match r {
                Ok(i) => *self == BencodeValue::Integer(*i),
                Err(e) => !(self is Integer) && e@ == self@.mismatch("Integer"@),
            },
    {
        match self {
            BencodeValue::Integer(i) => Ok(i),
            _ => Err(self.wrong_type("Integer")),
        }
    }

    /// The text that this value is.
    pub fn as_string(&self) -> (r: Result<&str, BencodeError>)
        ensures
            match r {
                Ok(s) => self@ == Value::Text(s@),
                Err(e) => !(self is String) && e@ == self@.mismatch("String"@),
            },
    {
        match self {
            BencodeValue::String(s) => Ok(s.as_str()),
            _ => Err(self.wrong_type("String")),
        }
    }

    /// The list that this value is.
    pub fn as_list(&self) -> (r: Result<&Vec<BencodeValue>, BencodeError>)
        ensures
            match r {
                Ok(l) => *self == BencodeValue::List(*l),
                Err(e) => !(self is List) && e@ == self@.mismatch("List"@),
            },
    {
        match self {
            BencodeValue::List(l) => Ok(l),
            _ => Err(self.wrong_type("List")),
        }
    }

    /// The raw bytes that this value is.
    pub fn as_bytes(&self) -> (r: Result<&Vec<u8>, BencodeError>)
        ensures
            match r {
                Ok(b) => *self == BencodeValue::Bytes(*b),
                Err(e) => !(self is Bytes) && e@ == self@.mismatch("Bytes"@),
            },
    {
        match self {
            BencodeValue::Bytes(b) => Ok(b),
            _ => Err(self.wrong_type("Bytes")),
        }
    }

    /// The canonical encoding of this value.
    pub fn encode(&self) -> (out: Vec<u8>)
        ensures
            out@ == crate::bencode::encoder::encoding(self@),
    {
        crate::bencode::encoder::encode(self)
    }
}

impl Clone for BencodeValue {
    /// A copy with the same content.
    fn clone(&self) -> (copy: BencodeValue)
        ensures
            copy@ == self@,
        decreases self,
    {
        match self {
            BencodeValue::Integer(n) => BencodeValue::Integer(*n),
            BencodeValue::String(s) => BencodeValue::String(s.clone()),
            BencodeValue::Bytes(b) => BencodeValue::Bytes(b.clone()),
            BencodeValue::List(l) => {
                let mut items: Vec<BencodeValue> = Vec::new();
                let mut i: usize = 0;
                while i < l.len()
                    invariant
                        self is List,
                        self->List_0 == *l,
                        i <= l@.len(),
                        items@.len() == i,
                        forall|j: int| 0 <= j < i ==> (#[trigger] items@[j])@ == l@[j]@,
                    decreases l@.len() - i,
                {
                    items.push(l[i].clone());
                    i += 1;
                }
                let copy = BencodeValue::List(items);
                proof {
                    assert(copy@->List_0 =~= self@->List_0);
                }
                copy
            },
            BencodeValue::Dictionary(d) => BencodeValue::Dictionary(d.clone()),
        }
    }
}

impl Clone for BencodeDict {
    /// A copy with the same entries.
    fn clone(&self) -> (copy: BencodeDict)
        ensures
            copy@ == self@,
        decreases self,
    {
        proof {
            use_type_invariant(self);
        }
        let mut entries: Vec<(String, BencodeValue)> = Vec::new();
        let mut i: usize = 0;
        while i < self.entries.len()
            invariant
                i <= self.entries@.len(),
                entries@.len() == i,
                forall|j: int|
                    0 <= j < i ==> (#[trigger] entries@[j]).0@ == self.entries@[j].0@
                        && entries@[j].1@ == self.entries@[j].1@,
            decreases self.entries@.len() - i,
        {
            let key = self.entries[i].0.clone();
            let value = self.entries[i].1.clone();
            entries.push((key, value));
            i += 1;
        }
        let ghost copy = BencodeDict { entries };
        proof {
            assert(copy.key_seq() =~= self.key_seq());
            copy.lemma_entries();
            self.lemma_entries();
            assert forall|k: Seq<char>| copy@.contains_key(k) implies copy@[k] == self@[k] by {
                let j = choose|j: int| 0 <= j < copy.key_seq().len() && copy.key_seq()[j] == k;
                assert(copy@[copy.key_seq()[j]] == copy.entries@[j].1@);
                assert(self@[self.key_seq()[j]] == self.entries@[j].1@);
            }
            assert(copy@ =~= self@);
        }
        BencodeDict { entries }
    }
}

} // verus!
