//! Raw-byte ordering of dictionary keys.
//!
//! Dictionaries are written with their keys in ascending order of the keys'
//! UTF-8 bytes. This module defines that order, proves it a strict total
//! order, and defines the ascending enumeration of a finite key set.
use vstd::prelude::*;
use vstd::utf8::*;

verus! {

/// Lexicographic order on byte strings: `a` comes strictly before `b`.
pub open spec fn bytes_before(a: Seq<u8>, b: Seq<u8>) -> bool
    decreases a.len(),
{
    if b.len() == 0 {
        false
    } else if a.len() == 0 {
        true
    } else if a[0] != b[0] {
        a[0] < b[0]
    } else {
        bytes_before(a.drop_first(), b.drop_first())
    }
}

/// Key `a` sorts strictly before key `b`: the order of their UTF-8 bytes.
pub open spec fn key_before(a: Seq<char>, b: Seq<char>) -> bool {
    bytes_before(encode_utf8(a), encode_utf8(b))
}

/// The outcome of comparing two byte strings.
#[derive(Debug, Clone, Copy, PartialEq, Eq)]
pub enum KeyOrder {
    Before,
    Same,
    After,
}

pub proof fn lemma_bytes_before_irreflexive(a: Seq<u8>)
    ensures
        !bytes_before(a, a),
    decreases a.len(),
{
    if a.len() > 0 {
        lemma_bytes_before_irreflexive(a.drop_first());
    }
}

pub proof fn lemma_bytes_before_asymmetric(a: Seq<u8>, b: Seq<u8>)
    requires
        bytes_before(a, b),
    ensures
        !bytes_before(b, a),
    decreases a.len(),
{
    if a.len() > 0 && b.len() > 0 && a[0] == b[0] {
        lemma_bytes_before_asymmetric(a.drop_first(), b.drop_first());
    }
}

pub proof fn lemma_bytes_before_transitive(a: Seq<u8>, b: Seq<u8>, c: Seq<u8>)
    requires
        bytes_before(a, b),
        bytes_before(b, c),
    ensures
        bytes_before(a, c),
    decreases a.len(),
{
    if a.len() > 0 && b.len() > 0 && c.len() > 0 && a[0] == b[0] && b[0] == c[0] {
        lemma_bytes_before_transitive(a.drop_first(), b.drop_first(), c.drop_first());
    }
}

pub proof fn lemma_bytes_before_total(a: Seq<u8>, b: Seq<u8>)
    requires
        a != b,
    ensures
        bytes_before(a, b) || bytes_before(b, a),
    decreases a.len(),
{
    if a.len() > 0 && b.len() > 0 && a[0] == b[0] {
        let x = a.drop_first();
        let y = b.drop_first();
        if x == y {
            assert(a =~= seq![a[0]] + x);
            assert(b =~= seq![b[0]] + y);
        }
        lemma_bytes_before_total(x, y);
    } else if a.len() == 0 && b.len() == 0 {
        assert(a =~= b);
    }
}

/// Distinct keys have distinct UTF-8 bytes, so one of them sorts first.
pub proof fn lemma_key_before_total(a: Seq<char>, b: Seq<char>)
    requires
        a != b,
    ensures
        key_before(a, b) || key_before(b, a),
{
    encode_utf8_decode_utf8(a);
    encode_utf8_decode_utf8(b);
    lemma_bytes_before_total(encode_utf8(a), encode_utf8(b));
}

/// Compares two byte strings in lexicographic order.
pub fn order_of(a: &[u8], b: &[u8]) -> (r: KeyOrder)
    ensures
        r == KeyOrder::Before <==> bytes_before(a@, b@),
        r == KeyOrder::Same <==> a@ == b@,
        r == KeyOrder::After <==> bytes_before(b@, a@),
{
    let mut i: usize = 0;
    proof {
        assert(a@.skip(0) =~= a@);
        assert(b@.skip(0) =~= b@);
        assert(a@.take(0) =~= b@.take(0));
    }
    while i < a.len() && i < b.len() && a[i] == b[i]
        invariant
            i <= a@.len(),
            i <= b@.len(),
            a@.take(i as int) == b@.take(i as int),
            bytes_before(a@, b@) == bytes_before(a@.skip(i as int), b@.skip(i as int)),
            bytes_before(b@, a@) == bytes_before(b@.skip(i as int), a@.skip(i as int)),
        decreases a@.len() - i,
    {
        proof {
            let x = a@.skip(i as int);
            let y = b@.skip(i as int);
            assert(x.drop_first() =~= a@.skip(i + 1));
            assert(y.drop_first() =~= b@.skip(i + 1));
            assert(a@.take(i + 1) =~= a@.take(i as int).push(a@[i as int]));
            assert(b@.take(i + 1) =~= b@.take(i as int).push(b@[i as int]));
        }
        i += 1;
    }
    proof {
        let x = a@.skip(i as int);
        let y = b@.skip(i as int);
        if i == a@.len() && i == b@.len() {
            assert(a@ =~= a@.take(i as int));
            assert(b@ =~= b@.take(i as int));
            lemma_bytes_before_irreflexive(a@);
        } else if i == a@.len() {
            assert(a@.len() != b@.len());
        } else if i == b@.len() {
            assert(a@.len() != b@.len());
        } else {
            assert(a@[i as int] != b@[i as int]);
        }
    }
    if i == a.len() {
        if i == b.len() {
            KeyOrder::Same
        } else {
            KeyOrder::Before
        }
    } else if i == b.len() {
        KeyOrder::After
    } else if a[i] < b[i] {
        KeyOrder::Before
    } else {
        KeyOrder::After
    }
}

/// `k` is a member of `keys` that sorts before every other member.
pub open spec fn is_least_key(keys: Set<Seq<char>>, k: Seq<char>) -> bool {
    &&& keys.contains(k)
    &&& forall|j: Seq<char>| keys.contains(j) && j != k ==> key_before(k, j)
}

/// The member of a non-empty finite key set that sorts first.
pub open spec fn least_key(keys: Set<Seq<char>>) -> Seq<char> {
    choose|k: Seq<char>| is_least_key(keys, k)
}

/// The members of a finite key set, each once, in ascending order.
pub open spec fn ascending_keys(keys: Set<Seq<char>>) -> Seq<Seq<char>>
    decreases keys.len(),
    when keys.finite()
{
    if keys.is_empty() {
        Seq::empty()
    } else {
        let k = least_key(keys);
        if keys.contains(k) {
            seq![k] + ascending_keys(keys.remove(k))
        } else {
            Seq::empty()
        }
    }
}

/// Every element of `s` sorts strictly before the elements after it.
pub open spec fn strictly_ascending(s: Seq<Seq<char>>) -> bool {
    forall|i: int, j: int| 0 <= i < j < s.len() ==> key_before(#[trigger] s[i], #[trigger] s[j])
}

/// `s` lists exactly the members of `keys`.
pub open spec fn lists_keys(s: Seq<Seq<char>>, keys: Set<Seq<char>>) -> bool {
    forall|k: Seq<char>| s.contains(k) <==> keys.contains(k)
}

pub proof fn lemma_key_before_transitive(a: Seq<char>, b: Seq<char>, c: Seq<char>)
    requires
        key_before(a, b),
        key_before(b, c),
    ensures
        key_before(a, c),
{
    lemma_bytes_before_transitive(encode_utf8(a), encode_utf8(b), encode_utf8(c));
}

/// A non-empty finite key set has a least member.
pub proof fn lemma_least_key_exists(keys: Set<Seq<char>>)
    requires
        keys.finite(),
        !keys.is_empty(),
    ensures
        is_least_key(keys, least_key(keys)),
    decreases keys.len(),
{
    let x = keys.choose();
    let rest = keys.remove(x);
    if rest.is_empty() {
        assert forall|j: Seq<char>| keys.contains(j) && j != x implies key_before(x, j) by {
            assert(rest.contains(j));
        }
        assert(is_least_key(keys, x));
    } else {
        lemma_least_key_exists(rest);
        let l = least_key(rest);
        if key_before(x, l) {
            assert forall|j: Seq<char>| keys.contains(j) && j != x implies key_before(x, j) by {
                assert(rest.contains(j));
                if j != l {
                    lemma_key_before_transitive(x, l, j);
                }
            }
            assert(is_least_key(keys, x));
        } else {
            lemma_key_before_total(x, l);
            assert forall|j: Seq<char>| keys.contains(j) && j != l implies key_before(l, j) by {
                if j != x {
                    assert(rest.contains(j));
                }
            }
            assert(is_least_key(keys, l));
        }
    }
}

/// The ascending enumeration lists every member once, in strictly ascending order.
pub proof fn lemma_ascending_keys(keys: Set<Seq<char>>)
    requires
        keys.finite(),
    ensures
        strictly_ascending(ascending_keys(keys)),
        lists_keys(ascending_keys(keys), keys),
        ascending_keys(keys).len() == keys.len(),
    decreases keys.len(),
{
    if keys.is_empty() {
        assert forall|k: Seq<char>| !keys.contains(k) by {
            assert(keys =~= Set::empty());
        }
    } else {
        lemma_least_key_exists(keys);
        let k = least_key(keys);
        let rest = keys.remove(k);
        lemma_ascending_keys(rest);
        let tail = ascending_keys(rest);
        let all = ascending_keys(keys);
        assert(all =~= seq![k] + tail);
        assert forall|i: int, j: int| 0 <= i < j < all.len() implies key_before(
            #[trigger] all[i],
            #[trigger] all[j],
        ) by {
            assert(tail.contains(tail[j - 1]));
            assert(rest.contains(all[j]));
            if i > 0 {
                assert(all[i] == tail[i - 1]);
                assert(all[j] == tail[j - 1]);
            }
        }
        assert forall|q: Seq<char>| all.contains(q) <==> keys.contains(q) by {
            if all.contains(q) {
                let i = choose|i: int| 0 <= i < all.len() && all[i] == q;
                if i > 0 {
                    assert(tail[i - 1] == q);
                    assert(tail.contains(q));
                }
            }
            if keys.contains(q) {
                if q == k {
                    assert(all[0] == q);
                } else {
                    assert(rest.contains(q));
                    assert(tail.contains(q));
                    let i = choose|i: int| 0 <= i < tail.len() && tail[i] == q;
                    assert(all[i + 1] == q);
                }
            }
        }
    }
}

/// A strictly ascending listing of a key set is its ascending enumeration.
pub proof fn lemma_ascending_keys_unique(s: Seq<Seq<char>>, keys: Set<Seq<char>>)
    requires
        strictly_ascending(s),
        lists_keys(s, keys),
    ensures
        keys.finite(),
        keys.len() == s.len(),
        ascending_keys(keys) == s,
    decreases s.len(),
{
    if s.len() == 0 {
        assert(keys =~= Set::empty()) by {
            assert forall|k: Seq<char>| !keys.contains(k) by {
                assert(!s.contains(k));
            }
        }
    } else {
        let k = s[0];
        let tail = s.drop_first();
        let rest = keys.remove(k);
        assert(s.contains(k));
        assert forall|i: int, j: int| 0 <= i < j < tail.len() implies key_before(
            #[trigger] tail[i],
            #[trigger] tail[j],
        ) by {
            assert(key_before(s[i + 1], s[j + 1]));
        }
        assert forall|q: Seq<char>| tail.contains(q) <==> rest.contains(q) by {
            if tail.contains(q) {
                let i = choose|i: int| 0 <= i < tail.len() && tail[i] == q;
                assert(s[i + 1] == q);
                assert(s.contains(q));
                assert(key_before(s[0], s[i + 1]));
                lemma_bytes_before_irreflexive(encode_utf8(k));
            }
            if rest.contains(q) {
                assert(s.contains(q));
                let i = choose|i: int| 0 <= i < s.len() && s[i] == q;
                assert(tail[i - 1] == q);
            }
        }
        lemma_ascending_keys_unique(tail, rest);
        assert(keys =~= rest.insert(k));
        assert forall|j: Seq<char>| keys.contains(j) && j != k implies key_before(k, j) by {
            assert(s.contains(j));
            let i = choose|i: int| 0 <= i < s.len() && s[i] == j;
            assert(key_before(s[0], s[i]));
        }
        assert(is_least_key(keys, k));
        let l = least_key(keys);
        if l != k {
            assert(key_before(l, k));
            assert(key_before(k, l));
            lemma_bytes_before_asymmetric(encode_utf8(k), encode_utf8(l));
        }
        assert(s =~= seq![k] + tail);
    }
}

} // verus!
