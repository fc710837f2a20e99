//! Small operations on byte strings.
use vstd::prelude::*;

verus! {

/// Whether two byte strings are the same.
pub fn same_bytes(a: &[u8], b: &[u8]) -> (same: bool)
    ensures
        same == (a@ == b@),
{
    if a.len() != b.len() {
        return false;
    }
    let mut i: usize = 0;
    while i < a.len()
        invariant
            a@.len() == b@.len(),
            i <= a@.len(),
            forall|j: int| 0 <= j < i ==> a@[j] == b@[j],
        decreases a@.len() - i,
    {
        if a[i] != b[i] {
            return false;
        }
        i += 1;
    }
    proof {
        assert(a@ =~= b@);
    }
    true
}

/// Copies `N` bytes of `bytes`, starting at `from`, into an array.
pub(crate) fn take_array<const N: usize>(bytes: &[u8], from: usize) -> (out: [u8; N])
    requires
        from + N <= bytes@.len(),
    ensures
        out@ == bytes@.subrange(from as int, from + N),
{
    let total = bytes.len();
    let mut out: [u8; N] = [0u8;N];
    let mut i: usize = 0;
    while i < N
        invariant
            from + N <= bytes@.len(),
            bytes@.len() == total,
            i <= N,
            forall|j: int| 0 <= j < i ==> out@[j] == bytes@[from + j],
        decreases N - i,
    {
        out[i] = bytes[from + i];
        i += 1;
    }
    proof {
        assert(out@ =~= bytes@.subrange(from as int, from + N));
    }
    out
}

/// The first occurrence of `b` in `s` is at `i` when `b` stands there and
/// nowhere before.
pub proof fn lemma_index_of_first(s: Seq<u8>, b: u8, i: int)
    requires
        0 <= i < s.len(),
        s[i] == b,
        forall|j: int| 0 <= j < i ==> s[j] != b,
    ensures
        s.index_of_first(b) == Some(i),
{
    s.index_of_first_ensures(b);
    assert(s.contains(b));
    let first = s.index_of_first(b)->0;
    if first < i {
        assert(s[first] != b);
    }
    if i < first {
        assert(s[i] != b);
    }
}

/// The index of the first occurrence of `b` in `s`.
pub fn find_byte(s: &[u8], b: u8) -> (r: Option<usize>)
    ensures
        match r {
            Some(i) => s@.index_of_first(b) == Some(i as int) && i < s@.len() && s@[i as int] == b,
            None => s@.index_of_first(b) is None,
        },
{
    let mut i: usize = 0;
    while i < s.len()
        invariant
            i <= s@.len(),
            forall|j: int| 0 <= j < i ==> s@[j] != b,
        decreases s@.len() - i,
    {
        if s[i] == b {
            proof {
                lemma_index_of_first(s@, b, i as int);
            }
            return Some(i);
        }
        i += 1;
    }
    proof {
        s@.index_of_first_ensures(b);
        if s@.contains(b) {
            let j = choose|j: int| 0 <= j < s@.len() && s@[j] == b;
            assert(s@[j] != b);
        }
    }
    None
}

} // verus!
