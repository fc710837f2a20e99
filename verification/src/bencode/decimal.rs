//! Decimal numerals as they appear in integers and in string length prefixes.
use vstd::prelude::*;

verus! {

/// The ASCII digit for `d`, where `d < 10`.
pub open spec fn digit_byte(d: nat) -> u8 {
    (0x30 + d) as u8
}

/// Whether `b` is an ASCII digit.
pub open spec fn is_digit(b: u8) -> bool {
    0x30 <= b <= 0x39
}

/// The decimal numeral of `n`: no leading zeros, `0` for zero.
pub open spec fn nat_digits(n: nat) -> Seq<u8>
    decreases n,
{
    if n < 10 {
        seq![digit_byte(n)]
    } else {
        nat_digits(n / 10).push(digit_byte(n % 10))
    }
}

/// The decimal numeral of `n`, with a leading `-` when `n` is negative.
pub open spec fn int_digits(n: int) -> Seq<u8> {
    if n < 0 {
        seq![0x2du8] + nat_digits((-n) as nat)
    } else {
        nat_digits(n as nat)
    }
}

/// Every byte of `s` is an ASCII digit.
pub open spec fn all_digits(s: Seq<u8>) -> bool {
    forall|i: int| 0 <= i < s.len() ==> is_digit(#[trigger] s[i])
}

/// The number that a run of digits denotes, read as base ten.
pub open spec fn digits_value(s: Seq<u8>) -> nat
    decreases s.len(),
{
    if s.len() == 0 {
        0
    } else {
        digits_value(s.drop_last()) * 10 + (s.last() - 0x30) as nat
    }
}

/// `s` is an unsigned numeral of the grammar: a lone `0`, or a non-empty run
/// of digits that does not start with `0`.
pub open spec fn is_canonical_nat(s: Seq<u8>) -> bool {
    &&& s.len() > 0
    &&& all_digits(s)
    &&& (s.len() == 1 || s[0] != 0x30)
}

/// `s` is a signed numeral of the grammar: an unsigned numeral, or `-`
/// followed by an unsigned numeral other than `0`.
pub open spec fn is_canonical_int(s: Seq<u8>) -> bool {
    if s.len() > 0 && s[0] == 0x2d {
        is_canonical_nat(s.drop_first()) && s[1] != 0x30
    } else {
        is_canonical_nat(s)
    }
}

/// The number that a signed numeral denotes.
pub open spec fn int_value(s: Seq<u8>) -> int {
    if s.len() > 0 && s[0] == 0x2d {
        -(digits_value(s.drop_first()) as int)
    } else {
        digits_value(s) as int
    }
}

/// The numeral of `n` is canonical and denotes `n`.
pub proof fn lemma_nat_digits(n: nat)
    ensures
        is_canonical_nat(nat_digits(n)),
        digits_value(nat_digits(n)) == n,
        n > 0 ==> nat_digits(n)[0] != 0x30,
    decreases n,
{
    if n < 10 {
        let s = nat_digits(n);
        assert(s.drop_last() =~= Seq::<u8>::empty());
        assert(digits_value(s.drop_last()) == 0);
    } else {
        lemma_nat_digits(n / 10);
        let p = nat_digits(n / 10);
        let s = nat_digits(n);
        assert(s.drop_last() =~= p);
        assert(s[0] == p[0]);
    }
}

/// The signed numeral of `n` is canonical and denotes `n`.
pub proof fn lemma_int_digits(n: int)
    ensures
        is_canonical_int(int_digits(n)),
        int_value(int_digits(n)) == n,
{
    if n < 0 {
        let m = (-n) as nat;
        lemma_nat_digits(m);
        assert(int_digits(n).drop_first() =~= nat_digits(m));
    } else {
        lemma_nat_digits(n as nat);
    }
}

/// A run of digits denotes at least what any of its prefixes denotes.
pub proof fn lemma_digits_value_prefix(s: Seq<u8>, k: int)
    requires
        all_digits(s),
        0 <= k <= s.len(),
    ensures
        digits_value(s.take(k)) <= digits_value(s),
    decreases s.len() - k,
{
    if k == s.len() {
        assert(s.take(k) =~= s);
    } else {
        lemma_digits_value_prefix(s, k + 1);
        let t = s.take(k + 1);
        assert(t.drop_last() =~= s.take(k));
        assert(is_digit(s[k]));
    }
}

/// Appends the decimal numeral of `n` to `out`.
pub fn push_decimal(out: &mut Vec<u8>, n: u64)
    ensures
        final(out)@ == old(out)@ + nat_digits(n as nat),
    decreases n,
{
    if n >= 10 {
        push_decimal(out, n / 10);
    }
    let d = (n % 10) as u8;
    out.push(0x30u8 + d);
    proof {
        assert(final(out)@ =~= old(out)@ + nat_digits(n as nat));
    }
}

/// Reads an unsigned numeral of the grammar. Gives `None` when `s` is not
/// such a numeral or denotes a number above `u64::MAX`.
pub fn read_decimal(s: &[u8]) -> (r: Option<u64>)
    ensures
        match r {
            Some(v) => is_canonical_nat(s@) && v == digits_value(s@),
            None => !is_canonical_nat(s@) || digits_value(s@) > u64::MAX,
        },
{
    if s.len() == 0 {
        return None;
    }
    if s[0] == 0x30 && s.len() > 1 {
        return None;
    }
    let mut acc: u64 = 0;
    let mut i: usize = 0;
    while i < s.len()
        invariant
            i <= s@.len(),
            all_digits(s@.take(i as int)),
            acc == digits_value(s@.take(i as int)),
        decreases s@.len() - i,
    {
        let b = s[i];
        if b < 0x30 || b > 0x39 {
            return None;
        }
        let d = (b - 0x30) as u64;
        proof {
            assert(s@.take(i + 1).drop_last() =~= s@.take(i as int));
            assert(s@.take(i + 1).last() == b);
        }
        if acc > (u64::MAX - d) / 10 {
            proof {
                if all_digits(s@) {
                    lemma_digits_value_prefix(s@, i + 1);
                }
            }
            return None;
        }
        acc = acc * 10 + d;
        i += 1;
    }
    proof {
        assert(s@.take(i as int) =~= s@);
    }
    Some(acc)
}

/// Reads a signed numeral of the grammar. Gives `None` when `s` is not such
/// a numeral or denotes a number outside the range of `i64`.
pub fn read_int(s: &[u8]) -> (r: Option<i64>)
    ensures
        match r {
            Some(v) => is_canonical_int(s@) && v == int_value(s@),
            None => !is_canonical_int(s@) || int_value(s@) < i64::MIN || int_value(s@) > i64::MAX,
        },
{
    if s.len() > 0 && s[0] == 0x2d {
        let digits = vstd::slice::slice_subrange(s, 1, s.len());
        proof {
            assert(digits@ =~= s@.drop_first());
        }
        if digits.len() == 0 || digits[0] == 0x30 {
            return None;
        }
        match read_decimal(digits) {
            Some(m) => {
                if m < 0x8000_0000_0000_0000u64 {
                    Some(-(m as i64))
                } else if m == 0x8000_0000_0000_0000u64 {
                    Some(i64::MIN)
                } else {
                    None
                }
            },
            None => None,
        }
    } else {
        match read_decimal(s) {
            Some(m) => {
                if m <= 0x7fff_ffff_ffff_ffffu64 {
                    Some(m as i64)
                } else {
                    None
                }
            },
            None => None,
        }
    }
}

} // verus!
