//! Decimal text of unsigned 32-bit numbers, as it stands in a hash record.

use vstd::prelude::*;

verus! {

/// The byte of the character `0`.
pub const ZERO: u8 = 48;

/// Whether `b` is one of the characters `0` to `9`.
pub open spec fn is_digit(b: u8) -> bool {
    48 <= b <= 57
}

/// Whether every byte of `s` is a decimal digit.
pub open spec fn all_digits(s: Seq<u8>) -> bool {
    forall|i: int| 0 <= i < s.len() ==> is_digit(#[trigger] s[i])
}

/// The decimal digits of `n`, most significant first, without leading zeros.
pub open spec fn decimal(n: nat) -> Seq<u8>
    decreases n,
{
    if n < 10 {
        seq![(48 + n) as u8]
    } else {
        decimal(n / 10).push((48 + n % 10) as u8)
    }
}

/// The number that a run of digits denotes.
pub open spec fn digits_value(s: Seq<u8>) -> nat
    decreases s.len(),
{
    if s.len() == 0 {
        0
    } else {
        digits_value(s.drop_last()) * 10 + (s.last() - 48) as nat
    }
}

/// A run of digits with no redundant leading zero.
pub open spec fn is_canonical(s: Seq<u8>) -> bool {
    &&& s.len() >= 1
    &&& all_digits(s)
    &&& (s.len() > 1 ==> s[0] != 48)
}

/// The digits of a number are canonical and denote that number.
pub proof fn lemma_decimal_value(n: nat)
    ensures
        is_canonical(decimal(n)),
        digits_value(decimal(n)) == n,
        n < 10 <==> decimal(n).len() == 1,
    decreases n,
{
    if n < 10 {
        let s = decimal(n);
        assert(s.drop_last().len() == 0);
        assert(digits_value(s.drop_last()) == 0);
    } else {
        lemma_decimal_value(n / 10);
        let t = decimal(n / 10);
        let s = decimal(n);
        assert(s == t.push((48 + n % 10) as u8));
        assert(s.drop_last() == t);
        assert(s[0] == t[0]);
        assert forall|i: int| 0 <= i < s.len() implies is_digit(#[trigger] s[i]) by {
            if i < t.len() {
                assert(s[i] == t[i]);
            }
        }
    }
}

/// A canonical run of digits that starts a longer one denotes at least one.
proof fn lemma_leading_digit_counts(s: Seq<u8>)
    requires
        s.len() >= 1,
        all_digits(s),
        s[0] != 48,
    ensures
        digits_value(s) >= 1,
    decreases s.len(),
{
    if s.len() == 1 {
        assert(s.drop_last().len() == 0);
        assert(digits_value(s.drop_last()) == 0);
        assert(is_digit(s[0]));
    } else {
        let t = s.drop_last();
        assert(t[0] == s[0]);
        assert forall|i: int| 0 <= i < t.len() implies is_digit(#[trigger] t[i]) by {
            assert(t[i] == s[i]);
        }
        lemma_leading_digit_counts(t);
        assert(is_digit(s[s.len() - 1]));
    }
}

/// Canonical digits are the decimal text of the number they denote.
pub proof fn lemma_canonical_is_decimal(s: Seq<u8>)
    requires
        is_canonical(s),
    ensures
        decimal(digits_value(s)) == s,
    decreases s.len(),
{
    let last = s[s.len() - 1];
    assert(is_digit(last));
    let t = s.drop_last();
    if s.len() == 1 {
        assert(t.len() == 0);
        assert(digits_value(t) == 0);
        assert(digits_value(s) == (last - 48) as nat);
        assert(decimal(digits_value(s)) =~= s);
    } else {
        assert(t[0] == s[0]);
        assert forall|i: int| 0 <= i < t.len() implies is_digit(#[trigger] t[i]) by {
            assert(t[i] == s[i]);
        }
        lemma_leading_digit_counts(t);
        lemma_canonical_is_decimal(t);
        let v = digits_value(s);
        assert(v == digits_value(t) * 10 + (last - 48) as nat);
        assert(v >= 10);
        assert(v / 10 == digits_value(t));
        assert(v % 10 == (last - 48) as nat);
        assert(decimal(v) == decimal(v / 10).push((48 + v % 10) as u8));
        assert(t.push(last) =~= s);
    }
}

/// Two numbers with the same decimal text are the same number.
pub proof fn lemma_decimal_injective(a: nat, b: nat)
    requires
        decimal(a) == decimal(b),
    ensures
        a == b,
{
    lemma_decimal_value(a);
    lemma_decimal_value(b);
}

/// A run of digits denotes at least what any of its prefixes denotes.
proof fn lemma_prefix_value(s: Seq<u8>, k: int)
    requires
        0 <= k <= s.len(),
        all_digits(s),
    ensures
        digits_value(s.take(k)) <= digits_value(s),
    decreases s.len() - k,
{
    if k == s.len() {
        assert(s.take(k) =~= s);
    } else {
        lemma_prefix_value(s, k + 1);
        let u = s.take(k + 1);
        assert(u.drop_last() =~= s.take(k));
        assert(u.last() == s[k]);
        assert(is_digit(s[k]));
    }
}

/// Appends the decimal text of `n` to `out`.
pub fn push_decimal(out: &mut Vec<u8>, n: u32)
    ensures
        final(out)@ == old(out)@ + decimal(n as nat),
    decreases n,
{
    if n >= 10 {
        push_decimal(out, n / 10);
    }
    let digit: u8 = (n % 10) as u8;
    out.push(ZERO + digit);
    proof {
        if n >= 10 {
            assert(old(out)@ + decimal((n / 10) as nat).push((48 + n % 10) as u8) =~= (old(out)@
                + decimal((n / 10) as nat)).push((48 + n % 10) as u8));
        } else {
            assert(old(out)@.push((48 + n) as u8) =~= old(out)@ + decimal(n as nat));
        }
    }
}

/// Reads a number from its decimal text.
///
/// Only the text that `push_decimal` writes is accepted: digits alone, at least
/// one of them, no leading zero before another digit, and a value that fits in
/// 32 bits.
pub fn parse_decimal(s: &[u8]) -> (r: Option<u32>)
    ensures
        match r {
            Some(n) => s@ == decimal(n as nat),
            None => forall|n: nat| n <= u32::MAX ==> s@ != #[trigger] decimal(n),
        },
{
    let len = s.len();
    if len == 0 || (len > 1 && s[0] == ZERO) {
        proof {
            assert forall|n: nat| n <= u32::MAX implies s@ != #[trigger] decimal(n) by {
                lemma_decimal_value(n);
            }
        }
        return None;
    }
    let mut acc: u32 = 0;
    let mut i: usize = 0;
    while i < len
        invariant
            len == s@.len(),
            0 <= i <= len,
            all_digits(s@.take(i as int)),
            acc as nat == digits_value(s@.take(i as int)),
        decreases len - i,
    {
        let b = s[i];
        if b < ZERO || b > 57 {
            proof {
                assert forall|n: nat| n <= u32::MAX implies s@ != #[trigger] decimal(n) by {
                    lemma_decimal_value(n);
                    if s@ == decimal(n) {
                        assert(is_digit(s@[i as int]));
                    }
                }
            }
            return None;
        }
        let digit: u32 = (b - ZERO) as u32;
        proof {
            let u = s@.take(i + 1);
            assert(u.drop_last() =~= s@.take(i as int));
            assert(u.last() == b);
            assert(digits_value(u) == acc * 10 + digit);
            assert forall|j: int| 0 <= j < u.len() implies is_digit(#[trigger] u[j]) by {
                if j < i {
                    assert(s@.take(i as int)[j] == u[j]);
                }
            }
        }
        if acc > (u32::MAX - digit) / 10 {
            proof {
                assert(acc * 10 + digit > u32::MAX);
                assert forall|n: nat| n <= u32::MAX implies s@ != #[trigger] decimal(n) by {
                    lemma_decimal_value(n);
                    if s@ == decimal(n) {
                        lemma_prefix_value(s@, i + 1);
                    }
                }
            }
            return None;
        }
        acc = acc * 10 + digit;
        i = i + 1;
    }
    proof {
        assert(s@.take(len as int) =~= s@);
        lemma_canonical_is_decimal(s@);
    }
    Some(acc)
}

} // verus!
