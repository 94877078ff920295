//! Canonical decimal rendering and parsing of the cost parameters inside a
//! PHC string: digits only, no leading zeros, value bounded by `u32`.
//! Rendering and parsing are verified to invert one another.

use vstd::prelude::*;
use vstd::arithmetic::div_mod::lemma_fundamental_div_mod;

verus! {

/// The decimal digits of `n`, most significant first.
pub open spec fn dec_digits(n: nat) -> Seq<u8>
    decreases n,
{
    if n < 10 {
        seq![(48 + n) as u8]
    } else {
        dec_digits(n / 10).push((48 + n % 10) as u8)
    }
}

/// Every byte is an ASCII digit.
pub open spec fn all_digits(s: Seq<u8>) -> bool {
    forall|i: int| 0 <= i < s.len() ==> 48 <= #[trigger] s[i] <= 57
}

/// The value of a digit string, read most significant first.
pub open spec fn dec_val(s: Seq<u8>) -> nat
    decreases s.len(),
{
    if s.len() == 0 {
        0
    } else {
        dec_val(s.drop_last()) * 10 + (if s.last() >= 48 {
            (s.last() - 48) as nat
        } else {
            0
        })
    }
}

/// A canonical decimal: nonempty, digits only, no leading zero.
pub open spec fn dec_canon(s: Seq<u8>) -> bool {
    s.len() >= 1 && all_digits(s) && (s.len() == 1 || s[0] != 48)
}

/// What a `u32` cost-parameter field parses to.
pub open spec fn dec_parse(s: Seq<u8>) -> Option<u32> {
    if dec_canon(s) && dec_val(s) <= u32::MAX {
        Some(dec_val(s) as u32)
    } else {
        None
    }
}

/// The first digit of a positive number is never zero.
proof fn lemma_dec_digits_first(n: nat)
    ensures
        dec_digits(n).len() >= 1,
        n >= 1 ==> dec_digits(n)[0] != 48,
        all_digits(dec_digits(n)),
    decreases n,
{
    if n < 10 {
    } else {
        lemma_dec_digits_first(n / 10);
        assert forall|i: int| 0 <= i < dec_digits(n).len() implies 48 <= #[trigger] dec_digits(
            n,
        )[i] <= 57 by {
            if i < dec_digits(n / 10).len() {
                assert(dec_digits(n)[i] == dec_digits(n / 10)[i]);
            }
        }
    }
}

/// Rendering then parsing a `u32` gives it back: the decimal round trip.
pub proof fn lemma_dec_round_trip(n: nat)
    requires
        n <= u32::MAX,
    ensures
        dec_parse(dec_digits(n)) == Some(n as u32),
        dec_canon(dec_digits(n)),
        dec_val(dec_digits(n)) == n,
    decreases n,
{
    lemma_dec_digits_first(n);
    if n < 10 {
        assert(dec_digits(n) =~= seq![(48 + n) as u8]);
        assert(dec_digits(n).drop_last() =~= Seq::<u8>::empty());
        assert(dec_val(Seq::<u8>::empty()) == 0);
        assert(dec_val(dec_digits(n)) == n);
    } else {
        lemma_dec_round_trip(n / 10);
        lemma_fundamental_div_mod(n as int, 10);
        assert(dec_digits(n).drop_last() =~= dec_digits(n / 10));
        assert(dec_digits(n).last() == (48 + n % 10) as u8);
        assert(dec_val(dec_digits(n)) == dec_val(dec_digits(n / 10)) * 10 + n % 10);
        assert(dec_val(dec_digits(n)) == n);
    }
}

/// A prefix of a digit string never exceeds the whole string's value.
proof fn lemma_dec_val_prefix(s: Seq<u8>, i: int)
    requires
        0 <= i <= s.len(),
    ensures
        dec_val(s.take(i)) <= dec_val(s),
    decreases s.len() - i,
{
    if i == s.len() {
        assert(s.take(i) =~= s);
    } else {
        lemma_dec_val_prefix(s, i + 1);
        assert(s.take(i + 1).drop_last() =~= s.take(i));
        assert(s.take(i + 1).last() == s[i]);
        assert(dec_val(s.take(i)) <= dec_val(s.take(i + 1)));
    }
}

/// Append the decimal rendering of `n` to `out`.
pub fn push_decimal(out: &mut Vec<u8>, n: u32)
    ensures
        final(out)@ == old(out)@ + dec_digits(n as nat),
    decreases n,
{
    if n < 10 {
        out.push(48 + n as u8);
        assert(final(out)@ =~= old(out)@ + dec_digits(n as nat));
    } else {
        push_decimal(out, n / 10);
        out.push(48 + (n % 10) as u8);
        assert(final(out)@ =~= old(out)@ + dec_digits(n as nat));
    }
}

/// Parse a canonical decimal `u32` field; `None` exactly where the grammar
/// or the `u32` range rejects it.
pub fn parse_decimal(s: &[u8]) -> (r: Option<u32>)
    ensures
        r == dec_parse(s@),
{
    if s.len() == 0 {
        return None;
    }
    if s.len() > 1 && s[0] == 48 {
        return None;
    }
    let mut acc: u64 = 0;
    let mut i: usize = 0;
    proof {
        assert(s@.take(0) =~= Seq::<u8>::empty());
    }
    while i < s.len()
        invariant
            0 <= i <= s@.len(),
            acc <= u32::MAX,
            all_digits(s@.take(i as int)),
            acc == dec_val(s@.take(i as int)),
        decreases s@.len() - i,
    {
        let c = s[i];
        if c < 48 || c > 57 {
            return None;
        }
        proof {
            assert(s@.take(i + 1).drop_last() =~= s@.take(i as int));
            assert(s@.take(i + 1).last() == s@[i as int]);
        }
        acc = acc * 10 + (c - 48) as u64;
        i = i + 1;
        if acc > 0xFFFF_FFFF {
            proof {
                lemma_dec_val_prefix(s@, i as int);
                assert(s@.take(s@.len() as int) =~= s@);
            }
            return None;
        }
    }
    proof {
        assert(s@.take(s@.len() as int) =~= s@);
    }
    Some(acc as u32)
}

} // verus!
