//! Decimal parsing for the `Member_Id` attribute: an optional leading `+`,
//! then one or more ASCII digits, rejected on overflow — the same inputs that
//! `u32` parsing in the standard library accepts.

use vstd::prelude::*;

verus! {

pub open spec fn is_dec_digit(c: char) -> bool {
    '0' <= c && c <= '9'
}

pub open spec fn all_dec_digits(s: Seq<char>) -> bool {
    forall|i: int| 0 <= i < s.len() ==> is_dec_digit(#[trigger] s[i])
}

/// The value of a digit string read in base 10 (most significant first).
pub open spec fn digits_val(s: Seq<char>) -> int
    decreases s.len(),
{
    if s.len() == 0 {
        0
    } else {
        digits_val(s.drop_last()) * 10 + (s.last() as int - '0' as int)
    }
}

/// The digits of the number: the input with one leading `+` removed, if any.
pub open spec fn strip_plus(s: Seq<char>) -> Seq<char> {
    if s.len() > 0 && s[0] == '+' {
        s.drop_first()
    } else {
        s
    }
}

/// What `u32` decimal parsing accepts and returns: after an optional leading
/// `+`, a non-empty string of digits whose value fits in a `u32`.
pub open spec fn parse_u32_spec(s: Seq<char>) -> Option<u32> {
    let d = strip_plus(s);
    if d.len() > 0 && all_dec_digits(d) && digits_val(d) <= u32::MAX {
        Some(digits_val(d) as u32)
    } else {
        None
    }
}

proof fn lemma_digits_val_nonneg(s: Seq<char>)
    requires
        all_dec_digits(s),
    ensures
        digits_val(s) >= 0,
    decreases s.len(),
{
    if s.len() > 0 {
        assert(all_dec_digits(s.drop_last()));
        lemma_digits_val_nonneg(s.drop_last());
    }
}

/// Reading more digits never shrinks the value: the value of a digit-string
/// prefix bounds the value of the whole string from below.
proof fn lemma_digits_val_prefix_le(s: Seq<char>, i: int)
    requires
        all_dec_digits(s),
        0 <= i <= s.len(),
    ensures
        digits_val(s.take(i)) <= digits_val(s),
    decreases s.len() - i,
{
    if i < s.len() {
        lemma_digits_val_prefix_le(s, i + 1);
        assert(s.take(i + 1).drop_last() =~= s.take(i));
        assert(all_dec_digits(s.take(i)));
        lemma_digits_val_nonneg(s.take(i));
        assert(digits_val(s.take(i + 1)) == digits_val(s.take(i)) * 10 + (s[i] as int - '0' as int));
    } else {
        assert(s.take(i) =~= s);
    }
}

/// Parse a `u32` from decimal text, exactly as `parse_u32_spec` says.
pub fn parse_u32(s: &str) -> (r: Option<u32>)
    ensures
        r == parse_u32_spec(s@),
{
    let n = s.unicode_len();
    let ghost d = strip_plus(s@);
    let mut i: usize = 0;
    if n > 0 && s.get_char(0) == '+' {
        i = 1;
    }
    proof {
        assert(d =~= s@.skip(i as int));
    }
    if i >= n {
        return None;
    }
    let mut acc: u64 = 0;
    let mut j: usize = i;
    while j < n
        invariant
            i <= j <= n,
            n == s@.len(),
            d == s@.skip(i as int),
            d == strip_plus(s@),
            all_dec_digits(d.take(j - i)),
            acc == digits_val(d.take(j - i)),
            acc <= u32::MAX,
        decreases n - j,
    {
        let c = s.get_char(j);
        proof {
            assert(d[j - i] == s@[j as int]);
        }
        if !('0' <= c && c <= '9') {
            assert(!is_dec_digit(d[j - i]));
            return None;
        }
        let digit: u64 = (c as u64) - 48;
        proof {
            assert(d.take(j - i + 1).drop_last() =~= d.take(j - i));
            assert(d.take(j - i + 1).last() == c);
        }
        acc = acc * 10 + digit;
        assert(acc == digits_val(d.take(j - i + 1)));
        if acc > 0xFFFF_FFFFu64 {
            proof {
                if all_dec_digits(d) {
                    lemma_digits_val_prefix_le(d, j - i + 1);
                }
            }
            return None;
        }
        j += 1;
    }
    proof {
        assert(d.take(j - i) =~= d);
    }
    Some(acc as u32)
}

} // verus!
