//! Decimal integers written as text.

use crate::chars::chars_of;
use vstd::prelude::*;
use vstd::slice::slice_subrange;

verus! {

/// Whether `c` is one of the ten decimal digits.
pub open spec fn is_digit(c: char) -> bool {
    '0' <= c <= '9'
}

/// The number that the digit `c` stands for.
pub open spec fn digit_value(c: char) -> nat
    recommends
        is_digit(c),
{
    (c as int - '0' as int) as nat
}

/// Whether `s` is a run of one or more decimal digits.
pub open spec fn is_digits(s: Seq<char>) -> bool {
    &&& s.len() > 0
    &&& forall|i: int| 0 <= i < s.len() ==> is_digit(#[trigger] s[i])
}

/// The number that a run of digits denotes in base ten.
pub open spec fn digits_value(s: Seq<char>) -> nat
    decreases s.len(),
{
    if s.len() == 0 {
        0
    } else {
        10 * digits_value(s.drop_last()) + digit_value(s.last())
    }
}

/// The integer that `s` denotes, if it denotes one: an optional sign, `+` or
/// `-`, and then one or more decimal digits, with nothing before, between or
/// after them.
pub open spec fn integer_value(s: Seq<char>) -> Option<int> {
    if s.len() > 0 && (s[0] == '+' || s[0] == '-') {
        let digits = s.drop_first();
        if !is_digits(digits) {
            None
        } else if s[0] == '-' {
            Some(-(digits_value(digits) as int))
        } else {
            Some(digits_value(digits) as int)
        }
    } else if is_digits(s) {
        Some(digits_value(s) as int)
    } else {
        None
    }
}

/// What `s` denotes as an `i64`: its integer value where that lies in the
/// range of the type, and nothing otherwise.
pub open spec fn i64_value(s: Seq<char>) -> Option<i64> {
    match integer_value(s) {
        Some(v) => if i64::MIN <= v <= i64::MAX {
            Some(v as i64)
        } else {
            None
        },
        None => None,
    }
}

/// A run of digits denotes at least as much as any of its prefixes.
pub proof fn lemma_digits_value_grows(s: Seq<char>, k: int)
    requires
        0 <= k <= s.len(),
    ensures
        digits_value(s.take(k)) <= digits_value(s),
    decreases s.len(),
{
    if k == s.len() {
        assert(s.take(k) == s);
    } else {
        assert(s.drop_last().take(k) == s.take(k));
        lemma_digits_value_grows(s.drop_last(), k);
    }
}

/// The magnitude of the least `i64`, the largest that a run of digits can
/// have in the text of one.
pub const MAX_MAGNITUDE: u64 = 0x8000_0000_0000_0000;

/// Reads `digits` as a run of digits that denotes at most `limit`.
pub fn parse_digits(digits: &[char], limit: u64) -> (r: Option<u64>)
    ensures
        r == if is_digits(digits@) && digits_value(digits@) <= limit {
            Some(digits_value(digits@) as u64)
        } else {
            None
        },
{
    let n: usize = digits.len();
    if n == 0 {
        return None;
    }
    let mut value: u64 = 0;
    let mut i: usize = 0;
    while i < n
        invariant
            n == digits.len(),
            i <= n,
            value <= limit,
            value == digits_value(digits@.take(i as int)),
            forall|j: int| 0 <= j < i ==> is_digit(#[trigger] digits[j]),
        decreases n - i,
    {
        let c: char = digits[i];
        if c < '0' || c > '9' {
            return None;
        }
        let d: u64 = (c as u32 - '0' as u32) as u64;
        assert(digits_value(digits@.take(i + 1)) == 10 * value + d) by {
            assert(digits@.take(i + 1).drop_last() == digits@.take(i as int));
        }
        if d > limit || value > (limit - d) / 10 {
            proof {
                lemma_digits_value_grows(digits@, i + 1);
            }
            return None;
        }
        value = value * 10 + d;
        i += 1;
    }
    assert(digits@.take(n as int) == digits@);
    Some(value)
}

/// Reads `s` as an `i64`.
pub fn parse_i64(s: &str) -> (r: Option<i64>)
    ensures
        r == i64_value(s@),
{
    let text = chars_of(s);
    let n: usize = text.len();
    if n == 0 {
        return None;
    }
    assert(text@.subrange(0, n as int) == text@);
    if text[0] == '-' {
        match parse_digits(slice_subrange(text.as_slice(), 1, n), MAX_MAGNITUDE) {
            Some(magnitude) => if magnitude == MAX_MAGNITUDE {
                Some(i64::MIN)
            } else {
                Some(-(magnitude as i64))
            },
            None => None,
        }
    } else {
        let from: usize = if text[0] == '+' {
            1
        } else {
            0
        };
        match parse_digits(slice_subrange(text.as_slice(), from, n), MAX_MAGNITUDE - 1) {
            Some(magnitude) => Some(magnitude as i64),
            None => None,
        }
    }
}

} // verus!
