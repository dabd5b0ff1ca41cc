//! Reading whole numbers written in decimal digits.
//!
//! A number is an optional sign and then one or more of the digits `0` to
//! `9`, with nothing before, between or after. Numbers without a sign read
//! a `+` as their sign and nothing else; numbers with a sign read `+` or
//! `-`. A number that is too large for its type is not read.

use crate::text::chars_of;
use vstd::prelude::*;

verus! {

/// Whether `c` is one of the digits `0` to `9`.
pub open spec fn is_digit(c: char) -> bool {
    '0' <= c && c <= '9'
}

/// Whether every character of `s` is a digit.
pub open spec fn all_digits(s: Seq<char>) -> bool {
    forall|i: int| 0 <= i < s.len() ==> is_digit(#[trigger] s[i])
}

/// What the digit `c` counts.
pub open spec fn digit_value(c: char) -> nat {
    if is_digit(c) {
        (c as int - '0' as int) as nat
    } else {
        0
    }
}

/// The number that the digits of `s` write.
pub open spec fn digits_value(s: Seq<char>) -> nat
    decreases s.len(),
{
    if s.len() == 0 {
        0
    } else {
        digits_value(s.drop_last()) * 10 + digit_value(s.last())
    }
}

/// The number that `s` writes without a sign or with `+`, if it writes
/// one.
pub open spec fn unsigned_decimal(s: Seq<char>) -> Option<nat> {
    let digits = if s.len() > 0 && s[0] == '+' {
        s.drop_first()
    } else {
        s
    };
    if digits.len() > 0 && all_digits(digits) {
        Some(digits_value(digits))
    } else {
        None
    }
}

/// The number that `s` writes with or without a sign, if it writes one.
pub open spec fn signed_decimal(s: Seq<char>) -> Option<int> {
    if s.len() > 0 && s[0] == '-' {
        let digits = s.drop_first();
        if digits.len() > 0 && all_digits(digits) {
            Some(-(digits_value(digits) as int))
        } else {
            None
        }
    } else {
        match unsigned_decimal(s) {
            Some(n) => Some(n as int),
            None => None,
        }
    }
}

/// The `u64` that `s` writes, if it writes one.
pub open spec fn parsed_u64(s: Seq<char>) -> Option<u64> {
    match unsigned_decimal(s) {
        Some(n) => if n <= u64::MAX {
            Some(n as u64)
        } else {
            None
        },
        None => None,
    }
}

/// The `isize` that `s` writes, if it writes one.
pub open spec fn parsed_isize(s: Seq<char>) -> Option<isize> {
    match signed_decimal(s) {
        Some(n) => if isize::MIN <= n <= isize::MAX {
            Some(n as isize)
        } else {
            None
        },
        None => None,
    }
}

/// The digits read so far never write more than all the digits do.
proof fn lemma_digits_value_grows(s: Seq<char>, k: int)
    requires
        0 <= k <= s.len(),
    ensures
        digits_value(s.take(k)) <= digits_value(s),
    decreases s.len() - k,
{
    if k == s.len() {
        assert(s.take(k) =~= s);
    } else {
        lemma_digits_value_grows(s.drop_last(), k);
        assert(s.drop_last().take(k) =~= s.take(k));
    }
}

/// Reads the digits from `start` to the end of `chars`: the number they
/// write, unless there is none, one is not a digit, or the number is too
/// large.
fn read_digits(chars: &Vec<char>, start: usize) -> (r: Option<u128>)
    requires
        start <= chars.len(),
    ensures
        r == ({
            let digits = chars@.skip(start as int);
            if digits.len() > 0 && all_digits(digits) && digits_value(digits) <= u128::MAX {
                Some(digits_value(digits) as u128)
            } else {
                None
            }
        }),
{
    let ghost digits = chars@.skip(start as int);
    if start == chars.len() {
        return None;
    }
    let mut value: u128 = 0;
    let mut i: usize = start;
    assert(digits.take(0) =~= Seq::<char>::empty());
    while i < chars.len()
        invariant
            start <= i <= chars.len(),
            digits == chars@.skip(start as int),
            all_digits(digits.take(i - start)),
            value == digits_value(digits.take(i - start)),
        decreases chars.len() - i,
    {
        let c = chars[i];
        let ghost read = digits.take(i - start);
        let ghost next = digits.take(i - start + 1);
        proof {
            assert(digits[i - start] == c);
            assert(next.drop_last() =~= read);
            assert(next.last() == c);
        }
        if c < '0' || c > '9' {
            return None;
        }
        let d: u128 = (c as u32 - '0' as u32) as u128;
        let bigger: u128 = match value.checked_mul(10) {
            Some(tenfold) => match tenfold.checked_add(d) {
                Some(bigger) => bigger,
                None => {
                    proof {
                        lemma_digits_value_grows(digits, i - start + 1);
                    }
                    return None;
                },
            },
            None => {
                proof {
                    lemma_digits_value_grows(digits, i - start + 1);
                }
                return None;
            },
        };
        assert(all_digits(next)) by {
            assert forall|j: int| 0 <= j < next.len() implies is_digit(#[trigger] next[j]) by {
                if j < read.len() {
                    assert(next[j] == read[j]);
                }
            }
        }
        value = bigger;
        i += 1;
    }
    assert(digits.take(i - start) =~= digits);
    Some(value)
}

/// Reads a `u64` written in decimal digits, with `+` before it or without
/// a sign.
pub fn parse_u64(text: &str) -> (r: Option<u64>)
    ensures
        r == parsed_u64(text@),
{
    let chars = chars_of(text);
    let start: usize = if chars.len() > 0 && chars[0] == '+' {
        1
    } else {
        0
    };
    if chars.len() > 0 {
        assert(chars@.skip(1) =~= chars@.drop_first());
    }
    assert(chars@.skip(0) =~= chars@);
    match read_digits(&chars, start) {
        Some(n) => if n <= u64::MAX as u128 {
            Some(n as u64)
        } else {
            None
        },
        None => None,
    }
}

/// Reads an `isize` written in decimal digits, with `+` or `-` before it
/// or without a sign.
pub fn parse_isize(text: &str) -> (r: Option<isize>)
    ensures
        r == parsed_isize(text@),
{
    let chars = chars_of(text);
    let negative = chars.len() > 0 && chars[0] == '-';
    let start: usize = if chars.len() > 0 && (chars[0] == '+' || chars[0] == '-') {
        1
    } else {
        0
    };
    if chars.len() > 0 {
        assert(chars@.skip(1) =~= chars@.drop_first());
    }
    assert(chars@.skip(0) =~= chars@);
    match read_digits(&chars, start) {
        Some(n) => if negative {
            if n <= isize::MAX as u128 {
                Some(-(n as isize))
            } else if n == isize::MAX as u128 + 1 {
                Some(isize::MIN)
            } else {
                None
            }
        } else {
            if n <= isize::MAX as u128 {
                Some(n as isize)
            } else {
                None
            }
        },
        None => None,
    }
}

} // verus!
