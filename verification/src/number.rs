//! Signed decimal integers in text: an optional sign, then one digit or more.

use crate::text::{digit_value, is_digit};
use vstd::prelude::*;

verus! {

/// Whether `s` holds decimal digits only.
pub open spec fn all_digits(s: Seq<char>) -> bool {
    forall|i: int| 0 <= i < s.len() ==> is_digit(#[trigger] s[i])
}

/// The number that the decimal digits `s` stand for.
pub open spec fn digits_value(s: Seq<char>) -> int
    recommends
        all_digits(s),
    decreases s.len(),
{
    if s.len() == 0 {
        0
    } else {
        10 * digits_value(s.drop_last()) + digit_value(s.last())
    }
}

/// Whether `s` begins with a sign, `+` or `-`.
pub open spec fn has_sign(s: Seq<char>) -> bool {
    s.len() > 0 && (s[0] == '+' || s[0] == '-')
}

/// `s` without its sign.
pub open spec fn unsigned_part(s: Seq<char>) -> Seq<char> {
    if has_sign(s) {
        s.drop_first()
    } else {
        s
    }
}

/// Whether `s` is written as an integer: an optional sign, then one decimal
/// digit or more, and nothing else.
pub open spec fn is_integer(s: Seq<char>) -> bool {
    unsigned_part(s).len() > 0 && all_digits(unsigned_part(s))
}

/// The number that `s` stands for, however large.
pub open spec fn integer_value(s: Seq<char>) -> int
    recommends
        is_integer(s),
{
    if s.len() > 0 && s[0] == '-' {
        -digits_value(unsigned_part(s))
    } else {
        digits_value(unsigned_part(s))
    }
}

/// The signed 64-bit integer that `s` stands for: `None` where `s` is not
/// written as an integer, or stands for a number outside the 64-bit range.
pub open spec fn parse_i64(s: Seq<char>) -> Option<i64> {
    if is_integer(s) && i64::MIN <= integer_value(s) <= i64::MAX {
        Some(integer_value(s) as i64)
    } else {
        None
    }
}

/// The digits at the front of a number stand for no more than the whole.
proof fn lemma_digits_value_grows(s: Seq<char>, k: int)
    requires
        all_digits(s),
        0 <= k <= s.len(),
    ensures
        0 <= digits_value(s.take(k)) <= digits_value(s),
    decreases s.len() - k,
{
    if k == s.len() {
        assert(s.take(k) =~= s);
        lemma_digits_value_nonnegative(s);
    } else {
        assert(s.drop_last().take(k) =~= s.take(k));
        assert(all_digits(s.drop_last())) by {
            assert forall|i: int| 0 <= i < s.drop_last().len() implies is_digit(
                #[trigger] s.drop_last()[i],
            ) by {
                assert(is_digit(s[i]));
            }
        }
        lemma_digits_value_grows(s.drop_last(), k);
        assert(is_digit(s[s.len() - 1]));
    }
}

/// Digits stand for a number that is not negative.
proof fn lemma_digits_value_nonnegative(s: Seq<char>)
    requires
        all_digits(s),
    ensures
        0 <= digits_value(s),
    decreases s.len(),
{
    if s.len() > 0 {
        assert(all_digits(s.drop_last())) by {
            assert forall|i: int| 0 <= i < s.drop_last().len() implies is_digit(
                #[trigger] s.drop_last()[i],
            ) by {
                assert(is_digit(s[i]));
            }
        }
        lemma_digits_value_nonnegative(s.drop_last());
        assert(is_digit(s[s.len() - 1]));
    }
}

/// Reads the part of `chars` between `from` and `to` as a signed 64-bit
/// integer.
pub fn parse_i64_between(chars: &Vec<char>, from: usize, to: usize) -> (value: Option<i64>)
    requires
        from <= to <= chars.len(),
    ensures
        value == parse_i64(chars@.subrange(from as int, to as int)),
{
    let ghost s = chars@.subrange(from as int, to as int);
    if from == to {
        return None;
    }
    let first: char = chars[from];
    let negative: bool = first == '-';
    let start: usize = if first == '-' || first == '+' {
        from + 1
    } else {
        from
    };
    let ghost body = chars@.subrange(start as int, to as int);
    assert(unsigned_part(s) =~= body);
    if start == to {
        return None;
    }
    let mut magnitude: i128 = 0;
    let mut i: usize = start;
    while i < to
        invariant
            from <= start <= i <= to <= chars.len(),
            body == chars@.subrange(start as int, to as int),
            body == unsigned_part(chars@.subrange(from as int, to as int)),
            all_digits(body.take(i - start)),
            magnitude == digits_value(body.take(i - start)),
            0 <= magnitude <= 0x8000_0000_0000_0000,
        decreases to - i,
    {
        let code: u32 = chars[i] as u32;
        if code < 0x30 || code > 0x39 {
            assert(!is_digit(body[i - start]));
            return None;
        }
        let digit: i128 = (code - 0x30) as i128;
        let next: i128 = magnitude * 10 + digit;
        proof {
            let longer = body.take(i + 1 - start);
            assert(longer.drop_last() =~= body.take(i - start));
            assert(longer.last() == chars@[i as int]);
            assert(all_digits(longer)) by {
                assert forall|j: int| 0 <= j < longer.len() implies is_digit(
                    #[trigger] longer[j],
                ) by {
                    if j < i - start {
                        assert(is_digit(body.take(i - start)[j]));
                    }
                }
            }
            assert(next == digits_value(longer));
            if next > 0x8000_0000_0000_0000 && all_digits(body) {
                lemma_digits_value_grows(body, i + 1 - start);
            }
        }
        if next > 0x8000_0000_0000_0000 {
            return None;
        }
        magnitude = next;
        i += 1;
    }
    assert(body.take(i - start) =~= body);
    if negative {
        Some((-magnitude) as i64)
    } else if magnitude > 0x7FFF_FFFF_FFFF_FFFF {
        None
    } else {
        Some(magnitude as i64)
    }
}

} // verus!
