//! Reading an integer from a line of input.
//!
//! A line holds an integer when, with the white space at both ends removed,
//! it is an optional sign `+` or `-` followed by one or more decimal digits,
//! and the number fits in an `i32`.

use vstd::prelude::*;

use crate::text::chars_of;
use crate::text::trim;
use crate::text::trimmed;

verus! {

/// Whether `c` is one of the digits `0` to `9`.
pub open spec fn is_digit(c: char) -> bool {
    0x30 <= c as u32 <= 0x39
}

/// The value of the digit `c`.
pub open spec fn digit_value(c: char) -> int {
    c as u32 - 0x30
}

/// Whether `s` holds digits only.
pub open spec fn all_digits(s: Seq<char>) -> bool {
    forall|i: int| 0 <= i < s.len() ==> is_digit(#[trigger] s[i])
}

/// The number that the digits `s` denote in base ten; 0 for no digit.
pub open spec fn decimal_value(s: Seq<char>) -> int
    decreases s.len(),
{
    if s.len() == 0 {
        0
    } else {
        decimal_value(s.drop_last()) * 10 + digit_value(s.last())
    }
}

/// Whether `s` starts with a sign.
pub open spec fn has_sign(s: Seq<char>) -> bool {
    s.len() > 0 && (s[0] == '-' || s[0] == '+')
}

/// The digits of `s`: what follows its sign, if it has one.
pub open spec fn unsigned_part(s: Seq<char>) -> Seq<char> {
    if has_sign(s) {
        s.drop_first()
    } else {
        s
    }
}

/// The number that `s` denotes: the value of its digits, negated behind `-`.
pub open spec fn signed_value(s: Seq<char>) -> int {
    if s.len() > 0 && s[0] == '-' {
        -decimal_value(unsigned_part(s))
    } else {
        decimal_value(unsigned_part(s))
    }
}

/// The `i32` that `s` denotes, if it denotes one: an optional sign, then at
/// least one digit and nothing else, with a value in the range of `i32`.
pub open spec fn parse_i32(s: Seq<char>) -> Option<i32> {
    if unsigned_part(s).len() > 0 && all_digits(unsigned_part(s)) && i32::MIN <= signed_value(s)
        <= i32::MAX {
        Some(signed_value(s) as i32)
    } else {
        None
    }
}

/// The integer that a line of input holds, if it holds one.
pub open spec fn line_value(line: Seq<char>) -> Option<i32> {
    parse_i32(trimmed(line))
}

/// The value of digits is not negative and does not shrink when digits are
/// appended.
proof fn lemma_decimal_value_grows(s: Seq<char>, k: int)
    requires
        0 <= k <= s.len(),
        all_digits(s),
    ensures
        0 <= decimal_value(s.subrange(0, k)) <= decimal_value(s),
    decreases s.len() - k,
{
    if k == s.len() {
        assert(s.subrange(0, k) =~= s);
        lemma_decimal_value_not_negative(s);
    } else {
        let rest = s.drop_last();
        lemma_decimal_value_grows(rest, k);
        assert(rest.subrange(0, k) =~= s.subrange(0, k));
        lemma_decimal_value_not_negative(rest);
        assert(is_digit(s[s.len() - 1]));
    }
}

/// The value of digits is not negative.
proof fn lemma_decimal_value_not_negative(s: Seq<char>)
    requires
        all_digits(s),
    ensures
        0 <= decimal_value(s),
    decreases s.len(),
{
    if s.len() > 0 {
        lemma_decimal_value_not_negative(s.drop_last());
        assert(is_digit(s[s.len() - 1]));
    }
}

/// Reads the `i32` that `text` denotes.
pub fn parse_number(text: &Vec<char>) -> (r: Option<i32>)
    ensures
        r == parse_i32(text@),
{
    let end: usize = text.len();
    let negative = end > 0 && text[0] == '-';
    let signed = end > 0 && (text[0] == '-' || text[0] == '+');
    let first: usize = if signed {
        1
    } else {
        0
    };
    let ghost digits = unsigned_part(text@);
    assert(digits =~= text@.subrange(first as int, end as int));
    if first == end {
        return None;
    }
    let mut value: i64 = 0;
    let mut i: usize = first;
    while i < end
        invariant
            first <= i <= end,
            end == text.len(),
            digits == unsigned_part(text@),
            digits == text@.subrange(first as int, end as int),
            all_digits(digits.subrange(0, i - first)),
            value == decimal_value(digits.subrange(0, i - first)),
            0 <= value <= 0x8000_0000,
        decreases end - i,
    {
        let u: u32 = text[i] as u32;
        if u < 0x30 || u > 0x39 {
            assert(!is_digit(digits[i - first]));
            return None;
        }
        let ghost before = digits.subrange(0, i - first);
        let ghost now = digits.subrange(0, i - first + 1);
        assert(now.drop_last() =~= before);
        assert(now.last() == text@[i as int]);
        value = value * 10 + (u - 0x30) as i64;
        i = i + 1;
        assert(all_digits(now)) by {
            assert forall|j: int| 0 <= j < now.len() implies is_digit(#[trigger] now[j]) by {
                if j < now.len() - 1 {
                    assert(now[j] == before[j]);
                }
            }
        }
        if value > 0x8000_0000 {
            proof {
                if all_digits(digits) {
                    lemma_decimal_value_grows(digits, i - first);
                }
            }
            return None;
        }
    }
    assert(digits.subrange(0, i - first) =~= digits);
    if negative {
        Some((-value) as i32)
    } else if value <= 0x7FFF_FFFF {
        Some(value as i32)
    } else {
        None
    }
}

/// Reads the integer that a line of input holds.
pub fn parse_line(line: &str) -> (r: Option<i32>)
    ensures
        r == line_value(line@),
{
    let chars = chars_of(line);
    let text = trim(&chars);
    parse_number(&text)
}

} // verus!
