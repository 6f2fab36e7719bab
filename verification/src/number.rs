//! Numeric literals: which texts are integers and which are decimal
//! fractions, and the value of an integer.

use vstd::prelude::*;
use crate::chars::{ascii_digit, is_ascii_digit, lemma_run_end, run_end, CharClass};
use crate::text::chars_of;

verus! {

/// The value of a decimal digit.
pub open spec fn digit_value(c: char) -> int {
    c as int - '0' as int
}

/// The number that a sequence of decimal digits writes; the empty sequence
/// writes zero.
pub open spec fn decimal_value(digits: Seq<char>) -> int
    decreases digits.len(),
{
    if digits.len() == 0 {
        0
    } else {
        decimal_value(digits.drop_last()) * 10 + digit_value(digits.last())
    }
}

/// Whether every character of `s` is a decimal digit.
pub open spec fn all_digits(s: Seq<char>) -> bool {
    forall|k: int| 0 <= k < s.len() ==> ascii_digit(#[trigger] s[k])
}

/// Whether a sign stands at `i`.
pub open spec fn sign_at(s: Seq<char>, i: int) -> bool {
    0 <= i < s.len() && (s[i] == '+' || s[i] == '-')
}

/// The integer that `s` writes: an optional sign and one or more decimal
/// digits, with a value that a 64-bit signed integer can hold.  Any other
/// text writes no integer.
pub open spec fn integer_literal(s: Seq<char>) -> Option<int> {
    let digits = if sign_at(s, 0) {
        s.subrange(1, s.len() as int)
    } else {
        s
    };
    let value = if sign_at(s, 0) && s[0] == '-' {
        -decimal_value(digits)
    } else {
        decimal_value(digits)
    };
    if digits.len() > 0 && all_digits(digits) && i64::MIN <= value <= i64::MAX {
        Some(value)
    } else {
        None
    }
}

/// Whether `s` from `i` to its end is an exponent: the letter `e`, in
/// either case, an optional sign, and one or more decimal digits.
pub open spec fn exponent_at(s: Seq<char>, i: int) -> bool {
    let digits = if sign_at(s, i + 1) {
        i + 2
    } else {
        i + 1
    };
    &&& 0 <= i < s.len()
    &&& (s[i] == 'e' || s[i] == 'E')
    &&& digits < s.len()
    &&& run_end(s, digits, CharClass::Digit) == s.len()
}

/// Whether `s` writes a decimal fraction: an optional sign, digits, a dot,
/// digits, and an optional exponent, with at least one digit before or
/// behind the dot.
pub open spec fn fraction_literal(s: Seq<char>) -> bool {
    let whole = if sign_at(s, 0) {
        1
    } else {
        0int
    };
    let dot = run_end(s, whole, CharClass::Digit);
    let fraction_end = run_end(s, dot + 1, CharClass::Digit);
    &&& dot < s.len()
    &&& s[dot] == '.'
    &&& (whole < dot || dot + 1 < fraction_end)
    &&& (fraction_end == s.len() || exponent_at(s, fraction_end))
}

/// A number written with more digits is no smaller.
pub proof fn lemma_decimal_value_grows(digits: Seq<char>, k: int)
    requires
        all_digits(digits),
        0 <= k <= digits.len(),
    ensures
        0 <= decimal_value(digits.take(k)) <= decimal_value(digits),
    decreases digits.len(),
{
    if digits.len() == 0 {
        assert(digits.take(k) =~= digits);
    } else if k == digits.len() {
        assert(digits.take(k) =~= digits);
        assert(all_digits(digits.drop_last())) by {
            assert forall|j: int| 0 <= j < digits.drop_last().len() implies ascii_digit(
                #[trigger] digits.drop_last()[j],
            ) by {
                assert(digits.drop_last()[j] == digits[j]);
            }
        }
        lemma_decimal_value_grows(digits.drop_last(), k - 1);
    } else {
        assert(all_digits(digits.drop_last())) by {
            assert forall|j: int| 0 <= j < digits.drop_last().len() implies ascii_digit(
                #[trigger] digits.drop_last()[j],
            ) by {
                assert(digits.drop_last()[j] == digits[j]);
            }
        }
        lemma_decimal_value_grows(digits.drop_last(), k);
        assert(digits.drop_last().take(k) =~= digits.take(k));
    }
}

/// The value of a decimal digit.
fn digit_of(c: char) -> (d: u8)
    requires
        ascii_digit(c),
    ensures
        d == digit_value(c),
        d <= 9,
{
    (c as u32 - '0' as u32) as u8
}

/// The end of the run of decimal digits of `chars` that starts at `i`.
fn digits_end(chars: &Vec<char>, i: usize) -> (end: usize)
    requires
        i <= chars.len(),
    ensures
        end == run_end(chars@, i as int, CharClass::Digit),
        i <= end <= chars.len(),
{
    let mut end = i;
    proof {
        lemma_run_end(chars@, i as int, CharClass::Digit);
    }
    while end < chars.len() && is_ascii_digit(chars[end])
        invariant
            i <= end <= chars.len(),
            run_end(chars@, end as int, CharClass::Digit) == run_end(
                chars@,
                i as int,
                CharClass::Digit,
            ),
        decreases chars.len() - end,
    {
        end += 1;
    }
    end
}

/// Whether a sign stands at `i`.
fn is_sign_at(chars: &Vec<char>, i: usize) -> (r: bool)
    ensures
        r == sign_at(chars@, i as int),
{
    i < chars.len() && (chars[i] == '+' || chars[i] == '-')
}

/// Reads `text` as an integer: the value that [`integer_literal`] gives it.
pub fn parse_integer(text: &str) -> (value: Option<i64>)
    ensures
        match integer_literal(text@) {
            Some(v) => value == Some(v as i64) && v == v as i64,
            None => value is None,
        },
{
    let chars = chars_of(text);
    let n = chars.len();
    let signed = is_sign_at(&chars, 0);
    let negative = signed && chars[0] == '-';
    let start: usize = if signed {
        1
    } else {
        0
    };
    let ghost digits = if signed {
        chars@.subrange(1, n as int)
    } else {
        chars@
    };
    if start == n {
        return None;
    }
    let limit: i128 = if negative {
        0x8000_0000_0000_0000
    } else {
        0x7fff_ffff_ffff_ffff
    };
    let mut magnitude: i128 = 0;
    let mut i: usize = start;
    assert(digits.take(0) =~= Seq::<char>::empty());
    while i < n
        invariant
            start <= i <= n,
            n == chars.len(),
            digits.len() == n - start,
            forall|k: int| 0 <= k < digits.len() ==> digits[k] == chars@[k + start],
            all_digits(digits.take(i - start)),
            magnitude == decimal_value(digits.take(i - start)),
            0 <= magnitude <= limit,
            limit == (if negative {
                0x8000_0000_0000_0000i128
            } else {
                0x7fff_ffff_ffff_ffffi128
            }),
            text@ == chars@,
            digits == (if sign_at(chars@, 0) {
                chars@.subrange(1, n as int)
            } else {
                chars@
            }),
            negative == (sign_at(chars@, 0) && chars@[0] == '-'),
        decreases n - i,
    {
        let c = chars[i];
        if !is_ascii_digit(c) {
            assert(!ascii_digit(digits[i - start]));
            return None;
        }
        let ghost shorter = digits.take(i - start);
        let ghost longer = digits.take(i - start + 1);
        assert(longer.drop_last() =~= shorter);
        assert(longer.last() == c);
        assert(all_digits(longer)) by {
            assert forall|k: int| 0 <= k < longer.len() implies ascii_digit(#[trigger] longer[k]) by {
                if k < shorter.len() {
                    assert(longer[k] == shorter[k]);
                }
            }
        }
        magnitude = magnitude * 10 + digit_of(c) as i128;
        if magnitude > limit {
            proof {
                if all_digits(digits) {
                    lemma_decimal_value_grows(digits, i - start + 1);
                }
            }
            return None;
        }
        i += 1;
    }
    assert(digits.take(i - start) =~= digits);
    if negative {
        Some((-magnitude) as i64)
    } else {
        Some(magnitude as i64)
    }
}

/// Whether `chars` from `i` to its end is an exponent.
fn is_exponent_at(chars: &Vec<char>, i: usize) -> (r: bool)
    requires
        i < chars.len(),
    ensures
        r == exponent_at(chars@, i as int),
{
    if chars[i] != 'e' && chars[i] != 'E' {
        return false;
    }
    let digits: usize = if is_sign_at(chars, i + 1) {
        i + 2
    } else {
        i + 1
    };
    if digits >= chars.len() {
        return false;
    }
    digits_end(chars, digits) == chars.len()
}

/// Decides [`fraction_literal`].
pub fn is_fraction(text: &str) -> (r: bool)
    ensures
        r == fraction_literal(text@),
{
    let chars = chars_of(text);
    let whole: usize = if is_sign_at(&chars, 0) {
        1
    } else {
        0
    };
    let dot = digits_end(&chars, whole);
    if dot >= chars.len() || chars[dot] != '.' {
        return false;
    }
    let fraction_end = digits_end(&chars, dot + 1);
    if dot == whole && fraction_end == dot + 1 {
        return false;
    }
    fraction_end == chars.len() || is_exponent_at(&chars, fraction_end)
}

/// Whether a dot occurs in `text`.
pub fn has_dot(text: &str) -> (r: bool)
    ensures
        r == text@.contains('.'),
{
    let chars = chars_of(text);
    let mut i: usize = 0;
    while i < chars.len()
        invariant
            i <= chars.len(),
            chars@ == text@,
            forall|k: int| 0 <= k < i ==> chars@[k] != '.',
        decreases chars.len() - i,
    {
        if chars[i] == '.' {
            assert(text@[i as int] == '.');
            return true;
        }
        i += 1;
    }
    false
}

} // verus!
