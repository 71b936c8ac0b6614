//! Lexical primitives: whitespace, numerals, whole numbers and the variable.
//!
//! Positions are byte offsets into the text. For each primitive a function on
//! sequences says how many bytes it matches at an offset and what they
//! denote; the scanner beside it is proved to compute exactly that.

use crate::expressions::{all_decimal, digits_value, Function, Number, NumberModel};
use vstd::prelude::*;

verus! {

/// The character `-`.
pub const MINUS: u8 = 45;

/// The character `.`.
pub const DOT: u8 = 46;

/// The character `0`.
pub const DIGIT_ZERO: u8 = 48;

/// An ASCII digit.
pub open spec fn is_digit(b: u8) -> bool {
    48 <= b && b <= 57
}

/// An ASCII letter, upper or lower case.
pub open spec fn is_letter(b: u8) -> bool {
    (65 <= b && b <= 90) || (97 <= b && b <= 122)
}

/// ASCII whitespace: space, tab, line feed, form feed, carriage return.
pub open spec fn is_space(b: u8) -> bool {
    b == 32 || b == 9 || b == 10 || b == 12 || b == 13
}

/// The byte `b` stands at offset `pos` of `s`.
pub open spec fn has_byte(s: Seq<u8>, pos: int, b: u8) -> bool {
    0 <= pos < s.len() && s[pos] == b
}

/// How many bytes are left from `pos` on; the measure by which all
/// recognizers terminate.
pub open spec fn remaining(s: Seq<u8>, pos: int) -> int {
    if pos < s.len() {
        s.len() - pos
    } else {
        0
    }
}

/// The length of the longest run of digits that starts at `pos`.
pub open spec fn digit_run(s: Seq<u8>, pos: int) -> nat
    decreases remaining(s, pos),
{
    if 0 <= pos < s.len() && is_digit(s[pos]) {
        1 + digit_run(s, pos + 1)
    } else {
        0
    }
}

/// The length of the longest run of whitespace that starts at `pos`.
pub open spec fn space_run(s: Seq<u8>, pos: int) -> nat
    decreases remaining(s, pos),
{
    if 0 <= pos < s.len() && is_space(s[pos]) {
        1 + space_run(s, pos + 1)
    } else {
        0
    }
}

/// The values of the `len` digits that start at `pos`.
pub open spec fn digits_at(s: Seq<u8>, pos: int, len: nat) -> Seq<u8> {
    Seq::new(len, |i: int| (s[pos + i] - 48) as u8)
}

/// 1 where a minus sign stands at `pos`, else 0.
pub open spec fn sign_len(s: Seq<u8>, pos: int) -> nat {
    if has_byte(s, pos, MINUS) {
        1
    } else {
        0
    }
}

/// The number of fraction digits of a numeral whose whole part ends at `pos`:
/// the digits behind a point, 0 where no point or no digit follows.
pub open spec fn fraction_len(s: Seq<u8>, pos: int) -> nat {
    if has_byte(s, pos, DOT) {
        digit_run(s, pos + 1)
    } else {
        0
    }
}

/// The length of the numeral at `pos`: an optional minus sign, one or more
/// digits, and optionally a point with one or more digits. 0 where there is
/// no numeral.
#[verifier::opaque]
pub open spec fn number_len(s: Seq<u8>, pos: int) -> nat {
    let sign = sign_len(s, pos);
    let whole = digit_run(s, pos + sign);
    let fraction = fraction_len(s, pos + sign + whole);
    if whole == 0 {
        0
    } else if fraction == 0 {
        sign + whole
    } else {
        sign + whole + 1 + fraction
    }
}

/// The numeral at `pos`, where there is one.
#[verifier::opaque]
pub open spec fn number_at(s: Seq<u8>, pos: int) -> NumberModel {
    let sign = sign_len(s, pos);
    let whole = digit_run(s, pos + sign);
    let fraction = fraction_len(s, pos + sign + whole);
    NumberModel {
        negative: sign == 1,
        whole: digits_at(s, pos + sign, whole),
        fraction: digits_at(s, pos + sign + whole + 1, fraction),
    }
}

/// The whole number at `pos` and its length: one or more digits whose value
/// fits in 32 bits. A sign is not part of it.
#[verifier::opaque]
pub open spec fn integer_at(s: Seq<u8>, pos: int) -> Option<(u32, nat)> {
    let len = digit_run(s, pos);
    let value = digits_value(digits_at(s, pos, len));
    if len == 0 || value > u32::MAX {
        None
    } else {
        Some((value as u32, len))
    }
}

/// A letter stands at `pos`. Which letter is not recorded.
pub open spec fn variable_at(s: Seq<u8>, pos: int) -> bool {
    0 <= pos < s.len() && is_letter(s[pos])
}

/// A digit string's value is at least that of each of its prefixes.
pub proof fn lemma_prefix_value(digits: Seq<u8>, k: int)
    requires
        0 <= k <= digits.len(),
    ensures
        digits_value(digits.take(k)) <= digits_value(digits),
    decreases digits.len(),
{
    if k < digits.len() {
        assert(digits.drop_last().take(k) =~= digits.take(k));
        lemma_prefix_value(digits.drop_last(), k);
    } else {
        assert(digits.take(k) =~= digits);
    }
}

/// Skips the whitespace at `pos` and returns the offset behind it.
pub fn skip_spaces(s: &[u8], pos: usize) -> (end: usize)
    requires
        pos <= s.len(),
    ensures
        end == pos + space_run(s@, pos as int),
        end <= s.len(),
{
    let mut i: usize = pos;
    while i < s.len() && (s[i] == 32 || s[i] == 9 || s[i] == 10 || s[i] == 12 || s[i] == 13)
        invariant
            pos <= i <= s.len(),
            space_run(s@, pos as int) == (i - pos) + space_run(s@, i as int),
        decreases s.len() - i,
    {
        i += 1;
    }
    i
}

/// Reads the digits at `pos`: their values and the offset behind them.
pub fn scan_digits(s: &[u8], pos: usize) -> (r: (Vec<u8>, usize))
    requires
        pos <= s.len(),
    ensures
        r.1 == pos + digit_run(s@, pos as int),
        r.1 <= s.len(),
        r.0@ == digits_at(s@, pos as int, digit_run(s@, pos as int)),
        all_decimal(r.0@),
{
    let mut i: usize = pos;
    let mut digits: Vec<u8> = Vec::new();
    while i < s.len() && 48 <= s[i] && s[i] <= 57
        invariant
            pos <= i <= s.len(),
            digit_run(s@, pos as int) == (i - pos) + digit_run(s@, i as int),
            digits@ =~= digits_at(s@, pos as int, (i - pos) as nat),
            all_decimal(digits@),
        decreases s.len() - i,
    {
        digits.push(s[i] - DIGIT_ZERO);
        i += 1;
    }
    (digits, i)
}

/// Reads the numeral at `pos`, if there is one, and the offset behind it.
pub fn scan_number(s: &[u8], pos: usize) -> (r: Option<(Number, usize)>)
    requires
        pos <= s.len(),
    ensures
        match r {
            Some((value, end)) => {
                &&& number_len(s@, pos as int) > 0
                &&& end == pos + number_len(s@, pos as int)
                &&& end <= s.len()
                &&& value@ == number_at(s@, pos as int)
                &&& value.wf()
            },
            None => number_len(s@, pos as int) == 0,
        },
{
    proof {
        reveal(number_len);
        reveal(number_at);
    }
    let negative = pos < s.len() && s[pos] == MINUS;
    let start: usize = if negative {
        pos + 1
    } else {
        pos
    };
    let (whole, after_whole) = scan_digits(s, start);
    if whole.len() == 0 {
        return None;
    }
    if after_whole < s.len() && s[after_whole] == DOT {
        let (fraction, after_fraction) = scan_digits(s, after_whole + 1);
        if fraction.len() > 0 {
            return Some((Number { negative, whole, fraction }, after_fraction));
        }
    }
    let value = Number { negative, whole, fraction: Vec::new() };
    assert(value@.fraction =~= digits_at(s@, after_whole + 1, 0));
    Some((value, after_whole))
}

/// The value of a digit string, where it fits in 32 bits.
pub fn digits_to_u32(digits: &Vec<u8>) -> (r: Option<u32>)
    requires
        all_decimal(digits@),
    ensures
        r == if digits_value(digits@) <= u32::MAX {
            Some(digits_value(digits@) as u32)
        } else {
            None
        },
{
    let mut value: u64 = 0;
    let mut k: usize = 0;
    while k < digits.len()
        invariant
            k <= digits.len(),
            all_decimal(digits@),
            value == digits_value(digits@.take(k as int)),
            value <= u32::MAX,
        decreases digits.len() - k,
    {
        assert(digits@.take(k + 1).drop_last() =~= digits@.take(k as int));
        let next: u64 = value * 10 + digits[k] as u64;
        if next > 4294967295 {
            proof {
                lemma_prefix_value(digits@, k + 1);
            }
            return None;
        }
        value = next;
        k += 1;
    }
    assert(digits@.take(k as int) =~= digits@);
    Some(value as u32)
}

/// Reads the whole number at `pos`, if one that fits in 32 bits stands there,
/// and the offset behind it.
pub fn scan_integer(s: &[u8], pos: usize) -> (r: Option<(u32, usize)>)
    requires
        pos <= s.len(),
    ensures
        match r {
            Some((value, end)) => {
                &&& integer_at(s@, pos as int) == Some((value, (end - pos) as nat))
                &&& pos < end <= s.len()
            },
            None => integer_at(s@, pos as int).is_none(),
        },
{
    proof {
        reveal(integer_at);
    }
    let (digits, end) = scan_digits(s, pos);
    if digits.len() == 0 {
        return None;
    }
    match digits_to_u32(&digits) {
        Some(value) => Some((value, end)),
        None => None,
    }
}

/// Reads the variable at `pos`: any single letter.
pub fn scan_variable(s: &[u8], pos: usize) -> (r: Option<(Function, usize)>)
    requires
        pos <= s.len(),
    ensures
        match r {
            Some((f, end)) => variable_at(s@, pos as int) && f@ == crate::expressions::FunctionModel::JustX && end == pos + 1,
            None => !variable_at(s@, pos as int),
        },
{
    if pos < s.len() && ((65 <= s[pos] && s[pos] <= 90) || (97 <= s[pos] && s[pos] <= 122)) {
        Some((Function::JustX, pos + 1))
    } else {
        None
    }
}

} // verus!
