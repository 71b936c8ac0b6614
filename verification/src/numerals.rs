//! Numerals written out: the text of a [`Number`], which reads back as the
//! same number.

use crate::expressions::{
    all_decimal, ExpressionModel, Number, NumberModel, ParseError, TermModel,
};
use crate::grammar::expression_of;
use crate::laws::{digits_between, is_numeral, leading_sign, numeral_is_constant, numeral_of};
use crate::lexical::{is_digit, DIGIT_ZERO, DOT, MINUS};
use vstd::prelude::*;

verus! {

/// The characters `0` to `9` for a string of digit values.
pub open spec fn digit_bytes(digits: Seq<u8>) -> Seq<u8> {
    Seq::new(digits.len(), |i: int| (digits[i] + 48) as u8)
}

/// A minus sign for a negative numeral, nothing otherwise.
pub open spec fn sign_text(negative: bool) -> Seq<u8> {
    if negative {
        seq![MINUS]
    } else {
        Seq::empty()
    }
}

/// A point and the fraction digits, nothing where there are none.
pub open spec fn fraction_text(fraction: Seq<u8>) -> Seq<u8> {
    if fraction.len() > 0 {
        seq![DOT] + digit_bytes(fraction)
    } else {
        Seq::empty()
    }
}

/// The text of a numeral: its sign, its whole part, and its fraction behind
/// a point where it has one.
pub open spec fn numeral_text(n: NumberModel) -> Seq<u8> {
    sign_text(n.negative) + digit_bytes(n.whole) + fraction_text(n.fraction)
}

/// The offset in a numeral's text at which its whole part ends.
pub open spec fn point_of(n: NumberModel) -> int {
    (sign_text(n.negative).len() + n.whole.len()) as int
}

/// Appends the characters of a string of digit values.
fn push_digits(out: &mut Vec<u8>, digits: &Vec<u8>)
    requires
        all_decimal(digits@),
    ensures
        final(out)@ == old(out)@ + digit_bytes(digits@),
{
    let ghost before = out@;
    let mut i: usize = 0;
    while i < digits.len()
        invariant
            i <= digits.len(),
            all_decimal(digits@),
            out@ =~= before + digit_bytes(digits@.take(i as int)),
        decreases digits.len() - i,
    {
        out.push(digits[i] + DIGIT_ZERO);
        i += 1;
    }
    assert(digits@.take(i as int) =~= digits@);
}

/// Whether every entry is a digit value.
fn decimal_only(digits: &Vec<u8>) -> (r: bool)
    ensures
        r == all_decimal(digits@),
{
    let mut i: usize = 0;
    while i < digits.len()
        invariant
            i <= digits.len(),
            all_decimal(digits@.take(i as int)),
        decreases digits.len() - i,
    {
        if digits[i] > 9 {
            return false;
        }
        assert(digits@.take(i + 1) =~= digits@.take(i as int).push(digits@[i as int]));
        i += 1;
    }
    assert(digits@.take(i as int) =~= digits@);
    true
}

impl Number {
    /// Whether the number is a numeral: at least one digit before the point,
    /// and every entry a digit value.
    pub fn is_well_formed(&self) -> (r: bool)
        ensures
            r == self.wf(),
    {
        self.whole.len() >= 1 && decimal_only(&self.whole) && decimal_only(&self.fraction)
    }

    /// The numeral as ASCII text.
    pub fn text(&self) -> (r: Vec<u8>)
        requires
            self.wf(),
        ensures
            r@ == numeral_text(self@),
    {
        let mut out: Vec<u8> = Vec::new();
        if self.negative {
            out.push(MINUS);
        }
        assert(out@ =~= sign_text(self.negative));
        push_digits(&mut out, &self.whole);
        if self.fraction.len() > 0 {
            out.push(DOT);
            push_digits(&mut out, &self.fraction);
            assert(out@ =~= numeral_text(self@));
        } else {
            assert(out@ =~= numeral_text(self@));
        }
        out
    }
}

/// The text of a well-formed numeral is a numeral that denotes it, so it
/// parses to the leaf that holds it as a constant.
pub proof fn text_reads_back(n: NumberModel)
    requires
        n.wf(),
    ensures
        is_numeral(numeral_text(n), point_of(n)),
        numeral_of(numeral_text(n), point_of(n)) == n,
        expression_of(numeral_text(n)) == Ok::<ExpressionModel, ParseError>(
            ExpressionModel::Leaf(TermModel::Constant(n)),
        ),
{
    let t = numeral_text(n);
    let sign: int = sign_text(n.negative).len() as int;
    let point = sign + n.whole.len();
    assert(forall|i: int| sign <= i < point ==> t[i] == (n.whole[i - sign] + 48) as u8);
    assert(n.fraction.len() > 0 ==> t[point] == DOT);
    assert(forall|i: int|
        point < i < t.len() ==> t[i] == (n.fraction[i - point - 1] + 48) as u8);
    assert(is_digit(t[sign]));
    assert(leading_sign(t) == sign);
    assert(digits_between(t, sign, point));
    assert(n.fraction.len() > 0 ==> digits_between(t, point + 1, t.len() as int));
    assert(numeral_of(t, point).whole =~= n.whole);
    assert(numeral_of(t, point).fraction =~= n.fraction);
    numeral_is_constant(t, point);
}

} // verus!
