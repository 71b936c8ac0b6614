//! Properties of the grammar that hold of every text.

use crate::expressions::{
    all_decimal, expression_wf, function_wf, term_wf, Connective, EquationModel, ErrorKind,
    ExpressionModel, NumberModel, ParseError, TermModel,
};
use crate::grammar::{
    additive_at, advance, equation_of, exponent_at, expression_of, function_at,
    multiplicative_at, pair, parameter_at, power_at, primary_at, product_at, product_rest,
    starts_log, starts_power, starts_root, sum_at, sum_rest, term_at, CARET, CLOSE, EQUALS,
    OPEN,
};
use crate::lexical::{
    digit_run, digits_at, fraction_len, has_byte, integer_at, is_digit, number_at, number_len,
    remaining, sign_len, space_run, DOT, MINUS,
};
use vstd::prelude::*;

verus! {

/// The bytes of `s` from `from` up to `to` are all digits.
pub open spec fn digits_between(s: Seq<u8>, from: int, to: int) -> bool {
    forall|i: int| from <= i < to ==> is_digit(#[trigger] s[i])
}

/// 1 where `s` begins with a minus sign, else 0.
pub open spec fn leading_sign(s: Seq<u8>) -> int {
    if s.len() > 0 && s[0] == MINUS {
        1
    } else {
        0
    }
}

/// `s` is, as a whole, a numeral whose whole part ends at `point`: an
/// optional minus sign, one or more digits up to `point`, and then either
/// nothing or a point followed by one or more digits.
pub open spec fn is_numeral(s: Seq<u8>, point: int) -> bool {
    &&& leading_sign(s) < point <= s.len()
    &&& digits_between(s, leading_sign(s), point)
    &&& (point == s.len() || (s[point] == DOT && point + 1 < s.len() && digits_between(
        s,
        point + 1,
        s.len() as int,
    )))
}

/// The numeral that such a text writes down: negative where it begins with a
/// minus sign, with the digits before `point` as its whole part and those
/// behind it as its fraction.
pub open spec fn numeral_of(s: Seq<u8>, point: int) -> NumberModel {
    let sign = leading_sign(s);
    let fraction: nat = if point < s.len() {
        (s.len() - point - 1) as nat
    } else {
        0
    };
    NumberModel {
        negative: sign == 1,
        whole: digits_at(s, sign, (point - sign) as nat),
        fraction: digits_at(s, point + 1, fraction),
    }
}

/// Where digits fill `from..to` and no digit stands at `to`, the run of
/// digits at `from` ends at `to`.
pub proof fn lemma_digit_run(s: Seq<u8>, from: int, to: int)
    requires
        0 <= from <= to <= s.len(),
        digits_between(s, from, to),
        to == s.len() || !is_digit(s[to]),
    ensures
        digit_run(s, from) == to - from,
    decreases to - from,
{
    if from < to {
        lemma_digit_run(s, from + 1, to);
    }
}

/// A text that is a numeral is an expression: the leaf that holds that
/// numeral as a constant.
pub proof fn numeral_is_constant(s: Seq<u8>, point: int)
    requires
        is_numeral(s, point),
    ensures
        expression_of(s) == Ok::<ExpressionModel, ParseError>(
            ExpressionModel::Leaf(TermModel::Constant(numeral_of(s, point))),
        ),
{
    let sign = leading_sign(s);
    let end = s.len() as int;
    assert(number_len(s, 0) == s.len()) by {
        reveal(number_len);
        assert(sign_len(s, 0) == sign);
        lemma_digit_run(s, sign, point);
        if point < s.len() {
            lemma_digit_run(s, point + 1, end);
            assert(fraction_len(s, point) == end - point - 1);
        }
    }
    assert(is_digit(s[sign]));
    assert(number_at(s, 0) == numeral_of(s, point)) by {
        reveal(number_at);
        lemma_digit_run(s, sign, point);
        if point < s.len() {
            lemma_digit_run(s, point + 1, end);
        }
    }
    let constant = TermModel::Constant(number_at(s, 0));
    assert(term_at(s, 0) == Ok::<(TermModel, nat), ParseError>((constant, s.len()))) by {
        reveal(term_at);
        reveal(function_at);
    }
    let leaf = ExpressionModel::Leaf(constant);
    let whole = Ok::<(ExpressionModel, nat), ParseError>((leaf, s.len()));
    assert(space_run(s, end) == 0);
    assert(primary_at(s, 0) == whole) by {
        reveal(primary_at);
        reveal(sum_at);
    }
    assert(power_at(s, 0) == whole) by {
        reveal(power_at);
        reveal(primary_at);
    }
    assert(product_at(s, 0) == whole) by {
        reveal(product_at);
        reveal(power_at);
        reveal(product_rest);
    }
    assert(sum_at(s, 0) == whole) by {
        reveal(sum_at);
        reveal(product_at);
        reveal(sum_rest);
    }
}

/// A run of digits consists of digits and ends within the text.
pub proof fn lemma_digit_run_bounds(s: Seq<u8>, pos: int)
    requires
        0 <= pos <= s.len(),
    ensures
        pos + digit_run(s, pos) <= s.len(),
        digits_between(s, pos, pos + digit_run(s, pos)),
        all_decimal(digits_at(s, pos, digit_run(s, pos))),
    decreases s.len() - pos,
{
    if pos < s.len() && is_digit(s[pos]) {
        lemma_digit_run_bounds(s, pos + 1);
    }
}

/// A run of whitespace ends within the text.
pub proof fn lemma_space_run_bounds(s: Seq<u8>, pos: int)
    requires
        0 <= pos <= s.len(),
    ensures
        pos + space_run(s, pos) <= s.len(),
    decreases s.len() - pos,
{
    if pos < s.len() && space_run(s, pos) > 0 {
        lemma_space_run_bounds(s, pos + 1);
    }
}

/// Where a numeral stands, it is well formed and ends within the text.
pub proof fn lemma_number_sound(s: Seq<u8>, pos: int)
    requires
        0 <= pos <= s.len(),
    ensures
        pos + number_len(s, pos) <= s.len(),
        number_len(s, pos) > 0 ==> number_at(s, pos).wf(),
{
    reveal(number_len);
    reveal(number_at);
    let sign = sign_len(s, pos);
    lemma_digit_run_bounds(s, pos + sign);
    let point = pos + sign + digit_run(s, pos + sign);
    if point < s.len() {
        lemma_digit_run_bounds(s, point + 1);
    }
}

/// What a reading of a term or an expression promises: on success a value in
/// which every numeral is well formed, read from at least one byte and ending
/// within the text; on failure any kind but an unknown operator.
pub open spec fn sound<T>(
    r: Result<(T, nat), ParseError>,
    s: Seq<u8>,
    pos: int,
    well_formed: spec_fn(T) -> bool,
) -> bool {
    match r {
        Ok((value, len)) => well_formed(value) && len > 0 && pos + len <= s.len(),
        Err(e) => e.kind != ErrorKind::UnknownOperator,
    }
}

/// The reading of a term is sound.
pub proof fn lemma_term_sound(s: Seq<u8>, pos: int)
    requires
        0 <= pos <= s.len(),
    ensures
        sound(term_at(s, pos), s, pos, |t: TermModel| term_wf(t)),
    decreases remaining(s, pos), 1int,
{
    reveal(term_at);
    reveal(function_at);
    lemma_number_sound(s, pos);
    lemma_function_sound(s, pos + number_len(s, pos));
}

/// The reading of a function, where one is read, is sound.
pub proof fn lemma_function_sound(s: Seq<u8>, pos: int)
    requires
        0 <= pos <= s.len(),
    ensures
        match function_at(s, pos) {
            Ok(Some((f, len))) => function_wf(f) && len > 0 && pos + len <= s.len(),
            Ok(None) => true,
            Err(e) => e.kind != ErrorKind::UnknownOperator,
        },
    decreases remaining(s, pos), 0int,
{
    reveal(function_at);
    reveal(term_at);
    reveal(parameter_at);
    reveal(exponent_at);
    reveal(integer_at);
    if starts_log(s, pos) || starts_root(s, pos) {
        let prefix: nat = if starts_log(s, pos) {
            4
        } else {
            3
        };
        lemma_digit_run_bounds(s, pos + prefix);
        match parameter_at(s, pos + prefix) {
            Ok((_, head)) => {
                lemma_term_sound(s, pos + prefix + head);
            },
            Err(_) => {},
        }
    } else if starts_power(s, pos) {
        lemma_term_sound(s, pos + 4);
        match term_at(s, pos + 4) {
            Ok((_, len)) => {
                let comma = pos + 4 + len;
                if comma < s.len() {
                    lemma_space_run_bounds(s, comma + 1);
                    lemma_number_sound(s, comma + 1 + space_run(s, comma + 1));
                }
            },
            Err(_) => {},
        }
    }
}

/// The reading of a primary is sound.
pub proof fn lemma_primary_sound(s: Seq<u8>, pos: int)
    requires
        0 <= pos <= s.len(),
    ensures
        sound(primary_at(s, pos), s, pos, |e: ExpressionModel| expression_wf(e)),
    decreases remaining(s, pos), 1int,
{
    reveal(primary_at);
    reveal(sum_at);
    if pos < s.len() && s[pos] == OPEN {
        lemma_sum_sound(s, pos + 1);
        match sum_at(s, pos + 1) {
            Ok((_, len)) => {
                if pos + 1 + len < s.len() {
                    lemma_space_run_bounds(s, pos + 1 + len + 1);
                }
            },
            Err(_) => {},
        }
    } else {
        lemma_term_sound(s, pos);
        match term_at(s, pos) {
            Ok((_, len)) => {
                lemma_space_run_bounds(s, pos + len);
            },
            Err(_) => {},
        }
    }
}

/// The reading of a power is sound.
pub proof fn lemma_power_sound(s: Seq<u8>, pos: int)
    requires
        0 <= pos <= s.len(),
    ensures
        sound(power_at(s, pos), s, pos, |e: ExpressionModel| expression_wf(e)),
    decreases remaining(s, pos), 2int,
{
    reveal(power_at);
    reveal(primary_at);
    lemma_primary_sound(s, pos);
    match primary_at(s, pos) {
        Ok((_, len)) => {
            if pos + len < s.len() {
                lemma_space_run_bounds(s, pos + len + 1);
                lemma_power_sound(s, pos + len + 1 + space_run(s, pos + len + 1));
            }
        },
        Err(_) => {},
    }
}

/// What continues a product onto a well-formed tree yields a well-formed
/// tree and ends within the text.
pub proof fn lemma_product_rest_sound(s: Seq<u8>, pos: int, left: ExpressionModel)
    requires
        0 <= pos <= s.len(),
        expression_wf(left),
    ensures
        match product_rest(s, pos, left) {
            Ok((tree, len)) => expression_wf(tree) && pos + len <= s.len(),
            Err(e) => e.kind != ErrorKind::UnknownOperator,
        },
    decreases remaining(s, pos), 3int,
{
    reveal(product_rest);
    reveal(power_at);
    match multiplicative_at(s, pos) {
        None => {},
        Some(op) => {
            lemma_space_run_bounds(s, pos + 1);
            let start = pos + 1 + space_run(s, pos + 1);
            lemma_power_sound(s, start);
            match power_at(s, start) {
                Ok((right, len)) => {
                    lemma_product_rest_sound(s, start + len, pair(left, op, right));
                },
                Err(_) => {},
            }
        },
    }
}

/// The reading of a product is sound.
pub proof fn lemma_product_sound(s: Seq<u8>, pos: int)
    requires
        0 <= pos <= s.len(),
    ensures
        sound(product_at(s, pos), s, pos, |e: ExpressionModel| expression_wf(e)),
    decreases remaining(s, pos), 4int,
{
    reveal(product_at);
    reveal(power_at);
    reveal(product_rest);
    lemma_power_sound(s, pos);
    match power_at(s, pos) {
        Ok((first, len)) => {
            lemma_product_rest_sound(s, pos + len, first);
        },
        Err(_) => {},
    }
}

/// What continues a sum onto a well-formed tree yields a well-formed tree
/// and ends within the text.
pub proof fn lemma_sum_rest_sound(s: Seq<u8>, pos: int, left: ExpressionModel)
    requires
        0 <= pos <= s.len(),
        expression_wf(left),
    ensures
        match sum_rest(s, pos, left) {
            Ok((tree, len)) => expression_wf(tree) && pos + len <= s.len(),
            Err(e) => e.kind != ErrorKind::UnknownOperator,
        },
    decreases remaining(s, pos), 5int,
{
    reveal(sum_rest);
    reveal(product_at);
    match additive_at(s, pos) {
        None => {},
        Some(op) => {
            lemma_space_run_bounds(s, pos + 1);
            let start = pos + 1 + space_run(s, pos + 1);
            lemma_product_sound(s, start);
            match product_at(s, start) {
                Ok((right, len)) => {
                    lemma_sum_rest_sound(s, start + len, pair(left, op, right));
                },
                Err(_) => {},
            }
        },
    }
}

/// The reading of a sum is sound.
pub proof fn lemma_sum_sound(s: Seq<u8>, pos: int)
    requires
        0 <= pos <= s.len(),
    ensures
        sound(sum_at(s, pos), s, pos, |e: ExpressionModel| expression_wf(e)),
    decreases remaining(s, pos), 6int,
{
    reveal(sum_at);
    reveal(product_at);
    reveal(sum_rest);
    lemma_product_sound(s, pos);
    match product_at(s, pos) {
        Ok((first, len)) => {
            lemma_sum_rest_sound(s, pos + len, first);
        },
        Err(_) => {},
    }
}

/// Every numeral in a parsed expression is well formed, and no text fails
/// to parse for an unknown operator: the grammar reads only operators that
/// it knows.
pub proof fn expression_is_sound(s: Seq<u8>)
    ensures
        match expression_of(s) {
            Ok(tree) => expression_wf(tree),
            Err(e) => e.kind != ErrorKind::UnknownOperator,
        },
{
    lemma_sum_sound(s, 0);
}

/// Every numeral on either side of a parsed equation is well formed, and no
/// text fails to parse as an equation for an unknown operator.
pub proof fn equation_is_sound(s: Seq<u8>)
    ensures
        match equation_of(s) {
            Ok(equation) => expression_wf(equation.left) && expression_wf(equation.right),
            Err(e) => e.kind != ErrorKind::UnknownOperator,
        },
{
    lemma_sum_sound(s, 0);
    match sum_at(s, 0) {
        Ok((_, len)) => {
            let sign: int = len as int;
            if sign < s.len() {
                lemma_space_run_bounds(s, sign + 1);
                lemma_sum_sound(s, sign + 1 + space_run(s, sign + 1));
            }
        },
        Err(_) => {},
    }
}

/// The offset of the operand behind the operator at `pos`: past the operator
/// and the whitespace that follows it.
pub open spec fn operand_after(s: Seq<u8>, pos: int) -> int {
    pos + 1 + space_run(s, pos + 1)
}

/// One step of the fold of a sum. Where no `+` or `-` stands at `pos` the sum
/// ends with the tree read so far. Where one does, the product behind it is
/// joined to the right of that tree, and the fold goes on behind the product.
pub proof fn lemma_sum_step(s: Seq<u8>, pos: int, left: ExpressionModel)
    ensures
        match additive_at(s, pos) {
            None => sum_rest(s, pos, left) == Ok::<(ExpressionModel, nat), ParseError>(
                (left, 0),
            ),
            Some(op) => {
                let spaces = space_run(s, pos + 1);
                match product_at(s, pos + 1 + spaces) {
                    Err(e) => sum_rest(s, pos, left) == Err::<(ExpressionModel, nat), ParseError>(
                        e,
                    ),
                    Ok((right, len)) => sum_rest(s, pos, left) == advance(
                        sum_rest(s, pos + 1 + spaces + len, pair(left, op, right)),
                        1 + spaces + len,
                    ),
                }
            },
        },
{
    reveal(sum_rest);
    reveal(product_at);
}

/// One step of the fold of a product, as for a sum, with `*` and `/` for
/// operators and powers for operands.
pub proof fn lemma_product_step(s: Seq<u8>, pos: int, left: ExpressionModel)
    ensures
        match multiplicative_at(s, pos) {
            None => product_rest(s, pos, left) == Ok::<(ExpressionModel, nat), ParseError>(
                (left, 0),
            ),
            Some(op) => {
                let spaces = space_run(s, pos + 1);
                match power_at(s, pos + 1 + spaces) {
                    Err(e) => product_rest(s, pos, left) == Err::<
                        (ExpressionModel, nat),
                        ParseError,
                    >(e),
                    Ok((right, len)) => product_rest(s, pos, left) == advance(
                        product_rest(s, pos + 1 + spaces + len, pair(left, op, right)),
                        1 + spaces + len,
                    ),
                }
            },
        },
{
    reveal(product_rest);
    reveal(power_at);
}

/// A sum is its first product with what continues it folded on.
pub proof fn lemma_sum_start(s: Seq<u8>, pos: int)
    ensures
        sum_at(s, pos) == match product_at(s, pos) {
            Err(e) => Err::<(ExpressionModel, nat), ParseError>(e),
            Ok((first, len)) => advance(sum_rest(s, pos + len, first), len),
        },
{
    reveal(sum_at);
    reveal(product_at);
    reveal(sum_rest);
}

/// A product is its first power with what continues it folded on.
pub proof fn lemma_product_start(s: Seq<u8>, pos: int)
    ensures
        product_at(s, pos) == match power_at(s, pos) {
            Err(e) => Err::<(ExpressionModel, nat), ParseError>(e),
            Ok((first, len)) => advance(product_rest(s, pos + len, first), len),
        },
{
    reveal(product_at);
    reveal(power_at);
    reveal(product_rest);
}

/// Sums group to the left: three products `a`, `b`, `c` with two additive
/// operators between them and none behind them read as `(a op1 b) op2 c`.
pub proof fn sum_groups_left(
    s: Seq<u8>,
    pos: int,
    a: (ExpressionModel, nat),
    op1: Connective,
    b: (ExpressionModel, nat),
    op2: Connective,
    c: (ExpressionModel, nat),
)
    requires
        product_at(s, pos) == Ok::<(ExpressionModel, nat), ParseError>(a),
        additive_at(s, pos + a.1) == Some(op1),
        product_at(s, operand_after(s, pos + a.1)) == Ok::<(ExpressionModel, nat), ParseError>(b),
        additive_at(s, operand_after(s, pos + a.1) + b.1) == Some(op2),
        product_at(s, operand_after(s, operand_after(s, pos + a.1) + b.1)) == Ok::<
            (ExpressionModel, nat),
            ParseError,
        >(c),
        additive_at(s, operand_after(s, operand_after(s, pos + a.1) + b.1) + c.1).is_none(),
    ensures
        sum_at(s, pos) == Ok::<(ExpressionModel, nat), ParseError>(
            (
                pair(pair(a.0, op1, b.0), op2, c.0),
                (operand_after(s, operand_after(s, pos + a.1) + b.1) + c.1 - pos) as nat,
            ),
        ),
{
    let second = operand_after(s, pos + a.1);
    let third = operand_after(s, second + b.1);
    lemma_sum_step(s, pos + a.1, a.0);
    lemma_sum_step(s, second + b.1, pair(a.0, op1, b.0));
    lemma_sum_step(s, third + c.1, pair(pair(a.0, op1, b.0), op2, c.0));
    lemma_sum_start(s, pos);
}

/// Products group to the left: three powers `a`, `b`, `c` with two
/// multiplicative operators between them and none behind them read as
/// `(a op1 b) op2 c`.
pub proof fn product_groups_left(
    s: Seq<u8>,
    pos: int,
    a: (ExpressionModel, nat),
    op1: Connective,
    b: (ExpressionModel, nat),
    op2: Connective,
    c: (ExpressionModel, nat),
)
    requires
        power_at(s, pos) == Ok::<(ExpressionModel, nat), ParseError>(a),
        multiplicative_at(s, pos + a.1) == Some(op1),
        power_at(s, operand_after(s, pos + a.1)) == Ok::<(ExpressionModel, nat), ParseError>(b),
        multiplicative_at(s, operand_after(s, pos + a.1) + b.1) == Some(op2),
        power_at(s, operand_after(s, operand_after(s, pos + a.1) + b.1)) == Ok::<
            (ExpressionModel, nat),
            ParseError,
        >(c),
        multiplicative_at(s, operand_after(s, operand_after(s, pos + a.1) + b.1) + c.1).is_none(),
    ensures
        product_at(s, pos) == Ok::<(ExpressionModel, nat), ParseError>(
            (
                pair(pair(a.0, op1, b.0), op2, c.0),
                (operand_after(s, operand_after(s, pos + a.1) + b.1) + c.1 - pos) as nat,
            ),
        ),
{
    let second = operand_after(s, pos + a.1);
    let third = operand_after(s, second + b.1);
    lemma_product_step(s, pos + a.1, a.0);
    lemma_product_step(s, second + b.1, pair(a.0, op1, b.0));
    lemma_product_step(s, third + c.1, pair(pair(a.0, op1, b.0), op2, c.0));
    lemma_product_start(s, pos);
}

/// Powers group to the right: three primaries `a`, `b`, `c` with `^` between
/// them and none behind them read as `a ^ (b ^ c)`.
pub proof fn power_groups_right(
    s: Seq<u8>,
    pos: int,
    a: (ExpressionModel, nat),
    b: (ExpressionModel, nat),
    c: (ExpressionModel, nat),
)
    requires
        primary_at(s, pos) == Ok::<(ExpressionModel, nat), ParseError>(a),
        has_byte(s, pos + a.1, CARET),
        primary_at(s, operand_after(s, pos + a.1)) == Ok::<(ExpressionModel, nat), ParseError>(
            b,
        ),
        has_byte(s, operand_after(s, pos + a.1) + b.1, CARET),
        primary_at(s, operand_after(s, operand_after(s, pos + a.1) + b.1)) == Ok::<
            (ExpressionModel, nat),
            ParseError,
        >(c),
        !has_byte(s, operand_after(s, operand_after(s, pos + a.1) + b.1) + c.1, CARET),
    ensures
        power_at(s, pos) == Ok::<(ExpressionModel, nat), ParseError>(
            (
                pair(a.0, Connective::Exponentiate, pair(b.0, Connective::Exponentiate, c.0)),
                (operand_after(s, operand_after(s, pos + a.1) + b.1) + c.1 - pos) as nat,
            ),
        ),
{
    let second = operand_after(s, pos + a.1);
    let third = operand_after(s, second + b.1);
    assert(power_at(s, third) == Ok::<(ExpressionModel, nat), ParseError>(c)) by {
        reveal(power_at);
        reveal(primary_at);
    }
    assert(power_at(s, second) == Ok::<(ExpressionModel, nat), ParseError>(
        (pair(b.0, Connective::Exponentiate, c.0), (third + c.1 - second) as nat),
    )) by {
        reveal(power_at);
        reveal(primary_at);
    }
    reveal(power_at);
    reveal(primary_at);
}

/// Multiplication binds tighter than addition: behind an additive operator
/// the whole product is the right operand. A product `a`, an additive
/// operator, and two powers `b`, `c` with a multiplicative operator between
/// them and no operator of either kind behind them read as `a op1 (b op2 c)`.
pub proof fn product_binds_tighter(
    s: Seq<u8>,
    pos: int,
    a: (ExpressionModel, nat),
    op1: Connective,
    b: (ExpressionModel, nat),
    op2: Connective,
    c: (ExpressionModel, nat),
)
    requires
        product_at(s, pos) == Ok::<(ExpressionModel, nat), ParseError>(a),
        additive_at(s, pos + a.1) == Some(op1),
        power_at(s, operand_after(s, pos + a.1)) == Ok::<(ExpressionModel, nat), ParseError>(b),
        multiplicative_at(s, operand_after(s, pos + a.1) + b.1) == Some(op2),
        power_at(s, operand_after(s, operand_after(s, pos + a.1) + b.1)) == Ok::<
            (ExpressionModel, nat),
            ParseError,
        >(c),
        multiplicative_at(s, operand_after(s, operand_after(s, pos + a.1) + b.1) + c.1).is_none(),
        additive_at(s, operand_after(s, operand_after(s, pos + a.1) + b.1) + c.1).is_none(),
    ensures
        sum_at(s, pos) == Ok::<(ExpressionModel, nat), ParseError>(
            (
                pair(a.0, op1, pair(b.0, op2, c.0)),
                (operand_after(s, operand_after(s, pos + a.1) + b.1) + c.1 - pos) as nat,
            ),
        ),
{
    let second = operand_after(s, pos + a.1);
    let third = operand_after(s, second + b.1);
    let right = pair(b.0, op2, c.0);
    assert(product_at(s, second) == Ok::<(ExpressionModel, nat), ParseError>(
        (right, (third + c.1 - second) as nat),
    )) by {
        lemma_product_step(s, second + b.1, b.0);
        lemma_product_step(s, third + c.1, right);
        lemma_product_start(s, second);
    }
    lemma_sum_step(s, pos + a.1, a.0);
    lemma_sum_step(s, third + c.1, pair(a.0, op1, right));
    lemma_sum_start(s, pos);
}

/// Parentheses override precedence: a sum between parentheses is a primary,
/// so it is one operand of whatever operator stands beside it.
pub proof fn parenthesized_sum_is_primary(s: Seq<u8>, pos: int, inner: (ExpressionModel, nat))
    requires
        has_byte(s, pos, OPEN),
        sum_at(s, pos + 1) == Ok::<(ExpressionModel, nat), ParseError>(inner),
        has_byte(s, pos + 1 + inner.1, CLOSE),
    ensures
        primary_at(s, pos) == Ok::<(ExpressionModel, nat), ParseError>(
            (inner.0, 1 + inner.1 + 1 + space_run(s, pos + 1 + inner.1 + 1)),
        ),
{
    reveal(primary_at);
    reveal(sum_at);
}

/// An equation splits at its equals sign: a sum from the start of the text,
/// `=`, and a sum that ends with the text are the equation's two sides.
pub proof fn equation_splits(
    s: Seq<u8>,
    left: (ExpressionModel, nat),
    right: (ExpressionModel, nat),
)
    requires
        sum_at(s, 0) == Ok::<(ExpressionModel, nat), ParseError>(left),
        has_byte(s, left.1 as int, EQUALS),
        sum_at(s, operand_after(s, left.1 as int)) == Ok::<(ExpressionModel, nat), ParseError>(
            right,
        ),
        operand_after(s, left.1 as int) + right.1 == s.len(),
    ensures
        equation_of(s) == Ok::<EquationModel, ParseError>(
            EquationModel { left: left.0, right: right.0 },
        ),
{
}

} // verus!
