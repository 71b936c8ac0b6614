//! The grammar, as functions from a text and an offset to what is read
//! there.
//!
//! ```text
//! equation   = sum "=" spaces sum
//! expression = sum
//! sum        = product (("+" | "-") spaces product)*        left to right
//! product    = power (("*" | "/") spaces power)*            left to right
//! power      = primary ("^" spaces power)?                  right to left
//! primary    = ("(" sum ")" | term) spaces
//! term       = number? function?                            not both absent
//! function   = "log_" integer "(" term ")"
//!            | "rt_" integer "(" term ")"
//!            | "pow(" term "," spaces number ")"
//!            | letter
//! ```
//!
//! `^` binds tighter than `*` and `/`, and groups to the right: `2^3^2` is
//! `2^(3^2)`. Once the opening token of a function call or a parenthesis has
//! been read the construct is committed to: a failure inside it is the
//! failure of the whole text, and no other reading is tried.
//!
//! Each recognizer yields what it read and the number of bytes it read, or
//! the failure and the offset at which it was found.

use crate::expressions::{
    Connective, EquationModel, ErrorKind, ExpressionModel, FunctionModel, NumberModel,
    ParseError, TermModel,
};
use crate::lexical::{
    has_byte, integer_at, number_at, number_len, remaining, space_run, variable_at, MINUS,
};
use vstd::prelude::*;

verus! {

/// The character `(`.
pub const OPEN: u8 = 40;

/// The character `)`.
pub const CLOSE: u8 = 41;

/// The character `*`.
pub const STAR: u8 = 42;

/// The character `+`.
pub const PLUS: u8 = 43;

/// The character `,`.
pub const COMMA: u8 = 44;

/// The character `/`.
pub const SLASH: u8 = 47;

/// The character `=`.
pub const EQUALS: u8 = 61;

/// The character `^`.
pub const CARET: u8 = 94;

/// The failure of the given kind found at offset `pos`.
pub open spec fn fail<T>(kind: ErrorKind, pos: int) -> Result<T, ParseError> {
    Err(ParseError { kind, position: pos as usize })
}

/// The text `log_` stands at `pos`: the bytes 108, 111, 103, 95.
pub open spec fn starts_log(s: Seq<u8>, pos: int) -> bool {
    has_byte(s, pos, 108) && has_byte(s, pos + 1, 111) && has_byte(s, pos + 2, 103) && has_byte(
        s,
        pos + 3,
        95,
    )
}

/// The text `rt_` stands at `pos`: the bytes 114, 116, 95.
pub open spec fn starts_root(s: Seq<u8>, pos: int) -> bool {
    has_byte(s, pos, 114) && has_byte(s, pos + 1, 116) && has_byte(s, pos + 2, 95)
}

/// The text `pow(` stands at `pos`: the bytes 112, 111, 119, 40.
pub open spec fn starts_power(s: Seq<u8>, pos: int) -> bool {
    has_byte(s, pos, 112) && has_byte(s, pos + 1, 111) && has_byte(s, pos + 2, 119) && has_byte(
        s,
        pos + 3,
        OPEN,
    )
}

/// The whole-number parameter of `log_` or `rt_` and the parenthesis that
/// opens the argument, read at `pos`.
#[verifier::opaque]
pub open spec fn parameter_at(s: Seq<u8>, pos: int) -> Result<(u32, nat), ParseError> {
    match integer_at(s, pos) {
        None => fail(ErrorKind::MalformedNumber, pos),
        Some((value, len)) => if has_byte(s, pos + len, OPEN) {
            Ok((value, len + 1))
        } else {
            fail(ErrorKind::UnterminatedConstruct, pos + len)
        },
    }
}

/// What follows the argument of `pow(`: a comma, optional whitespace, the
/// exponent and the closing parenthesis, read at `pos`.
#[verifier::opaque]
pub open spec fn exponent_at(s: Seq<u8>, pos: int) -> Result<(NumberModel, nat), ParseError> {
    let spaces = space_run(s, pos + 1);
    let len = number_len(s, pos + 1 + spaces);
    if !has_byte(s, pos, COMMA) {
        fail(ErrorKind::UnterminatedConstruct, pos)
    } else if len == 0 {
        fail(ErrorKind::MalformedNumber, pos + 1 + spaces)
    } else if !has_byte(s, pos + 1 + spaces + len, CLOSE) {
        fail(ErrorKind::UnterminatedConstruct, pos + 1 + spaces + len)
    } else {
        Ok((number_at(s, pos + 1 + spaces), 1 + spaces + len + 1))
    }
}

/// The term at `pos`: an optional coefficient directly followed by an
/// optional function, at least one of the two.
#[verifier::opaque]
pub open spec fn term_at(s: Seq<u8>, pos: int) -> Result<(TermModel, nat), ParseError>
    decreases remaining(s, pos), 1int,
{
    let coefficient = number_len(s, pos);
    match function_at(s, pos + coefficient) {
        Err(e) => Err(e),
        Ok(None) => if coefficient == 0 {
            fail(ErrorKind::EmptyTerm, pos)
        } else {
            Ok((TermModel::Constant(number_at(s, pos)), coefficient))
        },
        Ok(Some((f, len))) => if coefficient == 0 {
            Ok((TermModel::FnOnly(Box::new(f)), len))
        } else {
            Ok((TermModel::Both(number_at(s, pos), Box::new(f)), coefficient + len))
        },
    }
}

/// The function at `pos`, `None` where none begins there. The alternatives
/// are tried in the order `log_`, `rt_`, `pow(`, letter.
#[verifier::opaque]
pub open spec fn function_at(s: Seq<u8>, pos: int) -> Result<
    Option<(FunctionModel, nat)>,
    ParseError,
>
    decreases remaining(s, pos), 0int,
{
    if starts_log(s, pos) || starts_root(s, pos) {
        let prefix: nat = if starts_log(s, pos) {
            4
        } else {
            3
        };
        match parameter_at(s, pos + prefix) {
            Err(e) => Err(e),
            Ok((parameter, head)) => match term_at(s, pos + prefix + head) {
                Err(e) => Err(e),
                Ok((argument, len)) => if has_byte(s, pos + prefix + head + len, CLOSE) {
                    Ok(
                        Some(
                            (
                                if starts_log(s, pos) {
                                    FunctionModel::Log(parameter, argument)
                                } else {
                                    FunctionModel::Root(parameter, argument)
                                },
                                prefix + head + len + 1,
                            ),
                        ),
                    )
                } else {
                    fail(ErrorKind::UnterminatedConstruct, pos + prefix + head + len)
                },
            },
        }
    } else if starts_power(s, pos) {
        match term_at(s, pos + 4) {
            Err(e) => Err(e),
            Ok((argument, len)) => match exponent_at(s, pos + 4 + len) {
                Err(e) => Err(e),
                Ok((exponent, tail)) => Ok(
                    Some((FunctionModel::Power(exponent, argument), 4 + len + tail)),
                ),
            },
        }
    } else if variable_at(s, pos) {
        Ok(Some((FunctionModel::JustX, 1)))
    } else {
        Ok(None)
    }
}

/// The operator of a sum at `pos`, if one stands there.
pub open spec fn additive_at(s: Seq<u8>, pos: int) -> Option<Connective> {
    if has_byte(s, pos, PLUS) {
        Some(Connective::Add)
    } else if has_byte(s, pos, MINUS) {
        Some(Connective::Subtract)
    } else {
        None
    }
}

/// The operator of a product at `pos`, if one stands there.
pub open spec fn multiplicative_at(s: Seq<u8>, pos: int) -> Option<Connective> {
    if has_byte(s, pos, STAR) {
        Some(Connective::Multiply)
    } else if has_byte(s, pos, SLASH) {
        Some(Connective::Divide)
    } else {
        None
    }
}

/// Two trees joined under an operator.
pub open spec fn pair(left: ExpressionModel, op: Connective, right: ExpressionModel)
    -> ExpressionModel {
    ExpressionModel::Pair(Box::new(left), op, Box::new(right))
}

/// The reading `r`, made `by` bytes behind the start, counted from the start.
pub open spec fn advance(r: Result<(ExpressionModel, nat), ParseError>, by: nat) -> Result<
    (ExpressionModel, nat),
    ParseError,
> {
    match r {
        Ok((tree, len)) => Ok((tree, by + len)),
        Err(e) => Err(e),
    }
}

/// The sum at `pos`.
#[verifier::opaque]
pub open spec fn sum_at(s: Seq<u8>, pos: int) -> Result<(ExpressionModel, nat), ParseError>
    decreases remaining(s, pos), 6int,
{
    match product_at(s, pos) {
        Err(e) => Err(e),
        Ok((first, len)) => advance(sum_rest(s, pos + len, first), len),
    }
}

/// The operators and operands that continue a sum at `pos`, folded onto
/// `left`, the tree of what was read so far.
#[verifier::opaque]
pub open spec fn sum_rest(s: Seq<u8>, pos: int, left: ExpressionModel) -> Result<
    (ExpressionModel, nat),
    ParseError,
>
    decreases remaining(s, pos), 5int,
{
    match additive_at(s, pos) {
        None => Ok((left, 0)),
        Some(op) => {
            let spaces = space_run(s, pos + 1);
            match product_at(s, pos + 1 + spaces) {
                Err(e) => Err(e),
                Ok((right, len)) => advance(
                    sum_rest(s, pos + 1 + spaces + len, pair(left, op, right)),
                    1 + spaces + len,
                ),
            }
        },
    }
}

/// The product at `pos`.
#[verifier::opaque]
pub open spec fn product_at(s: Seq<u8>, pos: int) -> Result<(ExpressionModel, nat), ParseError>
    decreases remaining(s, pos), 4int,
{
    match power_at(s, pos) {
        Err(e) => Err(e),
        Ok((first, len)) => advance(product_rest(s, pos + len, first), len),
    }
}

/// The operators and operands that continue a product at `pos`, folded onto
/// `left`.
#[verifier::opaque]
pub open spec fn product_rest(s: Seq<u8>, pos: int, left: ExpressionModel) -> Result<
    (ExpressionModel, nat),
    ParseError,
>
    decreases remaining(s, pos), 3int,
{
    match multiplicative_at(s, pos) {
        None => Ok((left, 0)),
        Some(op) => {
            let spaces = space_run(s, pos + 1);
            match power_at(s, pos + 1 + spaces) {
                Err(e) => Err(e),
                Ok((right, len)) => advance(
                    product_rest(s, pos + 1 + spaces + len, pair(left, op, right)),
                    1 + spaces + len,
                ),
            }
        },
    }
}

/// The power at `pos`: a primary, raised to the power that follows a `^`
/// where one stands behind it.
#[verifier::opaque]
pub open spec fn power_at(s: Seq<u8>, pos: int) -> Result<(ExpressionModel, nat), ParseError>
    decreases remaining(s, pos), 2int,
{
    match primary_at(s, pos) {
        Err(e) => Err(e),
        Ok((base, len)) => if has_byte(s, pos + len, CARET) {
            let spaces = space_run(s, pos + len + 1);
            match power_at(s, pos + len + 1 + spaces) {
                Err(e) => Err(e),
                Ok((exponent, rest)) => Ok(
                    (pair(base, Connective::Exponentiate, exponent), len + 1 + spaces + rest),
                ),
            }
        } else {
            Ok((base, len))
        },
    }
}

/// The primary at `pos`: a sum in parentheses or a term, with the whitespace
/// behind it.
#[verifier::opaque]
pub open spec fn primary_at(s: Seq<u8>, pos: int) -> Result<(ExpressionModel, nat), ParseError>
    decreases remaining(s, pos), 1int,
{
    if has_byte(s, pos, OPEN) {
        match sum_at(s, pos + 1) {
            Err(e) => Err(e),
            Ok((inner, len)) => if has_byte(s, pos + 1 + len, CLOSE) {
                Ok((inner, 1 + len + 1 + space_run(s, pos + 1 + len + 1)))
            } else {
                fail(ErrorKind::UnterminatedConstruct, pos + 1 + len)
            },
        }
    } else {
        match term_at(s, pos) {
            Err(e) => Err(e),
            Ok((t, len)) => Ok((ExpressionModel::Leaf(t), len + space_run(s, pos + len))),
        }
    }
}

/// The expression that the whole of `s` is.
pub open spec fn expression_of(s: Seq<u8>) -> Result<ExpressionModel, ParseError> {
    match sum_at(s, 0) {
        Err(e) => Err(e),
        Ok((tree, len)) => if len == s.len() {
            Ok(tree)
        } else {
            fail(ErrorKind::TrailingInput, len as int)
        },
    }
}

/// The equation that the whole of `s` is.
pub open spec fn equation_of(s: Seq<u8>) -> Result<EquationModel, ParseError> {
    match sum_at(s, 0) {
        Err(e) => Err(e),
        Ok((left, len)) => {
            let sign: int = len as int;
            let start: int = sign + 1 + space_run(s, sign + 1);
            if !has_byte(s, sign, EQUALS) {
                fail(ErrorKind::UnterminatedConstruct, sign)
            } else {
                match sum_at(s, start) {
                    Err(e) => Err(e),
                    Ok((right, rest)) => if start + rest == s.len() {
                        Ok(EquationModel { left, right })
                    } else {
                        fail(ErrorKind::TrailingInput, start + rest)
                    },
                }
            }
        },
    }
}

} // verus!
