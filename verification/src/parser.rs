//! The parser: executable routines, each proved to read exactly what the
//! grammar prescribes at its offset.

use crate::expressions::{
    expression_wf, Equation, EquationModel, ErrorKind, ExpressionModel, ExpressionNode,
    Function, FunctionModel, Number, ParseError, Term,
};
use crate::grammar::{
    advance, equation_of, exponent_at, expression_of, function_at, parameter_at,
    power_at, primary_at, product_at, product_rest, starts_log, starts_power, starts_root,
    sum_at, sum_rest, term_at, CARET, CLOSE, COMMA, EQUALS, OPEN, PLUS, SLASH, STAR,
};
use crate::laws::{equation_is_sound, expression_is_sound, lemma_product_step, lemma_sum_step};
use crate::lexical::{has_byte, scan_integer, scan_number, scan_variable, skip_spaces, MINUS};
use vstd::prelude::*;
use vstd::string::StringSliceAdditionalSpecFns;

verus! {

/// The result `r` of an executable routine is the reading `expected` of a
/// text of `limit` bytes at `pos`: on success the same value, ending as many
/// bytes behind `pos` as were read and within the text; on failure the same
/// failure, found within the text.
pub open spec fn agrees<T: View>(
    r: Result<(T, usize), ParseError>,
    expected: Result<(T::V, nat), ParseError>,
    pos: int,
    limit: int,
) -> bool {
    match r {
        Ok((value, end)) => pos <= end <= limit && expected == Ok::<(T::V, nat), ParseError>(
            (value@, (end - pos) as nat),
        ),
        Err(e) => expected == Err::<(T::V, nat), ParseError>(e) && e.position <= limit,
    }
}

/// Whether the byte `b` stands at offset `pos`.
pub fn byte_is(s: &[u8], pos: usize, b: u8) -> (r: bool)
    ensures
        r == has_byte(s@, pos as int, b),
{
    pos < s.len() && s[pos] == b
}

/// Whether `log_` stands at `pos`.
fn at_log(s: &[u8], pos: usize) -> (r: bool)
    requires
        pos <= s.len(),
    ensures
        r == starts_log(s@, pos as int),
{
    s.len() - pos >= 4 && s[pos] == 108 && s[pos + 1] == 111 && s[pos + 2] == 103 && s[pos + 3]
        == 95
}

/// Whether `rt_` stands at `pos`.
fn at_root(s: &[u8], pos: usize) -> (r: bool)
    requires
        pos <= s.len(),
    ensures
        r == starts_root(s@, pos as int),
{
    s.len() - pos >= 3 && s[pos] == 114 && s[pos + 1] == 116 && s[pos + 2] == 95
}

/// Whether `pow(` stands at `pos`.
fn at_power(s: &[u8], pos: usize) -> (r: bool)
    requires
        pos <= s.len(),
    ensures
        r == starts_power(s@, pos as int),
{
    s.len() - pos >= 4 && s[pos] == 112 && s[pos + 1] == 111 && s[pos + 2] == 119 && s[pos + 3]
        == OPEN
}

/// Reads the whole-number parameter of `log_` or `rt_` and the opening
/// parenthesis behind it.
pub fn parse_parameter(s: &[u8], pos: usize) -> (r: Result<(u32, usize), ParseError>)
    requires
        pos <= s.len(),
    ensures
        match r {
            Ok((value, end)) => pos <= end <= s.len() && parameter_at(s@, pos as int) == Ok::<
                (u32, nat),
                ParseError,
            >((value, (end - pos) as nat)),
            Err(e) => parameter_at(s@, pos as int) == Err::<(u32, nat), ParseError>(e)
                && e.position <= s.len(),
        },
{
    proof {
        reveal(parameter_at);
    }
    match scan_integer(s, pos) {
        None => Err(ParseError { kind: ErrorKind::MalformedNumber, position: pos }),
        Some((value, end)) => {
            if byte_is(s, end, OPEN) {
                Ok((value, end + 1))
            } else {
                Err(ParseError { kind: ErrorKind::UnterminatedConstruct, position: end })
            }
        },
    }
}

/// Reads what follows the argument of `pow(`: the comma, the exponent and the
/// closing parenthesis.
pub fn parse_exponent(s: &[u8], pos: usize) -> (r: Result<(Number, usize), ParseError>)
    requires
        pos <= s.len(),
    ensures
        agrees(r, exponent_at(s@, pos as int), pos as int, s.len() as int),
        r matches Ok((value, _)) ==> value.wf(),
{
    proof {
        reveal(exponent_at);
    }
    if !byte_is(s, pos, COMMA) {
        return Err(ParseError { kind: ErrorKind::UnterminatedConstruct, position: pos });
    }
    let start = skip_spaces(s, pos + 1);
    match scan_number(s, start) {
        None => Err(ParseError { kind: ErrorKind::MalformedNumber, position: start }),
        Some((value, end)) => {
            if byte_is(s, end, CLOSE) {
                Ok((value, end + 1))
            } else {
                Err(ParseError { kind: ErrorKind::UnterminatedConstruct, position: end })
            }
        },
    }
}

/// Reads the term at `pos`.
pub fn parse_term(s: &[u8], pos: usize) -> (r: Result<(Term, usize), ParseError>)
    requires
        pos <= s.len(),
    ensures
        agrees(r, term_at(s@, pos as int), pos as int, s.len() as int),
    decreases s.len() - pos, 1int,
{
    proof {
        reveal(term_at);
        reveal(function_at);
    }
    match scan_number(s, pos) {
        None => match parse_function(s, pos) {
            Err(e) => Err(e),
            Ok(None) => Err(ParseError { kind: ErrorKind::EmptyTerm, position: pos }),
            Ok(Some((f, end))) => Ok((Term::FnOnly(Box::new(f)), end)),
        },
        Some((coefficient, next)) => match parse_function(s, next) {
            Err(e) => Err(e),
            Ok(None) => Ok((Term::Constant(coefficient), next)),
            Ok(Some((f, end))) => Ok((Term::Both(coefficient, Box::new(f)), end)),
        },
    }
}

/// Reads the function at `pos`; `Ok(None)` where none begins there.
pub fn parse_function(s: &[u8], pos: usize) -> (r: Result<Option<(Function, usize)>, ParseError>)
    requires
        pos <= s.len(),
    ensures
        match r {
            Ok(Some((f, end))) => pos < end <= s.len() && function_at(s@, pos as int) == Ok::<
                Option<(FunctionModel, nat)>,
                ParseError,
            >(Some((f@, (end - pos) as nat))),
            Ok(None) => function_at(s@, pos as int) == Ok::<
                Option<(FunctionModel, nat)>,
                ParseError,
            >(None),
            Err(e) => function_at(s@, pos as int) == Err::<
                Option<(FunctionModel, nat)>,
                ParseError,
            >(e) && e.position <= s.len(),
        },
    decreases s.len() - pos, 0int,
{
    proof {
        reveal(function_at);
        reveal(term_at);
    }
    let log = at_log(s, pos);
    if log || at_root(s, pos) {
        let prefix: usize = if log {
            4
        } else {
            3
        };
        let (parameter, start) = match parse_parameter(s, pos + prefix) {
            Err(e) => { return Err(e); },
            Ok(head) => head,
        };
        let (argument, end) = match parse_term(s, start) {
            Err(e) => { return Err(e); },
            Ok(read) => read,
        };
        if !byte_is(s, end, CLOSE) {
            return Err(ParseError { kind: ErrorKind::UnterminatedConstruct, position: end });
        }
        let f = if log {
            Function::Log(parameter, argument)
        } else {
            Function::Root(parameter, argument)
        };
        Ok(Some((f, end + 1)))
    } else if at_power(s, pos) {
        let (argument, next) = match parse_term(s, pos + 4) {
            Err(e) => { return Err(e); },
            Ok(read) => read,
        };
        match parse_exponent(s, next) {
            Err(e) => Err(e),
            Ok((exponent, end)) => Ok(Some((Function::Power(exponent, argument), end))),
        }
    } else {
        Ok(scan_variable(s, pos))
    }
}

/// Reads the primary at `pos`: a parenthesized sum or a term, and the
/// whitespace behind it.
pub fn parse_primary(s: &[u8], pos: usize) -> (r: Result<(ExpressionNode, usize), ParseError>)
    requires
        pos <= s.len(),
    ensures
        agrees(r, primary_at(s@, pos as int), pos as int, s.len() as int),
    decreases s.len() - pos, 1int,
{
    proof {
        reveal(primary_at);
        reveal(sum_at);
    }
    if byte_is(s, pos, OPEN) {
        match parse_sum(s, pos + 1) {
            Err(e) => Err(e),
            Ok((inner, end)) => {
                if byte_is(s, end, CLOSE) {
                    Ok((inner, skip_spaces(s, end + 1)))
                } else {
                    Err(ParseError { kind: ErrorKind::UnterminatedConstruct, position: end })
                }
            },
        }
    } else {
        match parse_term(s, pos) {
            Err(e) => Err(e),
            Ok((t, end)) => Ok((ExpressionNode::from(t), skip_spaces(s, end))),
        }
    }
}

/// Reads the power at `pos`.
pub fn parse_power(s: &[u8], pos: usize) -> (r: Result<(ExpressionNode, usize), ParseError>)
    requires
        pos <= s.len(),
    ensures
        agrees(r, power_at(s@, pos as int), pos as int, s.len() as int),
    decreases s.len() - pos, 2int,
{
    proof {
        reveal(power_at);
        reveal(primary_at);
    }
    let (base, next) = match parse_primary(s, pos) {
        Err(e) => { return Err(e); },
        Ok(read) => read,
    };
    if !byte_is(s, next, CARET) {
        return Ok((base, next));
    }
    let start = skip_spaces(s, next + 1);
    match parse_power(s, start) {
        Err(e) => Err(e),
        Ok((exponent, end)) => match ExpressionNode::try_from((base, '^', exponent)) {
            Ok(tree) => Ok((tree, end)),
            Err(kind) => Err(ParseError { kind, position: next }),
        },
    }
}

/// Reads the product at `pos`, folding its operands from left to right.
pub fn parse_product(s: &[u8], pos: usize) -> (r: Result<(ExpressionNode, usize), ParseError>)
    requires
        pos <= s.len(),
    ensures
        agrees(r, product_at(s@, pos as int), pos as int, s.len() as int),
    decreases s.len() - pos, 4int,
{
    proof {
        reveal(product_at);
        reveal(power_at);
        reveal(product_rest);
    }
    let (first, next) = match parse_power(s, pos) {
        Err(e) => { return Err(e); },
        Ok(read) => read,
    };
    let mut tree = first;
    let mut i: usize = next;
    while byte_is(s, i, STAR) || byte_is(s, i, SLASH)
        invariant
            pos <= i <= s.len(),
            product_at(s@, pos as int) == advance(
                product_rest(s@, i as int, tree@),
                (i - pos) as nat,
            ),
        decreases s.len() - i,
    {
        proof {
            lemma_product_step(s@, i as int, tree@);
        }
        let op: char = if byte_is(s, i, STAR) {
            '*'
        } else {
            '/'
        };
        let start = skip_spaces(s, i + 1);
        let (right, end) = match parse_power(s, start) {
            Err(e) => { return Err(e); },
            Ok(read) => read,
        };
        match ExpressionNode::try_from((tree, op, right)) {
            Ok(joined) => { tree = joined; },
            Err(kind) => { return Err(ParseError { kind, position: i }); },
        }
        i = end;
    }
    proof {
        lemma_product_step(s@, i as int, tree@);
    }
    Ok((tree, i))
}

/// Reads the sum at `pos`, folding its operands from left to right.
pub fn parse_sum(s: &[u8], pos: usize) -> (r: Result<(ExpressionNode, usize), ParseError>)
    requires
        pos <= s.len(),
    ensures
        agrees(r, sum_at(s@, pos as int), pos as int, s.len() as int),
    decreases s.len() - pos, 6int,
{
    proof {
        reveal(sum_at);
        reveal(product_at);
        reveal(sum_rest);
    }
    let (first, next) = match parse_product(s, pos) {
        Err(e) => { return Err(e); },
        Ok(read) => read,
    };
    let mut tree = first;
    let mut i: usize = next;
    while byte_is(s, i, PLUS) || byte_is(s, i, MINUS)
        invariant
            pos <= i <= s.len(),
            sum_at(s@, pos as int) == advance(sum_rest(s@, i as int, tree@), (i - pos) as nat),
        decreases s.len() - i,
    {
        proof {
            lemma_sum_step(s@, i as int, tree@);
        }
        let op: char = if byte_is(s, i, PLUS) {
            '+'
        } else {
            '-'
        };
        let start = skip_spaces(s, i + 1);
        let (right, end) = match parse_product(s, start) {
            Err(e) => { return Err(e); },
            Ok(read) => read,
        };
        match ExpressionNode::try_from((tree, op, right)) {
            Ok(joined) => { tree = joined; },
            Err(kind) => { return Err(ParseError { kind, position: i }); },
        }
        i = end;
    }
    proof {
        lemma_sum_step(s@, i as int, tree@);
    }
    Ok((tree, i))
}

/// Reads an expression from the bytes of a text, all of them.
pub fn parse_expression_bytes(s: &[u8]) -> (r: Result<ExpressionNode, ParseError>)
    ensures
        match r {
            Ok(tree) => expression_of(s@) == Ok::<ExpressionModel, ParseError>(tree@),
            Err(e) => expression_of(s@) == Err::<ExpressionModel, ParseError>(e),
        },
        r matches Ok(tree) ==> expression_wf(tree@),
        r matches Err(e) ==> e.kind != ErrorKind::UnknownOperator && e.position <= s.len(),
{
    proof {
        expression_is_sound(s@);
    }
    match parse_sum(s, 0) {
        Err(e) => Err(e),
        Ok((tree, end)) => {
            if end == s.len() {
                Ok(tree)
            } else {
                Err(ParseError { kind: ErrorKind::TrailingInput, position: end })
            }
        },
    }
}

/// Reads an equation from the bytes of a text, all of them.
pub fn parse_equation_bytes(s: &[u8]) -> (r: Result<Equation, ParseError>)
    ensures
        match r {
            Ok(equation) => equation_of(s@) == Ok::<EquationModel, ParseError>(
                equation@,
            ),
            Err(e) => equation_of(s@) == Err::<EquationModel, ParseError>(e),
        },
        r matches Ok(equation) ==> expression_wf(equation.left@) && expression_wf(
            equation.right@,
        ),
        r matches Err(e) ==> e.kind != ErrorKind::UnknownOperator && e.position <= s.len(),
{
    proof {
        equation_is_sound(s@);
    }
    let (left, sign) = match parse_sum(s, 0) {
        Err(e) => { return Err(e); },
        Ok(read) => read,
    };
    if !byte_is(s, sign, EQUALS) {
        return Err(ParseError { kind: ErrorKind::UnterminatedConstruct, position: sign });
    }
    let start = skip_spaces(s, sign + 1);
    match parse_sum(s, start) {
        Err(e) => Err(e),
        Ok((right, end)) => {
            if end == s.len() {
                Ok(Equation { left, right })
            } else {
                Err(ParseError { kind: ErrorKind::TrailingInput, position: end })
            }
        },
    }
}

/// Parses a text as an expression. The whole text must be one expression.
pub fn parse_expression(text: &str) -> (r: Result<ExpressionNode, ParseError>)
    ensures
        match r {
            Ok(tree) => expression_of(text.spec_bytes()) == Ok::<ExpressionModel, ParseError>(
                tree@,
            ),
            Err(e) => expression_of(text.spec_bytes()) == Err::<ExpressionModel, ParseError>(e),
        },
        r matches Ok(tree) ==> expression_wf(tree@),
        r matches Err(e) ==> e.kind != ErrorKind::UnknownOperator && e.position
            <= text.spec_bytes().len(),
{
    parse_expression_bytes(text.as_bytes())
}

/// Parses a text as an equation: two expressions with `=` between them.
pub fn parse_equation(text: &str) -> (r: Result<Equation, ParseError>)
    ensures
        match r {
            Ok(equation) => equation_of(text.spec_bytes()) == Ok::<
                EquationModel,
                ParseError,
            >(equation@),
            Err(e) => equation_of(text.spec_bytes()) == Err::<
                EquationModel,
                ParseError,
            >(e),
        },
        r matches Ok(equation) ==> expression_wf(equation.left@) && expression_wf(
            equation.right@,
        ),
        r matches Err(e) ==> e.kind != ErrorKind::UnknownOperator && e.position
            <= text.spec_bytes().len(),
{
    parse_equation_bytes(text.as_bytes())
}

} // verus!
