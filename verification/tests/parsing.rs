use simple_cas::{
    parse_equation, parse_expression, Connective, Equation, ErrorKind, ExpressionNode, Function,
    Number, ParseError, Term,
};

fn digits(text: &str) -> Vec<u8> {
    text.bytes().map(|b| b - b'0').collect()
}

/// The numeral that `text` writes down, built by hand.
fn num(text: &str) -> Number {
    let negative = text.starts_with('-');
    let body = text.trim_start_matches('-');
    let mut parts = body.split('.');
    let whole = digits(parts.next().unwrap());
    let fraction = digits(parts.next().unwrap_or(""));
    Number { negative, whole, fraction }
}

/// The floating-point value of a numeral.
fn value(n: &Number) -> f64 {
    let mut text = String::new();
    if n.negative {
        text.push('-');
    }
    for d in &n.whole {
        text.push((b'0' + d) as char);
    }
    if !n.fraction.is_empty() {
        text.push('.');
        for d in &n.fraction {
            text.push((b'0' + d) as char);
        }
    }
    text.parse().unwrap()
}

fn constant(text: &str) -> ExpressionNode {
    ExpressionNode::Leaf(Term::Constant(num(text)))
}

fn variable() -> ExpressionNode {
    ExpressionNode::Leaf(Term::FnOnly(Box::new(Function::JustX)))
}

fn pair(left: ExpressionNode, op: Connective, right: ExpressionNode) -> ExpressionNode {
    ExpressionNode::Pair(Box::new(left), op, Box::new(right))
}

fn failure(kind: ErrorKind, position: usize) -> ParseError {
    ParseError { kind, position }
}

#[test]
fn numeral_is_a_constant_leaf() {
    for text in ["0", "42", "-2", "3.14", "-0.5", "007", "123456789012345678901234567890.25"] {
        assert_eq!(parse_expression(text), Ok(constant(text)), "{}", text);
    }
}

#[test]
fn numeral_keeps_its_value() {
    match parse_expression("-12.375") {
        Ok(ExpressionNode::Leaf(Term::Constant(n))) => {
            assert!(n.negative);
            assert_eq!(n.whole, vec![1, 2]);
            assert_eq!(n.fraction, vec![3, 7, 5]);
            assert_eq!(value(&n), -12.375);
        }
        other => panic!("{:?}", other),
    }
}

#[test]
fn multiplication_binds_tighter_than_addition() {
    assert_eq!(
        parse_expression("2 + 3 * 4"),
        Ok(pair(
            constant("2"),
            Connective::Add,
            pair(constant("3"), Connective::Multiply, constant("4"))
        ))
    );
}

#[test]
fn division_groups_to_the_left() {
    assert_eq!(
        parse_expression("8 / 4 / 2"),
        Ok(pair(
            pair(constant("8"), Connective::Divide, constant("4")),
            Connective::Divide,
            constant("2")
        ))
    );
}

#[test]
fn subtraction_groups_to_the_left() {
    assert_eq!(
        parse_expression("1 + 2 - 3"),
        Ok(pair(
            pair(constant("1"), Connective::Add, constant("2")),
            Connective::Subtract,
            constant("3")
        ))
    );
}

#[test]
fn parentheses_override_precedence() {
    assert_eq!(
        parse_expression("(2 + 3) * 4"),
        Ok(pair(
            pair(constant("2"), Connective::Add, constant("3")),
            Connective::Multiply,
            constant("4")
        ))
    );
}

#[test]
fn logarithm_of_a_constant() {
    assert_eq!(
        parse_expression("log_2(8)"),
        Ok(ExpressionNode::Leaf(Term::FnOnly(Box::new(Function::Log(
            2,
            Term::Constant(num("8"))
        )))))
    );
}

#[test]
fn coefficient_and_logarithm() {
    assert_eq!(
        parse_expression("3log_2(8)"),
        Ok(ExpressionNode::Leaf(Term::Both(
            num("3"),
            Box::new(Function::Log(2, Term::Constant(num("8"))))
        )))
    );
}

#[test]
fn root_of_a_constant() {
    assert_eq!(
        parse_expression("rt_3(27)"),
        Ok(ExpressionNode::Leaf(Term::FnOnly(Box::new(Function::Root(
            3,
            Term::Constant(num("27"))
        )))))
    );
}

#[test]
fn power_with_fractional_exponent() {
    let expected = ExpressionNode::Leaf(Term::FnOnly(Box::new(Function::Power(
        num("2.5"),
        Term::FnOnly(Box::new(Function::JustX)),
    ))));
    assert_eq!(parse_expression("pow(x, 2.5)"), Ok(expected));
    assert_eq!(
        parse_expression("pow(x,-2)"),
        Ok(ExpressionNode::Leaf(Term::FnOnly(Box::new(Function::Power(
            num("-2"),
            Term::FnOnly(Box::new(Function::JustX)),
        )))))
    );
}

#[test]
fn functions_nest() {
    assert_eq!(
        parse_expression("log_2(2rt_2(x))"),
        Ok(ExpressionNode::Leaf(Term::FnOnly(Box::new(Function::Log(
            2,
            Term::Both(
                num("2"),
                Box::new(Function::Root(2, Term::FnOnly(Box::new(Function::JustX))))
            )
        )))))
    );
}

#[test]
fn any_letter_is_the_variable() {
    assert_eq!(parse_expression("x"), Ok(variable()));
    assert_eq!(parse_expression("y"), Ok(variable()));
    assert_eq!(parse_expression("Q"), Ok(variable()));
    assert_eq!(
        parse_expression("2x"),
        Ok(ExpressionNode::Leaf(Term::Both(num("2"), Box::new(Function::JustX))))
    );
}

#[test]
fn sign_belongs_to_the_numeral() {
    assert_eq!(
        parse_expression("3 - -2"),
        Ok(pair(constant("3"), Connective::Subtract, constant("-2")))
    );
    assert_eq!(parse_expression("-x"), Err(failure(ErrorKind::EmptyTerm, 0)));
}

#[test]
fn exponentiation_binds_tightest_and_groups_to_the_right() {
    assert_eq!(
        parse_expression("2^3+1"),
        Ok(pair(
            pair(constant("2"), Connective::Exponentiate, constant("3")),
            Connective::Add,
            constant("1")
        ))
    );
    assert_eq!(
        parse_expression("2 * x ^ 3"),
        Ok(pair(
            constant("2"),
            Connective::Multiply,
            pair(variable(), Connective::Exponentiate, constant("3"))
        ))
    );
    assert_eq!(
        parse_expression("2^3^2"),
        Ok(pair(
            constant("2"),
            Connective::Exponentiate,
            pair(constant("3"), Connective::Exponentiate, constant("2"))
        ))
    );
}

#[test]
fn whitespace_is_skipped_around_operators() {
    let expected = pair(
        pair(constant("1"), Connective::Add, constant("2")),
        Connective::Add,
        constant("3"),
    );
    assert_eq!(parse_expression("1+2+3"), Ok(pair(
        pair(constant("1"), Connective::Add, constant("2")),
        Connective::Add,
        constant("3"),
    )));
    assert_eq!(parse_expression("1 \t+  2\n+ 3  "), Ok(expected));
    assert_eq!(parse_expression("(1 )"), Ok(constant("1")));
    assert_eq!(parse_expression(" 1"), Err(failure(ErrorKind::EmptyTerm, 0)));
    assert_eq!(parse_expression("( 1)"), Err(failure(ErrorKind::EmptyTerm, 1)));
}

#[test]
fn equation_splits_at_the_equals_sign() {
    assert_eq!(
        parse_equation("x + 1 = 2"),
        Ok(Equation {
            left: pair(variable(), Connective::Add, constant("1")),
            right: constant("2"),
        })
    );
    assert_eq!(
        parse_equation("x=2*x"),
        Ok(Equation {
            left: variable(),
            right: pair(constant("2"), Connective::Multiply, variable()),
        })
    );
}

#[test]
fn equation_failures() {
    assert_eq!(parse_equation("x + 1"), Err(failure(ErrorKind::UnterminatedConstruct, 5)));
    assert_eq!(parse_equation("x = "), Err(failure(ErrorKind::EmptyTerm, 4)));
    assert_eq!(parse_equation("x = 2 = 3"), Err(failure(ErrorKind::TrailingInput, 6)));
    assert_eq!(parse_equation(""), Err(failure(ErrorKind::EmptyTerm, 0)));
}

#[test]
fn empty_text_is_an_empty_term() {
    assert_eq!(parse_expression(""), Err(failure(ErrorKind::EmptyTerm, 0)));
}

#[test]
fn missing_right_operand_fails() {
    assert_eq!(parse_expression("2 +"), Err(failure(ErrorKind::EmptyTerm, 3)));
    assert_eq!(parse_expression("2 * "), Err(failure(ErrorKind::EmptyTerm, 4)));
    assert_eq!(parse_expression("2 ^"), Err(failure(ErrorKind::EmptyTerm, 3)));
}

#[test]
fn unclosed_call_is_unterminated() {
    assert_eq!(
        parse_expression("log_2(8"),
        Err(failure(ErrorKind::UnterminatedConstruct, 7))
    );
    assert_eq!(parse_expression("(2 + 3"), Err(failure(ErrorKind::UnterminatedConstruct, 6)));
    assert_eq!(parse_expression("rt_2 (8)"), Err(failure(ErrorKind::UnterminatedConstruct, 4)));
    assert_eq!(parse_expression("pow(x 2)"), Err(failure(ErrorKind::UnterminatedConstruct, 5)));
    assert_eq!(parse_expression("pow(x, 2"), Err(failure(ErrorKind::UnterminatedConstruct, 8)));
}

#[test]
fn text_after_an_expression_is_trailing_input() {
    assert_eq!(parse_expression("2 3"), Err(failure(ErrorKind::TrailingInput, 2)));
    assert_eq!(parse_expression("2."), Err(failure(ErrorKind::TrailingInput, 1)));
    assert_eq!(parse_expression("3(x+1)"), Err(failure(ErrorKind::TrailingInput, 1)));
    assert_eq!(parse_expression("2)"), Err(failure(ErrorKind::TrailingInput, 1)));
    assert_eq!(parse_expression("2 \u{e9}"), Err(failure(ErrorKind::TrailingInput, 2)));
}

#[test]
fn missing_digits_are_a_malformed_number() {
    assert_eq!(parse_expression("log_(8)"), Err(failure(ErrorKind::MalformedNumber, 4)));
    assert_eq!(parse_expression("rt_-2(8)"), Err(failure(ErrorKind::MalformedNumber, 3)));
    assert_eq!(parse_expression("pow(x, )"), Err(failure(ErrorKind::MalformedNumber, 7)));
    assert_eq!(parse_expression("pow(x,y)"), Err(failure(ErrorKind::MalformedNumber, 6)));
}

#[test]
fn parameter_must_fit_in_32_bits() {
    assert_eq!(
        parse_expression("log_4294967295(8)"),
        Ok(ExpressionNode::Leaf(Term::FnOnly(Box::new(Function::Log(
            4294967295,
            Term::Constant(num("8"))
        )))))
    );
    assert_eq!(
        parse_expression("log_4294967296(8)"),
        Err(failure(ErrorKind::MalformedNumber, 4))
    );
    assert_eq!(
        parse_expression("rt_99999999999999999999999999(8)"),
        Err(failure(ErrorKind::MalformedNumber, 3))
    );
    assert_eq!(
        parse_expression("rt_0010(8)"),
        Ok(ExpressionNode::Leaf(Term::FnOnly(Box::new(Function::Root(
            10,
            Term::Constant(num("8"))
        )))))
    );
}

#[test]
fn joining_trees_by_operator_character() {
    for (c, op) in [
        ('+', Connective::Add),
        ('-', Connective::Subtract),
        ('*', Connective::Multiply),
        ('/', Connective::Divide),
        ('^', Connective::Exponentiate),
    ] {
        assert_eq!(
            ExpressionNode::try_from((constant("1"), c, variable())),
            Ok(pair(constant("1"), op, variable()))
        );
        assert_eq!(Connective::from_char(c), Some(op));
    }
    assert_eq!(
        ExpressionNode::try_from((constant("1"), '%', variable())),
        Err(ErrorKind::UnknownOperator)
    );
    assert_eq!(Connective::from_char('='), None);
}

#[test]
fn term_becomes_a_leaf() {
    assert_eq!(ExpressionNode::from(Term::Constant(num("5"))), constant("5"));
}
