use simple_cas::lexical::{
    digits_to_u32, scan_digits, scan_integer, scan_number, scan_variable, skip_spaces,
};
use simple_cas::parser::{
    byte_is, parse_exponent, parse_function, parse_parameter, parse_power, parse_primary,
    parse_product, parse_sum, parse_term,
};
use simple_cas::{Connective, ErrorKind, ExpressionNode, Function, Number, ParseError, Term};

fn whole(digits: &[u8]) -> Number {
    Number { negative: false, whole: digits.to_vec(), fraction: Vec::new() }
}

fn leaf(digits: &[u8]) -> ExpressionNode {
    ExpressionNode::Leaf(Term::Constant(whole(digits)))
}

#[test]
fn spaces_are_skipped_up_to_the_next_token() {
    assert_eq!(skip_spaces(b"  \t\r\n\x0cx ", 0), 6);
    assert_eq!(skip_spaces(b"x  ", 0), 0);
    assert_eq!(skip_spaces(b"x  ", 1), 3);
    assert_eq!(skip_spaces(b"", 0), 0);
    assert_eq!(skip_spaces(b"\x0bx", 0), 0);
}

#[test]
fn digits_are_read_as_values() {
    assert_eq!(scan_digits(b"0123456789a", 0), (vec![0, 1, 2, 3, 4, 5, 6, 7, 8, 9], 10));
    assert_eq!(scan_digits(b"ab12", 0), (vec![], 0));
    assert_eq!(scan_digits(b"ab12", 2), (vec![1, 2], 4));
    assert_eq!(scan_digits(b"/:", 0), (vec![], 0));
}

#[test]
fn number_forms() {
    assert_eq!(scan_number(b"12", 0), Some((whole(&[1, 2]), 2)));
    assert_eq!(
        scan_number(b"-12.50+", 0),
        Some((Number { negative: true, whole: vec![1, 2], fraction: vec![5, 0] }, 6))
    );
    assert_eq!(scan_number(b"12.", 0), Some((whole(&[1, 2]), 2)));
    assert_eq!(scan_number(b"12.x", 0), Some((whole(&[1, 2]), 2)));
    assert_eq!(scan_number(b"1.2.3", 0), Some((
        Number { negative: false, whole: vec![1], fraction: vec![2] },
        3
    )));
    assert_eq!(scan_number(b"-", 0), None);
    assert_eq!(scan_number(b"-.5", 0), None);
    assert_eq!(scan_number(b".5", 0), None);
    assert_eq!(scan_number(b"--1", 0), None);
    assert_eq!(scan_number(b"+1", 0), None);
    assert_eq!(scan_number(b"", 0), None);
    assert_eq!(scan_number(b"x7", 1), Some((whole(&[7]), 2)));
}

#[test]
fn digit_strings_as_32_bit_values() {
    assert_eq!(digits_to_u32(&vec![]), Some(0));
    assert_eq!(digits_to_u32(&vec![0, 0, 7]), Some(7));
    assert_eq!(digits_to_u32(&vec![4, 2, 9, 4, 9, 6, 7, 2, 9, 5]), Some(4294967295));
    assert_eq!(digits_to_u32(&vec![4, 2, 9, 4, 9, 6, 7, 2, 9, 6]), None);
    assert_eq!(digits_to_u32(&vec![9; 40]), None);
}

#[test]
fn integer_forms() {
    assert_eq!(scan_integer(b"10(", 0), Some((10, 2)));
    assert_eq!(scan_integer(b"-1", 0), None);
    assert_eq!(scan_integer(b"(", 0), None);
    assert_eq!(scan_integer(b"4294967296", 0), None);
    assert_eq!(scan_integer(b"1.5", 0), Some((1, 1)));
}

#[test]
fn variable_is_one_letter() {
    assert_eq!(scan_variable(b"x", 0), Some((Function::JustX, 1)));
    assert_eq!(scan_variable(b"Zq", 0), Some((Function::JustX, 1)));
    assert_eq!(scan_variable(b"a", 0), Some((Function::JustX, 1)));
    assert_eq!(scan_variable(b"z", 0), Some((Function::JustX, 1)));
    assert_eq!(scan_variable(b"A", 0), Some((Function::JustX, 1)));
    assert_eq!(scan_variable(b"_", 0), None);
    assert_eq!(scan_variable(b"@[`{", 0), None);
    assert_eq!(scan_variable(b"@[`{", 1), None);
    assert_eq!(scan_variable(b"@[`{", 2), None);
    assert_eq!(scan_variable(b"@[`{", 3), None);
    assert_eq!(scan_variable(b"1", 0), None);
    assert_eq!(scan_variable(b"x", 1), None);
}

#[test]
fn byte_lookup_stays_in_bounds() {
    assert!(byte_is(b"ab", 1, b'b'));
    assert!(!byte_is(b"ab", 1, b'a'));
    assert!(!byte_is(b"ab", 2, b'b'));
    assert!(!byte_is(b"", usize::MAX, 0));
}

#[test]
fn parameter_and_opening_parenthesis() {
    assert_eq!(parse_parameter(b"log_12(x)", 4), Ok((12, 7)));
    assert_eq!(
        parse_parameter(b"log_12x", 4),
        Err(ParseError { kind: ErrorKind::UnterminatedConstruct, position: 6 })
    );
    assert_eq!(
        parse_parameter(b"log_x", 4),
        Err(ParseError { kind: ErrorKind::MalformedNumber, position: 4 })
    );
}

#[test]
fn exponent_after_the_argument() {
    assert_eq!(parse_exponent(b",  3)", 0), Ok((whole(&[3]), 5)));
    assert_eq!(parse_exponent(b",3) ", 0), Ok((whole(&[3]), 3)));
    assert_eq!(
        parse_exponent(b" ,3)", 0),
        Err(ParseError { kind: ErrorKind::UnterminatedConstruct, position: 0 })
    );
    assert_eq!(
        parse_exponent(b",3 )", 0),
        Err(ParseError { kind: ErrorKind::UnterminatedConstruct, position: 2 })
    );
    assert_eq!(
        parse_exponent(b",)", 0),
        Err(ParseError { kind: ErrorKind::MalformedNumber, position: 1 })
    );
}

#[test]
fn term_shapes() {
    assert_eq!(parse_term(b"5+", 0), Ok((Term::Constant(whole(&[5])), 1)));
    assert_eq!(parse_term(b"x+", 0), Ok((Term::FnOnly(Box::new(Function::JustX)), 1)));
    assert_eq!(
        parse_term(b"5x+", 0),
        Ok((Term::Both(whole(&[5]), Box::new(Function::JustX)), 2))
    );
    assert_eq!(
        parse_term(b"+", 0),
        Err(ParseError { kind: ErrorKind::EmptyTerm, position: 0 })
    );
    assert_eq!(
        parse_term(b"5 x", 0),
        Ok((Term::Constant(whole(&[5])), 1))
    );
}

#[test]
fn function_alternatives_in_order() {
    assert_eq!(parse_function(b"7", 0), Ok(None));
    assert_eq!(parse_function(b"", 0), Ok(None));
    assert_eq!(parse_function(b"log", 0), Ok(Some((Function::JustX, 1))));
    assert_eq!(parse_function(b"rt(4)", 0), Ok(Some((Function::JustX, 1))));
    assert_eq!(parse_function(b"pow", 0), Ok(Some((Function::JustX, 1))));
    assert_eq!(
        parse_function(b"log_2(x)", 0),
        Ok(Some((Function::Log(2, Term::FnOnly(Box::new(Function::JustX))), 8)))
    );
    assert_eq!(
        parse_function(b"rt_2(x)", 0),
        Ok(Some((Function::Root(2, Term::FnOnly(Box::new(Function::JustX))), 7)))
    );
    assert_eq!(
        parse_function(b"pow(x,2)", 0),
        Ok(Some((Function::Power(whole(&[2]), Term::FnOnly(Box::new(Function::JustX))), 8)))
    );
    assert_eq!(
        parse_function(b"pow()", 0),
        Err(ParseError { kind: ErrorKind::EmptyTerm, position: 4 })
    );
    assert_eq!(
        parse_function(b"log_2()", 0),
        Err(ParseError { kind: ErrorKind::EmptyTerm, position: 6 })
    );
    assert_eq!(
        parse_function(b"log_2(x", 0),
        Err(ParseError { kind: ErrorKind::UnterminatedConstruct, position: 7 })
    );
}

#[test]
fn layers_stop_at_operators_of_lower_precedence() {
    assert_eq!(parse_primary(b"1 ^2", 0), Ok((leaf(&[1]), 2)));
    assert_eq!(parse_primary(b"(1) *2", 0), Ok((leaf(&[1]), 4)));
    assert_eq!(
        parse_power(b"1^2*3", 0),
        Ok((
            ExpressionNode::Pair(
                Box::new(leaf(&[1])),
                Connective::Exponentiate,
                Box::new(leaf(&[2]))
            ),
            3
        ))
    );
    assert_eq!(
        parse_product(b"1*2+3", 0),
        Ok((
            ExpressionNode::Pair(Box::new(leaf(&[1])), Connective::Multiply, Box::new(leaf(&[2]))),
            3
        ))
    );
    assert_eq!(
        parse_sum(b"1-2=3", 0),
        Ok((
            ExpressionNode::Pair(Box::new(leaf(&[1])), Connective::Subtract, Box::new(leaf(&[2]))),
            3
        ))
    );
    assert_eq!(
        parse_sum(b"1-2)", 0),
        Ok((
            ExpressionNode::Pair(Box::new(leaf(&[1])), Connective::Subtract, Box::new(leaf(&[2]))),
            3
        ))
    );
}
