use simple_cas::{parse_expression, ExpressionNode, Number, Term};

fn number(negative: bool, whole: &[u8], fraction: &[u8]) -> Number {
    Number { negative, whole: whole.to_vec(), fraction: fraction.to_vec() }
}

fn as_f64(n: &Number) -> f64 {
    String::from_utf8(n.text()).unwrap().parse().unwrap()
}

#[test]
fn text_of_numerals() {
    assert_eq!(number(false, &[0], &[]).text(), b"0".to_vec());
    assert_eq!(number(true, &[1, 2], &[]).text(), b"-12".to_vec());
    assert_eq!(number(false, &[3], &[1, 4]).text(), b"3.14".to_vec());
    assert_eq!(number(true, &[0, 0], &[5, 0]).text(), b"-00.50".to_vec());
    assert_eq!(number(false, &[0, 1, 2, 3, 4, 5, 6, 7, 8, 9], &[]).text(), b"0123456789".to_vec());
}

#[test]
fn well_formed_numerals() {
    assert!(number(false, &[0], &[]).is_well_formed());
    assert!(number(true, &[9, 9], &[9]).is_well_formed());
    assert!(!number(false, &[], &[]).is_well_formed());
    assert!(!number(false, &[], &[5]).is_well_formed());
    assert!(!number(false, &[10], &[]).is_well_formed());
    assert!(!number(false, &[1], &[0, 10]).is_well_formed());
    assert!(!number(false, &[1, 255], &[0]).is_well_formed());
}

#[test]
fn text_reads_back_as_the_same_numeral() {
    for n in [
        number(false, &[0], &[]),
        number(true, &[4, 2], &[]),
        number(false, &[3], &[1, 4, 1, 5, 9]),
        number(true, &[0], &[0, 0, 1]),
        number(false, &[0, 0, 7], &[5, 0]),
    ] {
        let text = String::from_utf8(n.text()).unwrap();
        assert_eq!(parse_expression(&text), Ok(ExpressionNode::Leaf(Term::Constant(n))));
    }
}

#[test]
fn parsed_numerals_are_well_formed_and_keep_their_value() {
    for (text, expected) in [("8", 8.0), ("-2.5", -2.5), ("0.125", 0.125), ("100", 100.0)] {
        match parse_expression(text) {
            Ok(ExpressionNode::Leaf(Term::Constant(n))) => {
                assert!(n.is_well_formed());
                assert_eq!(n.text(), text.as_bytes().to_vec());
                assert_eq!(as_f64(&n), expected);
            }
            other => panic!("{:?}", other),
        }
    }
}
