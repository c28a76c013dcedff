use exactulator::engine::{apply_operator, parse_decimal, MathError, Operator};
use exactulator::format::FormattedRational;
use exactulator::rational::Rational;

fn ratio(numerator: i64, denominator: i64) -> Rational {
    Rational::new(numerator, denominator)
}

#[test]
fn new_reduces_to_lowest_terms() {
    assert_eq!(ratio(4, 2), Rational::from_integer(2));
    assert_eq!(ratio(1, -6), ratio(-1, 6));
    assert_eq!(ratio(0, -5), Rational::zero());
    assert_eq!(ratio(-12, -8), ratio(3, 2));
}

#[test]
fn from_integer_handles_the_extremes() {
    let text = |v: i64| FormattedRational::new(&Rational::from_integer(v)).text;
    assert_eq!(text(i64::MIN), "\u{2212}9223372036854775808");
    assert_eq!(text(i64::MAX), "9223372036854775807");
    assert_eq!(text(4294967296), "4294967296");
}

#[test]
fn each_operator_is_exact() {
    assert_eq!(apply_operator(ratio(1, 2), Operator::Add, ratio(1, 3)), Ok(ratio(5, 6)));
    assert_eq!(apply_operator(ratio(1, 2), Operator::Subtract, ratio(1, 3)), Ok(ratio(1, 6)));
    assert_eq!(apply_operator(ratio(2, 3), Operator::Multiply, ratio(9, 4)), Ok(ratio(3, 2)));
    assert_eq!(apply_operator(ratio(2, 3), Operator::Divide, ratio(-4, 9)), Ok(ratio(-3, 2)));
}

#[test]
fn division_by_zero_is_an_error() {
    assert_eq!(
        apply_operator(ratio(1, 2), Operator::Divide, Rational::zero()),
        Err(MathError::DivisionByZero)
    );
    assert_eq!(MathError::DivisionByZero.message(), "division by zero");
}

#[test]
fn add_then_subtract_restores_the_value() {
    let a = ratio(7, 3);
    let b = parse_decimal("0.1");
    let sum = apply_operator(a.clone(), Operator::Add, b.clone()).unwrap();
    assert_eq!(apply_operator(sum, Operator::Subtract, b), Ok(a));
}

#[test]
fn multiply_then_divide_restores_the_value() {
    let a = ratio(-22, 7);
    let b = parse_decimal("123456789012345678901234567890.5");
    let product = apply_operator(a.clone(), Operator::Multiply, b.clone()).unwrap();
    assert_eq!(apply_operator(product, Operator::Divide, b), Ok(a));
}

#[test]
fn parse_decimal_reads_keypad_text() {
    assert_eq!(parse_decimal("12.5"), ratio(25, 2));
    assert_eq!(parse_decimal("-0.75"), ratio(-3, 4));
    assert_eq!(parse_decimal("007"), Rational::from_integer(7));
    assert_eq!(parse_decimal("-0"), Rational::zero());
}

#[test]
fn parse_decimal_yields_zero_for_incomplete_text() {
    assert_eq!(parse_decimal(""), Rational::zero());
    assert_eq!(parse_decimal("-"), Rational::zero());
    assert_eq!(parse_decimal("5."), Rational::zero());
    assert_eq!(parse_decimal(".5"), Rational::zero());
    assert_eq!(parse_decimal("abc"), Rational::zero());
}

#[test]
fn parse_decimal_reads_fractions_and_repetends() {
    assert_eq!(parse_decimal("1/3"), ratio(1, 3));
    assert_eq!(parse_decimal("0.(3)"), ratio(1, 3));
    assert_eq!(parse_decimal("-0.1(6)"), ratio(-1, 6));
}

#[test]
fn subtract_then_add_restores_the_value() {
    let a = parse_decimal("-2.125");
    let b = ratio(5, 7);
    let difference = apply_operator(a.clone(), Operator::Subtract, b.clone()).unwrap();
    assert_eq!(apply_operator(difference, Operator::Add, b), Ok(a));
}

#[test]
fn divide_then_multiply_restores_the_value() {
    let a = ratio(13, 6);
    let b = ratio(-9, 4);
    let quotient = apply_operator(a.clone(), Operator::Divide, b.clone()).unwrap();
    assert_eq!(apply_operator(quotient, Operator::Multiply, b), Ok(a));
}
