use json_parser::error::{ParseError, ParseErrorKind};
use json_parser::number::JsonNumber;
use json_parser::parse;
use json_parser::value::JsonValue;

fn number(input: &str) -> JsonNumber {
    match parse(input) {
        Ok(JsonValue::Number(number)) => number,
        other => panic!("{:?} gave {:?}", input, other),
    }
}

fn failure(input: &str) -> ParseError {
    match parse(input) {
        Err(error) => error,
        Ok(value) => panic!("{:?} was accepted as {:?}", input, value),
    }
}

/// The float for a number: digits folded into one accumulator, one tenth
/// per fraction digit, the sign, and then the power of ten.
fn float_of(number: &JsonNumber) -> f64 {
    let mut accumulator: f64 = 0.0;
    for digit in &number.digits {
        accumulator = accumulator * 10.0 + f64::from(*digit);
    }
    let mut multiplier: f64 = 1.0;
    for _ in 0..number.fraction_digits {
        multiplier *= 0.1;
    }
    if number.negative {
        accumulator = -accumulator;
    }
    let scaled = accumulator * multiplier;
    if !number.has_exponent {
        return scaled;
    }
    let mut exponent: i32 = 0;
    for digit in &number.exponent_digits {
        exponent = exponent.saturating_mul(10).saturating_add(i32::from(*digit));
    }
    let power = f64::powi(10.0, exponent);
    if number.exponent_negative {
        scaled / power
    } else {
        scaled * power
    }
}

#[test]
fn negative_fraction_with_exponent() {
    let parsed = number("-1.5e3");
    assert!(parsed.negative);
    assert_eq!(parsed.digits, vec![1, 5]);
    assert_eq!(parsed.fraction_digits, 1);
    assert!(parsed.has_exponent);
    assert!(!parsed.exponent_negative);
    assert_eq!(parsed.exponent_digits, vec![3]);
    assert_eq!(float_of(&parsed), -1500.0);
}

#[test]
fn capital_marker_and_negative_exponent() {
    let parsed = number("2E-2");
    assert!(!parsed.negative);
    assert_eq!(parsed.digits, vec![2]);
    assert_eq!(parsed.fraction_digits, 0);
    assert!(parsed.has_exponent);
    assert!(parsed.exponent_negative);
    assert_eq!(parsed.exponent_digits, vec![2]);
    assert_eq!(float_of(&parsed), 0.02);
}

#[test]
fn zero() {
    let parsed = number("0");
    assert!(!parsed.negative);
    assert_eq!(parsed.digits, vec![0]);
    assert_eq!(parsed.fraction_digits, 0);
    assert!(!parsed.has_exponent);
    assert!(!parsed.exponent_negative);
    assert!(parsed.exponent_digits.is_empty());
    assert_eq!(float_of(&parsed), 0.0);
}

#[test]
fn leading_zeros_are_accepted() {
    let parsed = number("007");
    assert_eq!(parsed.digits, vec![0, 0, 7]);
    assert_eq!(parsed.fraction_digits, 0);
    assert_eq!(float_of(&parsed), 7.0);
}

#[test]
fn plain_fraction() {
    let parsed = number("3.25");
    assert_eq!(parsed.digits, vec![3, 2, 5]);
    assert_eq!(parsed.fraction_digits, 2);
    assert!(!parsed.has_exponent);
    assert!((float_of(&parsed) - 3.25).abs() < 1e-12);
}

#[test]
fn explicit_plus_in_exponent() {
    let parsed = number("12e+10");
    assert_eq!(parsed.digits, vec![1, 2]);
    assert!(parsed.has_exponent);
    assert!(!parsed.exponent_negative);
    assert_eq!(parsed.exponent_digits, vec![1, 0]);
    assert_eq!(float_of(&parsed), 12e10);
}

#[test]
fn number_ends_at_a_terminator() {
    assert_eq!(number("42,").digits, vec![4, 2]);
    assert_eq!(number("42]").digits, vec![4, 2]);
    assert_eq!(number("42}").digits, vec![4, 2]);
    assert_eq!(number("42 ").digits, vec![4, 2]);
    assert_eq!(number("42\t").digits, vec![4, 2]);
    assert_eq!(number("42\n").digits, vec![4, 2]);
    assert_eq!(number("42\r").digits, vec![4, 2]);
}

#[test]
fn decimal_point_without_fraction_digits() {
    let parsed = number("1.");
    assert_eq!(parsed.digits, vec![1]);
    assert_eq!(parsed.fraction_digits, 0);
    let parsed = number("-.5");
    assert!(parsed.negative);
    assert_eq!(parsed.digits, vec![5]);
    assert_eq!(parsed.fraction_digits, 1);
}

#[test]
fn sign_without_exponent_digits() {
    let parsed = number("7e+");
    assert!(parsed.has_exponent);
    assert!(parsed.exponent_digits.is_empty());
    assert_eq!(float_of(&parsed), 7.0);
}

#[test]
fn second_marker_keeps_the_digits_and_sets_the_sign_anew() {
    let parsed = number("1e-5e3");
    assert!(parsed.has_exponent);
    assert!(!parsed.exponent_negative);
    assert_eq!(parsed.exponent_digits, vec![5, 3]);
}

#[test]
fn digits_behind_a_marker_join_the_exponent() {
    let parsed = number("1e5.5");
    assert_eq!(parsed.digits, vec![1]);
    assert_eq!(parsed.fraction_digits, 0);
    assert_eq!(parsed.exponent_digits, vec![5, 5]);
}

#[test]
fn long_numbers_keep_every_digit() {
    let parsed = number("123456789012345678901234567890.5e99999999999999999999");
    assert_eq!(parsed.digits.len(), 31);
    assert_eq!(parsed.fraction_digits, 1);
    assert_eq!(parsed.exponent_digits.len(), 20);
}

#[test]
fn double_negative() {
    let error = failure("--1");
    assert_eq!(error.kind, ParseErrorKind::DoubleNegative);
    assert_eq!(error.position, 2);
    assert_eq!(failure("-1-").kind, ParseErrorKind::DoubleNegative);
}

#[test]
fn minus_behind_a_digit() {
    let error = failure("1-2");
    assert_eq!(error.kind, ParseErrorKind::UnexpectedCharacter);
    assert_eq!(error.position, 1);
}

#[test]
fn double_decimal_point() {
    let error = failure("1.2.3");
    assert_eq!(error.kind, ParseErrorKind::UnexpectedDecimalPoint);
    assert_eq!(error.position, 4);
    assert_eq!(failure("-..").kind, ParseErrorKind::UnexpectedDecimalPoint);
}

#[test]
fn malformed_exponent() {
    let error = failure("1e");
    assert_eq!(error.kind, ParseErrorKind::MalformedExponent);
    assert_eq!(error.position, 2);
    assert_eq!(failure("1e,").kind, ParseErrorKind::MalformedExponent);
    assert_eq!(failure("1Ex").kind, ParseErrorKind::MalformedExponent);
    assert_eq!(failure("1e.5").kind, ParseErrorKind::MalformedExponent);
}

#[test]
fn number_without_digits() {
    let error = failure("-");
    assert_eq!(error.kind, ParseErrorKind::EmptyNumber);
    assert_eq!(error.position, 1);
    assert_eq!(failure("-,").kind, ParseErrorKind::EmptyNumber);
    assert_eq!(failure("-.").kind, ParseErrorKind::EmptyNumber);
    assert_eq!(failure("-. ").kind, ParseErrorKind::EmptyNumber);
    assert_eq!(failure("-e5").kind, ParseErrorKind::EmptyNumber);
}

#[test]
fn foreign_character_in_a_number() {
    let error = failure("12x");
    assert_eq!(error.kind, ParseErrorKind::UnexpectedCharacter);
    assert_eq!(error.position, 2);
    assert_eq!(failure("1+2").kind, ParseErrorKind::UnexpectedCharacter);
    assert_eq!(failure("1:").kind, ParseErrorKind::UnexpectedCharacter);
    assert_eq!(failure("1\u{c}").kind, ParseErrorKind::UnexpectedCharacter);
    assert_eq!(failure("1\u{a0}").kind, ParseErrorKind::UnexpectedCharacter);
    assert_eq!(failure("1\u{663}").kind, ParseErrorKind::UnexpectedCharacter);
}

#[test]
fn digits_are_decimal_and_fraction_digits_are_counted_among_them() {
    for input in ["0", "-12.75e-3", "9876543210.0123456789E+9876543210", "1.", "-.5", "7e+"] {
        let parsed = number(input);
        assert!(!parsed.digits.is_empty(), "{:?}", input);
        assert!(parsed.digits.iter().all(|digit| *digit < 10), "{:?}", input);
        assert!(parsed.exponent_digits.iter().all(|digit| *digit < 10), "{:?}", input);
        assert!(parsed.fraction_digits <= parsed.digits.len(), "{:?}", input);
        if !parsed.has_exponent {
            assert!(!parsed.exponent_negative);
            assert!(parsed.exponent_digits.is_empty());
        }
    }
}
