use json_parser::error::{ParseError, ParseErrorKind};
use json_parser::parse;
use json_parser::value::JsonValue;

fn items(input: &str) -> Vec<JsonValue> {
    match parse(input) {
        Ok(JsonValue::Array(items)) => items,
        other => panic!("{:?} gave {:?}", input, other),
    }
}

fn failure(input: &str) -> ParseError {
    match parse(input) {
        Err(error) => error,
        Ok(value) => panic!("{:?} was accepted as {:?}", input, value),
    }
}

fn digits_of(value: &JsonValue) -> Vec<u8> {
    match value {
        JsonValue::Number(number) => number.digits.clone(),
        other => panic!("{:?} is no number", other),
    }
}

#[test]
fn empty_array() {
    assert!(items("[]").is_empty());
    assert!(items(" [ \n ] ").is_empty());
}

#[test]
fn array_of_three_numbers() {
    let parsed = items("[1,2,3]");
    assert_eq!(parsed.len(), 3);
    assert_eq!(digits_of(&parsed[0]), vec![1]);
    assert_eq!(digits_of(&parsed[1]), vec![2]);
    assert_eq!(digits_of(&parsed[2]), vec![3]);
    for item in &parsed {
        match item {
            JsonValue::Number(number) => {
                assert!(!number.negative);
                assert_eq!(number.fraction_digits, 0);
                assert!(!number.has_exponent);
            }
            other => panic!("{:?} is no number", other),
        }
    }
}

#[test]
fn array_keeps_the_order_of_mixed_items() {
    let parsed = items("[ \"a\" , [ ] , { } , null , -2 ]");
    assert_eq!(parsed.len(), 5);
    assert!(matches!(&parsed[0], JsonValue::String(text) if text == "a"));
    assert!(matches!(&parsed[1], JsonValue::Array(inner) if inner.is_empty()));
    assert!(matches!(&parsed[2], JsonValue::Object(inner) if inner.len() == 0));
    assert!(matches!(&parsed[3], JsonValue::Null));
    assert!(matches!(&parsed[4], JsonValue::Number(number) if number.negative));
}

#[test]
fn nested_arrays() {
    let parsed = items("[[1,[2]],[]]");
    assert_eq!(parsed.len(), 2);
    match &parsed[0] {
        JsonValue::Array(inner) => {
            assert_eq!(inner.len(), 2);
            assert_eq!(digits_of(&inner[0]), vec![1]);
            match &inner[1] {
                JsonValue::Array(innermost) => assert_eq!(digits_of(&innermost[0]), vec![2]),
                other => panic!("{:?} is no array", other),
            }
        }
        other => panic!("{:?} is no array", other),
    }
}

#[test]
fn trailing_comma_in_array() {
    let error = failure("[1,]");
    assert_eq!(error.kind, ParseErrorKind::TrailingComma);
    assert_eq!(error.position, 3);
    assert_eq!(failure("[1 , ]").kind, ParseErrorKind::TrailingComma);
}

#[test]
fn unexpected_comma_in_array() {
    let error = failure("[,1]");
    assert_eq!(error.kind, ParseErrorKind::UnexpectedComma);
    assert_eq!(error.position, 1);
    assert_eq!(failure("[1,,2]").kind, ParseErrorKind::UnexpectedComma);
    assert_eq!(failure("[1,,2]").position, 3);
}

#[test]
fn missing_comma_in_array() {
    let error = failure("[1 2]");
    assert_eq!(error.kind, ParseErrorKind::UnexpectedValue);
    assert_eq!(error.position, 3);
    assert_eq!(failure("[\"a\" \"b\"]").kind, ParseErrorKind::UnexpectedValue);
    assert_eq!(failure("[[] :]").kind, ParseErrorKind::UnexpectedValue);
}

#[test]
fn unterminated_array() {
    let error = failure("[1,2");
    assert_eq!(error.kind, ParseErrorKind::UnexpectedEof);
    assert_eq!(error.position, 4);
    assert_eq!(failure("[").kind, ParseErrorKind::UnexpectedEof);
    assert_eq!(failure("[1, ").kind, ParseErrorKind::UnexpectedEof);
    assert_eq!(failure("[[]").kind, ParseErrorKind::UnexpectedEof);
}

#[test]
fn error_inside_an_element_ends_the_parse() {
    assert_eq!(failure("[1, --2]").kind, ParseErrorKind::DoubleNegative);
    assert_eq!(failure("[[1,]]").kind, ParseErrorKind::TrailingComma);
    assert_eq!(failure("[\"a").kind, ParseErrorKind::UnterminatedString);
    assert_eq!(failure("[nil]").kind, ParseErrorKind::InvalidLiteral);
    assert_eq!(failure("[:]").kind, ParseErrorKind::UnexpectedCharacter);
}
