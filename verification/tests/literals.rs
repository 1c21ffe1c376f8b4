use json_parser::error::{ParseError, ParseErrorKind};
use json_parser::parse;
use json_parser::value::JsonValue;

fn failure(input: &str) -> ParseError {
    match parse(input) {
        Err(error) => error,
        Ok(value) => panic!("{:?} was accepted as {:?}", input, value),
    }
}

#[test]
fn true_is_a_boolean() {
    assert!(matches!(parse("true"), Ok(JsonValue::Boolean(true))));
}

#[test]
fn false_is_a_boolean() {
    assert!(matches!(parse("false"), Ok(JsonValue::Boolean(false))));
}

#[test]
fn null_is_null() {
    assert!(matches!(parse("null"), Ok(JsonValue::Null)));
}

#[test]
fn literals_may_stand_between_whitespace() {
    assert!(matches!(parse("  true  "), Ok(JsonValue::Boolean(true))));
    assert!(matches!(parse("\t\nfalse\r\n"), Ok(JsonValue::Boolean(false))));
    assert!(matches!(parse(" \r null \t"), Ok(JsonValue::Null)));
}

#[test]
fn literals_may_be_followed_by_a_terminator() {
    assert!(matches!(parse("true,"), Ok(JsonValue::Boolean(true))));
    assert!(matches!(parse("false ]"), Ok(JsonValue::Boolean(false))));
    assert!(matches!(parse("null\n}"), Ok(JsonValue::Null)));
}

#[test]
fn literals_inside_an_array() {
    match parse("[true , false,null]") {
        Ok(JsonValue::Array(items)) => {
            assert_eq!(items.len(), 3);
            assert!(matches!(items[0], JsonValue::Boolean(true)));
            assert!(matches!(items[1], JsonValue::Boolean(false)));
            assert!(matches!(items[2], JsonValue::Null));
        }
        other => panic!("unexpected result {:?}", other),
    }
}

#[test]
fn misspelt_literal_is_invalid() {
    let error = failure("trux");
    assert_eq!(error.kind, ParseErrorKind::InvalidLiteral);
    assert_eq!(error.position, 3);
    assert_eq!(failure("nul").kind, ParseErrorKind::InvalidLiteral);
    assert_eq!(failure("nul").position, 3);
    assert_eq!(failure("falsy").kind, ParseErrorKind::InvalidLiteral);
    assert_eq!(failure("falsy").position, 4);
    assert_eq!(failure("t").kind, ParseErrorKind::InvalidLiteral);
    assert_eq!(failure("t").position, 1);
}

#[test]
fn literal_followed_by_something_else_is_invalid() {
    let error = failure("truex");
    assert_eq!(error.kind, ParseErrorKind::InvalidLiteral);
    assert_eq!(error.position, 4);
    let error = failure("null  1");
    assert_eq!(error.kind, ParseErrorKind::InvalidLiteral);
    assert_eq!(error.position, 6);
    assert_eq!(failure("false:").kind, ParseErrorKind::InvalidLiteral);
    assert_eq!(failure("true\u{c}").kind, ParseErrorKind::InvalidLiteral);
}

#[test]
fn empty_text_is_an_unexpected_end() {
    let error = failure("");
    assert_eq!(error.kind, ParseErrorKind::UnexpectedEof);
    assert_eq!(error.position, 0);
    let error = failure(" \t\r\n");
    assert_eq!(error.kind, ParseErrorKind::UnexpectedEof);
    assert_eq!(error.position, 4);
}

#[test]
fn unknown_first_character_is_unexpected() {
    let error = failure("  ?");
    assert_eq!(error.kind, ParseErrorKind::UnexpectedCharacter);
    assert_eq!(error.position, 2);
    assert_eq!(failure(".5").kind, ParseErrorKind::UnexpectedCharacter);
    assert_eq!(failure("+1").kind, ParseErrorKind::UnexpectedCharacter);
    assert_eq!(failure("]").kind, ParseErrorKind::UnexpectedCharacter);
    assert_eq!(failure("\u{c}1").kind, ParseErrorKind::UnexpectedCharacter);
    assert_eq!(failure("\u{663}").kind, ParseErrorKind::UnexpectedCharacter);
}

#[test]
fn text_behind_the_first_value_is_not_read() {
    assert!(matches!(parse("true, false"), Ok(JsonValue::Boolean(true))));
    assert!(matches!(parse("[] ???"), Ok(JsonValue::Array(_))));
}
