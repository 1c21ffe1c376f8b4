use json_parser::error::ParseErrorKind;
use json_parser::parse;
use json_parser::value::JsonValue;

fn text(input: &str) -> String {
    match parse(input) {
        Ok(JsonValue::String(text)) => text,
        other => panic!("{:?} gave {:?}", input, other),
    }
}

#[test]
fn string_holds_what_stands_between_the_quotes() {
    assert_eq!(text("\"abc\""), "abc");
    assert_eq!(text("  \"a b, c]}\"  "), "a b, c]}");
}

#[test]
fn empty_string() {
    assert_eq!(text("\"\""), "");
}

#[test]
fn string_keeps_characters_beyond_ascii() {
    assert_eq!(text("\"gr\u{fc}\u{df}e \u{4e16}\u{754c}\""), "gr\u{fc}\u{df}e \u{4e16}\u{754c}");
}

#[test]
fn backslashes_are_taken_as_they_are() {
    assert_eq!(text("\"a\\nb\""), "a\\nb");
    assert_eq!(text("\"a\\\"b\""), "a\\");
}

#[test]
fn unterminated_string() {
    match parse("\"abc") {
        Err(error) => {
            assert_eq!(error.kind, ParseErrorKind::UnterminatedString);
            assert_eq!(error.position, 4);
        }
        Ok(value) => panic!("accepted as {:?}", value),
    }
    match parse("\"") {
        Err(error) => assert_eq!(error.kind, ParseErrorKind::UnterminatedString),
        Ok(value) => panic!("accepted as {:?}", value),
    }
}
