use json_parser::error::ParseErrorKind;
use json_parser::lexer::Lexer;
use json_parser::value::JsonValue;

#[test]
fn peek_looks_and_advance_consumes() {
    let mut lexer = Lexer::new("ab");
    assert_eq!(lexer.offset(), 0);
    assert_eq!(lexer.peek(), Some('a'));
    assert_eq!(lexer.peek(), Some('a'));
    assert_eq!(lexer.offset(), 0);
    assert_eq!(lexer.advance(), Some('a'));
    assert_eq!(lexer.offset(), 1);
    assert_eq!(lexer.advance(), Some('b'));
    assert_eq!(lexer.peek(), None);
    assert_eq!(lexer.advance(), None);
    assert_eq!(lexer.offset(), 2);
}

#[test]
fn cursor_counts_characters_not_bytes() {
    let mut lexer = Lexer::new("\u{e9}\u{4e16}x");
    assert_eq!(lexer.advance(), Some('\u{e9}'));
    assert_eq!(lexer.advance(), Some('\u{4e16}'));
    assert_eq!(lexer.offset(), 2);
    assert_eq!(lexer.peek(), Some('x'));
}

#[test]
fn next_whitespaces_stops_at_the_first_other_character() {
    let mut lexer = Lexer::new(" \t\r\n x ");
    lexer.next_whitespaces();
    assert_eq!(lexer.offset(), 5);
    assert_eq!(lexer.peek(), Some('x'));
    lexer.next_whitespaces();
    assert_eq!(lexer.offset(), 5);
}

#[test]
fn next_whitespaces_stops_at_the_end() {
    let mut lexer = Lexer::new("   ");
    lexer.next_whitespaces();
    assert_eq!(lexer.offset(), 3);
    assert_eq!(lexer.peek(), None);
}

#[test]
fn form_feed_is_no_whitespace() {
    let mut lexer = Lexer::new(" \u{c} ");
    lexer.next_whitespaces();
    assert_eq!(lexer.offset(), 1);
}

#[test]
fn expect_next_consumes_the_whole_word() {
    let mut lexer = Lexer::new("nullx");
    assert!(lexer.expect_next("null"));
    assert_eq!(lexer.offset(), 4);
    assert_eq!(lexer.peek(), Some('x'));
}

#[test]
fn expect_next_at_the_end_of_the_text() {
    let mut lexer = Lexer::new("true");
    assert!(lexer.expect_next("true"));
    assert_eq!(lexer.offset(), 4);
    assert!(lexer.expect_next(""));
    assert_eq!(lexer.offset(), 4);
}

#[test]
fn expect_next_stops_where_text_and_word_differ() {
    let mut lexer = Lexer::new("nuxl");
    assert!(!lexer.expect_next("null"));
    assert_eq!(lexer.offset(), 2);
    assert_eq!(lexer.peek(), Some('x'));
}

#[test]
fn expect_next_stops_where_the_text_ends() {
    let mut lexer = Lexer::new("fal");
    assert!(!lexer.expect_next("false"));
    assert_eq!(lexer.offset(), 3);
}

#[test]
fn validate_residuals_accepts_end_and_closers() {
    for (input, offset) in [("", 0), ("  ", 2), (" ,", 1), ("}", 0), ("\n]", 1)] {
        let mut lexer = Lexer::new(input);
        assert!(lexer.validate_residuals(), "{:?}", input);
        assert_eq!(lexer.offset(), offset);
    }
}

#[test]
fn validate_residuals_refuses_anything_else() {
    for input in ["x", " 1", ":", "  \"", "[", "{"] {
        let mut lexer = Lexer::new(input);
        assert!(!lexer.validate_residuals(), "{:?}", input);
    }
    let mut lexer = Lexer::new("  x");
    assert!(!lexer.validate_residuals());
    assert_eq!(lexer.offset(), 2);
}

#[test]
fn next_string_reads_up_to_the_closing_quote() {
    let mut lexer = Lexer::new("\"ab\"c");
    assert_eq!(lexer.next_string().unwrap(), "ab");
    assert_eq!(lexer.offset(), 4);
    assert_eq!(lexer.peek(), Some('c'));
}

#[test]
fn next_string_consumes_its_first_character_whatever_it_is() {
    let mut lexer = Lexer::new("xab\"");
    assert_eq!(lexer.next_string().unwrap(), "ab");
    assert_eq!(lexer.offset(), 4);
}

#[test]
fn next_string_fails_at_the_end_of_the_text() {
    let mut lexer = Lexer::new("\"ab");
    let error = lexer.next_string().unwrap_err();
    assert_eq!(error.kind, ParseErrorKind::UnterminatedString);
    assert_eq!(error.position, 3);
    assert_eq!(lexer.offset(), 3);
    let mut lexer = Lexer::new("");
    assert_eq!(lexer.next_string().unwrap_err().kind, ParseErrorKind::UnterminatedString);
}

#[test]
fn next_number_leaves_the_terminator() {
    let mut lexer = Lexer::new("-12.5e2, 3");
    let number = lexer.next_number().unwrap();
    assert!(number.negative);
    assert_eq!(number.digits, vec![1, 2, 5]);
    assert_eq!(number.fraction_digits, 1);
    assert_eq!(number.exponent_digits, vec![2]);
    assert_eq!(lexer.offset(), 7);
    assert_eq!(lexer.peek(), Some(','));
}

#[test]
fn next_number_does_not_skip_whitespace() {
    let mut lexer = Lexer::new(" 1");
    let error = lexer.next_number().unwrap_err();
    assert_eq!(error.kind, ParseErrorKind::EmptyNumber);
    assert_eq!(error.position, 0);
    let mut lexer = Lexer::new("");
    assert_eq!(lexer.next_number().unwrap_err().kind, ParseErrorKind::EmptyNumber);
}

#[test]
fn next_number_may_start_with_a_decimal_point() {
    let mut lexer = Lexer::new(".5");
    let number = lexer.next_number().unwrap();
    assert_eq!(number.digits, vec![5]);
    assert_eq!(number.fraction_digits, 1);
}

#[test]
fn next_number_consumes_the_second_sign_and_point() {
    let mut lexer = Lexer::new("--1");
    assert_eq!(lexer.next_number().unwrap_err().kind, ParseErrorKind::DoubleNegative);
    assert_eq!(lexer.offset(), 2);
    let mut lexer = Lexer::new("1..");
    assert_eq!(lexer.next_number().unwrap_err().kind, ParseErrorKind::UnexpectedDecimalPoint);
    assert_eq!(lexer.offset(), 3);
    let mut lexer = Lexer::new("1ex");
    assert_eq!(lexer.next_number().unwrap_err().kind, ParseErrorKind::MalformedExponent);
    assert_eq!(lexer.offset(), 2);
}

#[test]
fn next_array_consumes_both_brackets() {
    let mut lexer = Lexer::new("[1, 2] x");
    let items = lexer.next_array().unwrap();
    assert_eq!(items.len(), 2);
    assert_eq!(lexer.offset(), 6);
}

#[test]
fn next_object_consumes_both_braces() {
    let mut lexer = Lexer::new("{\"a\": true } x");
    let members = lexer.next_object().unwrap();
    assert_eq!(members.len(), 1);
    assert!(matches!(members.get(&"a".to_string()), Some(JsonValue::Boolean(true))));
    assert_eq!(lexer.offset(), 12);
}

#[test]
fn next_object_refuses_a_key_directly_behind_a_value() {
    let mut lexer = Lexer::new("{\"a\":1 \"b\":2}");
    let error = lexer.next_object().unwrap_err();
    assert_eq!(error.kind, ParseErrorKind::UnexpectedValue);
    assert_eq!(error.position, 10);
    assert_eq!(lexer.offset(), 10);
}

#[test]
fn next_value_reads_one_value_after_the_other() {
    let mut lexer = Lexer::new(" 1 , \"two\" , [3] ");
    assert!(matches!(lexer.next_value(), Ok(JsonValue::Number(_))));
    assert_eq!(lexer.offset(), 2);
    assert_eq!(lexer.advance(), Some(' '));
    assert_eq!(lexer.advance(), Some(','));
    assert!(matches!(lexer.next_value(), Ok(JsonValue::String(text)) if text == "two"));
    lexer.next_whitespaces();
    assert_eq!(lexer.advance(), Some(','));
    assert!(matches!(lexer.next_value(), Ok(JsonValue::Array(items)) if items.len() == 1));
    let error = lexer.next_value().unwrap_err();
    assert_eq!(error.kind, ParseErrorKind::UnexpectedEof);
    assert_eq!(error.position, 17);
}

#[test]
fn next_value_skips_whitespace_behind_a_literal_only() {
    let mut lexer = Lexer::new("null  ,");
    assert!(matches!(lexer.next_value(), Ok(JsonValue::Null)));
    assert_eq!(lexer.offset(), 6);
    let mut lexer = Lexer::new("\"s\"  ,");
    assert!(matches!(lexer.next_value(), Ok(JsonValue::String(_))));
    assert_eq!(lexer.offset(), 3);
}
