use json_parser::error::{ParseError, ParseErrorKind};
use json_parser::parse;

const KINDS: [ParseErrorKind; 13] = [
    ParseErrorKind::UnexpectedEof,
    ParseErrorKind::UnexpectedCharacter,
    ParseErrorKind::InvalidLiteral,
    ParseErrorKind::DoubleNegative,
    ParseErrorKind::UnexpectedDecimalPoint,
    ParseErrorKind::MalformedExponent,
    ParseErrorKind::EmptyNumber,
    ParseErrorKind::UnterminatedString,
    ParseErrorKind::TrailingComma,
    ParseErrorKind::UnexpectedClosingBracket,
    ParseErrorKind::UnexpectedComma,
    ParseErrorKind::UnexpectedColon,
    ParseErrorKind::UnexpectedValue,
];

#[test]
fn parsing_twice_gives_equal_trees() {
    let inputs = [
        "{\"a\": [1, 2.5e-3, {\"b\": null}], \"c\": \"text\", \"a\": true}",
        "[[], {}, \"\", -0, false]",
        " 12 ",
        "\"only a string\"",
    ];
    for input in inputs {
        let first = parse(input).unwrap();
        let second = parse(input).unwrap();
        assert_eq!(format!("{:?}", first), format!("{:?}", second));
    }
}

#[test]
fn parsing_twice_gives_equal_errors() {
    for input in ["[1,]", "{\"a\":", "--1", "\"abc", "nul", ""] {
        let first = parse(input).unwrap_err();
        let second = parse(input).unwrap_err();
        assert_eq!(first, second);
    }
}

#[test]
fn unterminated_structures_fail_at_the_end() {
    for (input, kind) in [
        ("[1,2", ParseErrorKind::UnexpectedEof),
        ("{\"a\":1", ParseErrorKind::UnexpectedEof),
        ("\"abc", ParseErrorKind::UnterminatedString),
    ] {
        let error = parse(input).unwrap_err();
        assert_eq!(error.kind, kind);
        assert_eq!(error.position, input.chars().count());
    }
}

#[test]
fn number_errors_have_their_own_kinds() {
    assert_eq!(parse("--1").unwrap_err().kind, ParseErrorKind::DoubleNegative);
    assert_eq!(parse("1.2.3").unwrap_err().kind, ParseErrorKind::UnexpectedDecimalPoint);
    assert_eq!(parse("1e").unwrap_err().kind, ParseErrorKind::MalformedExponent);
}

#[test]
fn trailing_commas_are_rejected() {
    assert_eq!(parse("[1,]").unwrap_err().kind, ParseErrorKind::TrailingComma);
    assert_eq!(parse("{\"a\":1,}").unwrap_err().kind, ParseErrorKind::TrailingComma);
}

#[test]
fn every_kind_has_a_message_of_its_own() {
    let messages: Vec<String> = KINDS
        .iter()
        .map(|kind| ParseError { kind: *kind, position: 0 }.message())
        .collect();
    for (i, message) in messages.iter().enumerate() {
        assert!(!message.is_empty());
        for other in &messages[i + 1..] {
            assert_ne!(message, other);
        }
    }
}

#[test]
fn messages_name_the_error() {
    let error = parse("[1,]").unwrap_err();
    assert_eq!(error.message(), "trailing comma");
    let error = parse("--1").unwrap_err();
    assert_eq!(error.message(), "double negative");
    let error = parse("").unwrap_err();
    assert_eq!(error.message(), "unexpected end of input");
}

#[test]
fn error_position_counts_characters() {
    let error = parse("[\"\u{4e16}\u{754c}\", ?]").unwrap_err();
    assert_eq!(error.kind, ParseErrorKind::UnexpectedCharacter);
    assert_eq!(error.position, 7);
}

#[test]
fn deep_nesting_is_parsed() {
    let depth = 200;
    let mut input = String::new();
    for _ in 0..depth {
        input.push('[');
    }
    for _ in 0..depth {
        input.push(']');
    }
    let mut value = parse(&input).unwrap();
    let mut levels = 0;
    loop {
        match value {
            json_parser::value::JsonValue::Array(mut items) => {
                levels += 1;
                match items.pop() {
                    Some(inner) => value = inner,
                    None => break,
                }
            }
            other => panic!("{:?} is no array", other),
        }
    }
    assert_eq!(levels, depth);
}
