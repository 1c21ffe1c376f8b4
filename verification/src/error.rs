use vstd::prelude::*;

verus! {

/// Why a parse was abandoned.
#[derive(Clone, Copy, Debug, PartialEq, Eq, Structural)]
pub enum ParseErrorKind {
    /// The text ended where a value, or the rest of an array or object, was due.
    UnexpectedEof,
    /// A character that cannot start a value, or cannot stand where it does
    /// in a number.
    UnexpectedCharacter,
    /// `true`, `false` or `null` misspelt, or followed by something other than
    /// a comma, a closing bracket or brace, or the end of the text.
    InvalidLiteral,
    /// A second minus sign in one number.
    DoubleNegative,
    /// A second decimal point in one number.
    UnexpectedDecimalPoint,
    /// An exponent marker followed by neither a sign nor a digit.
    MalformedExponent,
    /// A number that ended before its first digit.
    EmptyNumber,
    /// The text ended inside a string.
    UnterminatedString,
    /// A closing bracket directly after a comma.
    TrailingComma,
    /// A closing brace behind a key, where the value of the pair was still
    /// due.
    UnexpectedClosingBracket,
    /// A comma that does not follow a complete element.
    UnexpectedComma,
    /// A colon that does not follow a key.
    UnexpectedColon,
    /// A value where a comma or the closing bracket or brace was due, or a
    /// value that is no string where a key of an object was due.
    UnexpectedValue,
}

/// A failed parse as the grammar describes it: the kind of error and the
/// offset at which the cursor stood when it was raised.
pub struct Failure {
    /// What went wrong.
    pub kind: ParseErrorKind,
    /// The offset at which the cursor stood.
    pub end: int,
}

/// A failed parse as the caller receives it.
#[derive(Clone, Copy, Debug, PartialEq, Eq, Structural)]
pub struct ParseError {
    /// What went wrong.
    pub kind: ParseErrorKind,
    /// How many characters the cursor had consumed when the error was raised.
    pub position: usize,
}

impl View for ParseError {
    type V = Failure;

    open spec fn view(&self) -> Failure {
        Failure { kind: self.kind, end: self.position as int }
    }
}

impl ParseErrorKind {
    /// The message for each kind.
    pub open spec fn description(self) -> Seq<char> {
        match self {
            ParseErrorKind::UnexpectedEof => "unexpected end of input"@,
            ParseErrorKind::UnexpectedCharacter => "unexpected character"@,
            ParseErrorKind::InvalidLiteral => "invalid literal"@,
            ParseErrorKind::DoubleNegative => "double negative"@,
            ParseErrorKind::UnexpectedDecimalPoint => "unexpected decimal point"@,
            ParseErrorKind::MalformedExponent => "malformed exponent"@,
            ParseErrorKind::EmptyNumber => "expected a number"@,
            ParseErrorKind::UnterminatedString => "unexpected end of input in a string"@,
            ParseErrorKind::TrailingComma => "trailing comma"@,
            ParseErrorKind::UnexpectedClosingBracket => "unexpected closing bracket"@,
            ParseErrorKind::UnexpectedComma => "unexpected comma"@,
            ParseErrorKind::UnexpectedColon => "unexpected colon"@,
            ParseErrorKind::UnexpectedValue => "unexpected value"@,
        }
    }
}

impl ParseError {
    /// The message for this error: a few words that name its kind.
    pub fn message(&self) -> (text: String)
        ensures
            text@ == self.kind.description(),
    {
        match self.kind {
            ParseErrorKind::UnexpectedEof => String::from_str("unexpected end of input"),
            ParseErrorKind::UnexpectedCharacter => String::from_str("unexpected character"),
            ParseErrorKind::InvalidLiteral => String::from_str("invalid literal"),
            ParseErrorKind::DoubleNegative => String::from_str("double negative"),
            ParseErrorKind::UnexpectedDecimalPoint => String::from_str("unexpected decimal point"),
            ParseErrorKind::MalformedExponent => String::from_str("malformed exponent"),
            ParseErrorKind::EmptyNumber => String::from_str("expected a number"),
            ParseErrorKind::UnterminatedString => String::from_str(
                "unexpected end of input in a string",
            ),
            ParseErrorKind::TrailingComma => String::from_str("trailing comma"),
            ParseErrorKind::UnexpectedClosingBracket => String::from_str(
                "unexpected closing bracket",
            ),
            ParseErrorKind::UnexpectedComma => String::from_str("unexpected comma"),
            ParseErrorKind::UnexpectedColon => String::from_str("unexpected colon"),
            ParseErrorKind::UnexpectedValue => String::from_str("unexpected value"),
        }
    }
}

} // verus!
