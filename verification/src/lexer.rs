use vstd::prelude::*;
use crate::error::{Failure, ParseError, ParseErrorKind};
use crate::grammar::{
    array_at, array_from, char_at, digit_value, find_quote, is_digit, is_terminator,
    is_whitespace, literal_may_end, matched_from, matched_prefix, number_at, number_from,
    object_at, object_from, skip_whitespace, step, string_at, value_at, ArrayState, NumberState,
    ObjectState, Outcome, Parsed,
};
use crate::laws::progress::lemma_value_advances;
use crate::laws::scanning::{lemma_matched_from_stops, lemma_skip_whitespace_stops};
use crate::laws::soundness::{
    lemma_array_from_well_formed, lemma_number_well_formed, lemma_object_from_well_formed,
    lemma_value_well_formed,
};
use crate::number::{JsonNumber, NumberModel};
use crate::value::{
    items_model, lemma_array_well_formed, lemma_object_well_formed, JsonModel, JsonObject,
    JsonValue,
};

verus! {

/// Whether `result` is what `outcome` describes: the value with that model,
/// or the error of that kind at that offset.
pub open spec fn agrees<T: View>(result: Result<T, ParseError>, outcome: Outcome<T::V>) -> bool {
    match outcome {
        Ok(expected) => result matches Ok(value) && value@ == expected.value,
        Err(failure) => result matches Err(error) && error@ == failure,
    }
}

/// The offset at which `outcome` leaves the cursor.
pub open spec fn end_of<T>(outcome: Outcome<T>) -> int {
    match outcome {
        Ok(expected) => expected.end,
        Err(failure) => failure.end,
    }
}

/// `String::push` of the standard library appends one character: the text
/// afterwards is the text before, followed by `ch`.
pub assume_specification[ std::string::String::push ](text: &mut std::string::String, ch: char)
    ensures
        final(text)@ == old(text)@.push(ch),
;

fn chars_of(text: &str) -> (chars: Vec<char>)
    ensures
        chars@ == text@,
{
    let mut chars: Vec<char> = Vec::new();
    for c in it: text.chars()
        invariant
            chars@ == it.seq().take(it.index() as int),
    {
        chars.push(c);
    }
    chars
}

fn char_is_whitespace(c: char) -> (b: bool)
    ensures
        b == is_whitespace(c),
{
    c == ' ' || c == '\t' || c == '\n' || c == '\r'
}

fn char_is_digit(c: char) -> (b: bool)
    ensures
        b == is_digit(c),
{
    '0' <= c && c <= '9'
}

fn char_is_terminator(c: char) -> (b: bool)
    ensures
        b == is_terminator(c),
{
    c == ',' || c == ']' || c == '}' || char_is_whitespace(c)
}

fn char_digit(c: char) -> (d: u8)
    requires
        is_digit(c),
    ensures
        d == digit_value(c),
        d < 10,
{
    ((c as u32) - ('0' as u32)) as u8
}

/// A cursor over a text: the characters, and how many of them have been
/// consumed. It looks one character ahead and never moves backwards.
pub struct Lexer {
    input: Vec<char>,
    consumed: usize,
}

impl Lexer {
    #[verifier::type_invariant]
    spec fn within_text(self) -> bool {
        self.consumed <= self.input.len()
    }

    /// The whole text, consumed or not.
    pub closed spec fn text(self) -> Seq<char> {
        self.input@
    }

    /// How many characters have been consumed.
    pub closed spec fn position(self) -> int {
        self.consumed as int
    }

    /// A cursor at the start of `input`.
    pub fn new(input: &str) -> (lexer: Lexer)
        ensures
            lexer.text() == input@,
            lexer.position() == 0,
    {
        Lexer { input: chars_of(input), consumed: 0 }
    }

    /// How many characters have been consumed.
    pub fn offset(&self) -> (n: usize)
        ensures
            n == self.position(),
            n <= self.text().len(),
    {
        proof {
            use_type_invariant(self);
        }
        self.consumed
    }

    /// The next character, which stays unconsumed; `None` at the end.
    pub fn peek(&self) -> (next: Option<char>)
        ensures
            next == char_at(self.text(), self.position()),
    {
        proof {
            use_type_invariant(self);
        }
        if self.consumed < self.input.len() {
            Some(self.input[self.consumed])
        } else {
            None
        }
    }

    /// Consumes the next character and returns it; `None` at the end, where
    /// the cursor stays.
    pub fn advance(&mut self) -> (next: Option<char>)
        ensures
            final(self).text() == old(self).text(),
            next == char_at(old(self).text(), old(self).position()),
            final(self).position() == step(old(self).text(), old(self).position()),
    {
        proof {
            use_type_invariant(&*self);
        }
        if self.consumed < self.input.len() {
            let c = self.input[self.consumed];
            self.consumed = self.consumed + 1;
            Some(c)
        } else {
            None
        }
    }

    fn error(&self, kind: ParseErrorKind) -> (error: ParseError)
        ensures
            error@ == (Failure { kind, end: self.position() }),
    {
        ParseError { kind, position: self.consumed }
    }

    /// Reads a number from the cursor on, up to the end of the text or a
    /// character that may follow a number, which stays unconsumed.
    pub fn next_number(&mut self) -> (result: Result<JsonNumber, ParseError>)
        ensures
            final(self).text() == old(self).text(),
            agrees(result, number_at(old(self).text(), old(self).position())),
            final(self).position() == end_of(number_at(old(self).text(), old(self).position())),
            result matches Ok(number) ==> number@.well_formed(),
    {
        proof {
            lemma_number_well_formed(self.text(), self.position());
        }
        let mut negative = false;
        let mut in_fraction = false;
        let mut has_exponent = false;
        let mut exponent_negative = false;
        let mut digits: Vec<u8> = Vec::new();
        let mut fraction_digits: usize = 0;
        let mut exponent_digits: Vec<u8> = Vec::new();
        let ghost goal = number_at(old(self).text(), old(self).position());
        loop
            invariant
                self.text() == old(self).text(),
                goal == number_at(old(self).text(), old(self).position()),
                fraction_digits <= digits.len(),
                goal == number_from(
                    self.text(),
                    self.position(),
                    NumberState {
                        number: NumberModel {
                            negative,
                            digits: digits@,
                            fraction_digits: fraction_digits as nat,
                            has_exponent,
                            exponent_negative,
                            exponent_digits: exponent_digits@,
                        },
                        in_fraction,
                    },
                ),
            ensures
                self.text() == old(self).text(),
                digits.len() > 0,
                goal == Ok::<_, Failure>(
                    Parsed {
                        value: NumberModel {
                            negative,
                            digits: digits@,
                            fraction_digits: fraction_digits as nat,
                            has_exponent,
                            exponent_negative,
                            exponent_digits: exponent_digits@,
                        },
                        end: self.position(),
                    },
                ),
            decreases self.text().len() - self.position(),
        {
            proof {
                use_type_invariant(&*self);
            }
            let c = match self.peek() {
                Some(c) => c,
                None => {
                    if digits.len() > 0 {
                        break ;
                    }
                    return Err(self.error(ParseErrorKind::EmptyNumber));
                },
            };
            if c == '-' {
                if negative {
                    self.advance();
                    return Err(self.error(ParseErrorKind::DoubleNegative));
                }
                if digits.len() > 0 {
                    return Err(self.error(ParseErrorKind::UnexpectedCharacter));
                }
                self.advance();
                negative = true;
            } else if c == '.' {
                self.advance();
                if in_fraction {
                    return Err(self.error(ParseErrorKind::UnexpectedDecimalPoint));
                }
                in_fraction = true;
            } else if c == 'e' || c == 'E' {
                self.advance();
                match self.peek() {
                    Some('+') => {
                        self.advance();
                        has_exponent = true;
                        exponent_negative = false;
                    },
                    Some('-') => {
                        self.advance();
                        has_exponent = true;
                        exponent_negative = true;
                    },
                    Some(d) => {
                        if !char_is_digit(d) {
                            return Err(self.error(ParseErrorKind::MalformedExponent));
                        }
                        has_exponent = true;
                        exponent_negative = false;
                    },
                    None => {
                        return Err(self.error(ParseErrorKind::MalformedExponent));
                    },
                }
            } else if char_is_digit(c) {
                self.advance();
                let d = char_digit(c);
                if has_exponent {
                    exponent_digits.push(d);
                } else {
                    digits.push(d);
                    if in_fraction {
                        assert(fraction_digits < digits.len() <= usize::MAX);
                        fraction_digits = fraction_digits + 1;
                    }
                }
            } else if char_is_terminator(c) {
                if digits.len() > 0 {
                    break ;
                }
                return Err(self.error(ParseErrorKind::EmptyNumber));
            } else {
                return Err(self.error(ParseErrorKind::UnexpectedCharacter));
            }
        }
        Ok(
            JsonNumber {
                negative,
                digits,
                fraction_digits,
                has_exponent,
                exponent_negative,
                exponent_digits,
            },
        )
    }

    /// Consumes whitespace up to the next character that is none, or to the
    /// end of the text.
    pub fn next_whitespaces(&mut self)
        ensures
            final(self).text() == old(self).text(),
            final(self).position() == skip_whitespace(old(self).text(), old(self).position()),
    {
        loop
            invariant
                self.text() == old(self).text(),
                skip_whitespace(self.text(), self.position()) == skip_whitespace(
                    old(self).text(),
                    old(self).position(),
                ),
            decreases self.text().len() - self.position(),
        {
            proof {
                use_type_invariant(&*self);
            }
            match self.peek() {
                Some(c) => {
                    if !char_is_whitespace(c) {
                        return ;
                    }
                    self.advance();
                },
                None => {
                    return ;
                },
            }
        }
    }

    /// Consumes the characters of `expect` as far as the text holds them in
    /// order, and says whether all of them were there. The cursor stops at
    /// the first character that differs.
    pub fn expect_next(&mut self, expect: &str) -> (matched: bool)
        ensures
            final(self).text() == old(self).text(),
            final(self).position() == old(self).position() + matched_prefix(
                old(self).text(),
                old(self).position(),
                expect@,
            ),
            matched == (matched_prefix(old(self).text(), old(self).position(), expect@)
                == expect@.len()),
    {
        let word = chars_of(expect);
        let mut k: usize = 0;
        while k < word.len()
            invariant
                self.text() == old(self).text(),
                word@ == expect@,
                k <= word.len(),
                self.position() == old(self).position() + k,
                matched_from(self.text(), old(self).position(), word@, k as int) == matched_prefix(
                    old(self).text(),
                    old(self).position(),
                    expect@,
                ),
            decreases word.len() - k,
        {
            match self.peek() {
                Some(c) => {
                    if c != word[k] {
                        return false;
                    }
                },
                None => {
                    return false;
                },
            }
            self.advance();
            k = k + 1;
        }
        true
    }

    /// Consumes whitespace, and says whether a literal may end there: at the
    /// end of the text, or before a comma or a closing bracket or brace.
    pub fn validate_residuals(&mut self) -> (valid: bool)
        ensures
            final(self).text() == old(self).text(),
            final(self).position() == skip_whitespace(old(self).text(), old(self).position()),
            valid == literal_may_end(old(self).text(), final(self).position()),
    {
        self.next_whitespaces();
        match self.peek() {
            None => true,
            Some(c) => c == ',' || c == '}' || c == ']',
        }
    }

    /// Consumes one character, the opening quote, and reads the string
    /// behind it: every character up to the next double quote, which is
    /// consumed too.
    pub fn next_string(&mut self) -> (result: Result<String, ParseError>)
        ensures
            final(self).text() == old(self).text(),
            agrees(result, string_at(old(self).text(), old(self).position())),
            final(self).position() == end_of(string_at(old(self).text(), old(self).position())),
    {
        proof {
            use_type_invariant(&*self);
        }
        self.advance();
        let ghost start = self.position();
        let mut text = String::new();
        loop
            invariant
                self.text() == old(self).text(),
                start == step(old(self).text(), old(self).position()),
                0 <= start <= self.position(),
                text@ == self.text().subrange(start, self.position()),
                find_quote(self.text(), self.position()) == find_quote(self.text(), start),
            decreases self.text().len() - self.position(),
        {
            proof {
                use_type_invariant(&*self);
            }
            match self.advance() {
                Some(c) => {
                    if c == '"' {
                        return Ok(text);
                    }
                    text.push(c);
                    assert(text@ == self.text().subrange(start, self.position()));
                },
                None => {
                    return Err(self.error(ParseErrorKind::UnterminatedString));
                },
            }
        }
    }

    /// Skips whitespace and reads one value: a number, an object, an array,
    /// a string or one of the literals `null`, `false` and `true`, as the
    /// first character decides.
    pub fn next_value(&mut self) -> (result: Result<JsonValue, ParseError>)
        ensures
            final(self).text() == old(self).text(),
            agrees(result, value_at(old(self).text(), old(self).position())),
            final(self).position() == end_of(value_at(old(self).text(), old(self).position())),
            result matches Ok(value) ==> value@.well_formed(),
        decreases old(self).text().len() - old(self).position(), 1nat,
    {
        proof {
            lemma_value_well_formed(self.text(), self.position());
            use_type_invariant(&*self);
            lemma_skip_whitespace_stops(self.text(), self.position());
        }
        self.next_whitespaces();
        let c = match self.peek() {
            Some(c) => c,
            None => {
                return Err(self.error(ParseErrorKind::UnexpectedEof));
            },
        };
        if c == '-' || char_is_digit(c) {
            match self.next_number() {
                Ok(number) => Ok(JsonValue::Number(number)),
                Err(error) => Err(error),
            }
        } else if c == '{' {
            match self.next_object() {
                Ok(object) => Ok(JsonValue::Object(object)),
                Err(error) => Err(error),
            }
        } else if c == '[' {
            match self.next_array() {
                Ok(items) => Ok(JsonValue::Array(items)),
                Err(error) => Err(error),
            }
        } else if c == '"' {
            match self.next_string() {
                Ok(text) => Ok(JsonValue::String(text)),
                Err(error) => Err(error),
            }
        } else if c == 'n' {
            proof {
                lemma_matched_from_stops(self.text(), self.position(), "null"@, 0);
            }
            if self.expect_next("null") && self.validate_residuals() {
                return Ok(JsonValue::Null);
            }
            Err(self.error(ParseErrorKind::InvalidLiteral))
        } else if c == 'f' {
            proof {
                lemma_matched_from_stops(self.text(), self.position(), "false"@, 0);
            }
            if self.expect_next("false") && self.validate_residuals() {
                return Ok(JsonValue::Boolean(false));
            }
            Err(self.error(ParseErrorKind::InvalidLiteral))
        } else if c == 't' {
            proof {
                lemma_matched_from_stops(self.text(), self.position(), "true"@, 0);
            }
            if self.expect_next("true") && self.validate_residuals() {
                return Ok(JsonValue::Boolean(true));
            }
            Err(self.error(ParseErrorKind::InvalidLiteral))
        } else {
            Err(self.error(ParseErrorKind::UnexpectedCharacter))
        }
    }

    /// Consumes one character, the opening bracket, and reads the elements
    /// behind it up to the closing bracket, which is consumed too.
    pub fn next_array(&mut self) -> (result: Result<Vec<JsonValue>, ParseError>)
        ensures
            final(self).text() == old(self).text(),
            match array_at(old(self).text(), old(self).position()) {
                Ok(expected) => result matches Ok(items) && items_model(items@) == expected.value,
                Err(failure) => result matches Err(error) && error@ == failure,
            },
            final(self).position() == end_of(array_at(old(self).text(), old(self).position())),
            result matches Ok(items) ==> JsonModel::Array(items_model(items@)).well_formed(),
        decreases old(self).text().len() - old(self).position(), 0nat,
    {
        proof {
            lemma_array_well_formed(Seq::empty());
            lemma_array_from_well_formed(
                self.text(),
                step(self.text(), self.position()),
                ArrayState::Start,
                Seq::empty(),
            );
        }
        self.advance();
        let mut state = ArrayState::Start;
        let mut items: Vec<JsonValue> = Vec::new();
        let ghost goal = array_at(old(self).text(), old(self).position());
        assert(items_model(items@) == Seq::<JsonModel>::empty());
        loop
            invariant
                self.text() == old(self).text(),
                self.position() >= step(old(self).text(), old(self).position()),
                goal == array_at(old(self).text(), old(self).position()),
                goal == array_from(self.text(), self.position(), state, items_model(items@)),
                goal matches Ok(array) ==> JsonModel::Array(array.value).well_formed(),
            decreases self.text().len() - self.position(),
        {
            proof {
                use_type_invariant(&*self);
                lemma_skip_whitespace_stops(self.text(), self.position());
            }
            self.next_whitespaces();
            let c = match self.peek() {
                Some(c) => c,
                None => {
                    return Err(self.error(ParseErrorKind::UnexpectedEof));
                },
            };
            if c == ']' {
                match state {
                    ArrayState::AfterComma => {
                        return Err(self.error(ParseErrorKind::TrailingComma));
                    },
                    _ => {
                        self.advance();
                        return Ok(items);
                    },
                }
            } else if c == ',' {
                match state {
                    ArrayState::AfterValue => {
                        self.advance();
                        state = ArrayState::AfterComma;
                    },
                    _ => {
                        return Err(self.error(ParseErrorKind::UnexpectedComma));
                    },
                }
            } else {
                match state {
                    ArrayState::AfterValue => {
                        return Err(self.error(ParseErrorKind::UnexpectedValue));
                    },
                    _ => {},
                }
                proof {
                    lemma_value_advances(self.text(), self.position());
                }
                match self.next_value() {
                    Ok(value) => {
                        assert(items_model(items@.push(value)) == items_model(items@).push(
                            value@,
                        ));
                        items.push(value);
                        state = ArrayState::AfterValue;
                    },
                    Err(error) => {
                        return Err(error);
                    },
                }
            }
        }
    }

    /// Consumes one character, the opening brace, and reads the members
    /// behind it up to the closing brace, which is consumed too.
    pub fn next_object(&mut self) -> (result: Result<JsonObject, ParseError>)
        ensures
            final(self).text() == old(self).text(),
            agrees(result, object_at(old(self).text(), old(self).position())),
            final(self).position() == end_of(object_at(old(self).text(), old(self).position())),
            result matches Ok(object) ==> JsonModel::Object(object@).well_formed(),
        decreases old(self).text().len() - old(self).position(), 0nat,
    {
        proof {
            lemma_object_well_formed(Map::empty());
            lemma_object_from_well_formed(
                self.text(),
                step(self.text(), self.position()),
                ObjectState::Start,
                Seq::empty(),
                Map::empty(),
            );
        }
        self.advance();
        let mut state = ObjectState::Start;
        let mut key = String::new();
        let mut members = JsonObject::new();
        let ghost goal = object_at(old(self).text(), old(self).position());
        loop
            invariant
                self.text() == old(self).text(),
                self.position() >= step(old(self).text(), old(self).position()),
                goal == object_at(old(self).text(), old(self).position()),
                goal == object_from(self.text(), self.position(), state, key@, members@),
                goal matches Ok(object) ==> JsonModel::Object(object.value).well_formed(),
            decreases self.text().len() - self.position(),
        {
            proof {
                use_type_invariant(&*self);
                lemma_skip_whitespace_stops(self.text(), self.position());
            }
            self.next_whitespaces();
            let c = match self.peek() {
                Some(c) => c,
                None => {
                    return Err(self.error(ParseErrorKind::UnexpectedEof));
                },
            };
            if c == '}' {
                match state {
                    ObjectState::AfterComma => {
                        return Err(self.error(ParseErrorKind::TrailingComma));
                    },
                    ObjectState::AfterKey | ObjectState::AfterColon => {
                        return Err(self.error(ParseErrorKind::UnexpectedClosingBracket));
                    },
                    _ => {
                        self.advance();
                        return Ok(members);
                    },
                }
            } else if c == ',' {
                match state {
                    ObjectState::AfterValue => {
                        self.advance();
                        state = ObjectState::AfterComma;
                    },
                    _ => {
                        return Err(self.error(ParseErrorKind::UnexpectedComma));
                    },
                }
            } else if c == ':' {
                match state {
                    ObjectState::AfterKey => {
                        self.advance();
                        state = ObjectState::AfterColon;
                    },
                    _ => {
                        return Err(self.error(ParseErrorKind::UnexpectedColon));
                    },
                }
            } else {
                proof {
                    lemma_value_advances(self.text(), self.position());
                }
                let value = match self.next_value() {
                    Ok(value) => value,
                    Err(error) => {
                        return Err(error);
                    },
                };
                match state {
                    ObjectState::AfterKey | ObjectState::AfterColon => {
                        members.insert(key.clone(), value);
                        state = ObjectState::AfterValue;
                    },
                    ObjectState::Start | ObjectState::AfterComma => {
                        match value {
                            JsonValue::String(text) => {
                                key = text;
                                state = ObjectState::AfterKey;
                            },
                            _ => {
                                return Err(self.error(ParseErrorKind::UnexpectedValue));
                            },
                        }
                    },
                    ObjectState::AfterValue => {
                        return Err(self.error(ParseErrorKind::UnexpectedValue));
                    },
                }
            }
        }
    }
}

} // verus!
