use vstd::prelude::*;
use crate::error::{Failure, ParseErrorKind};
use crate::number::NumberModel;
use crate::value::JsonModel;

verus! {

/// A successful parse: what was read, and the offset just behind it.
pub struct Parsed<T> {
    /// What was read.
    pub value: T,
    /// The offset behind it, where the cursor stands afterwards.
    pub end: int,
}

/// What parsing some stretch of text comes to.
pub type Outcome<T> = Result<Parsed<T>, Failure>;

/// The outcome of reading `value` and ending at offset `end`.
pub open spec fn parsed<T>(value: T, end: int) -> Outcome<T> {
    Ok(Parsed { value, end })
}

/// The outcome of failing with `kind` while the cursor stands at `end`.
pub open spec fn failed<T>(kind: ParseErrorKind, end: int) -> Outcome<T> {
    Err(Failure { kind, end })
}

/// The character at offset `i`, if the text reaches that far.
pub open spec fn char_at(s: Seq<char>, i: int) -> Option<char> {
    if 0 <= i < s.len() {
        Some(s[i])
    } else {
        None
    }
}

/// The offset after consuming one character at `i`; `i` itself at the end.
pub open spec fn step(s: Seq<char>, i: int) -> int {
    if 0 <= i < s.len() {
        i + 1
    } else {
        i
    }
}

/// Space, tab, line feed and carriage return.
pub open spec fn is_whitespace(c: char) -> bool {
    c == ' ' || c == '\t' || c == '\n' || c == '\r'
}

/// The ten ASCII digits.
pub open spec fn is_digit(c: char) -> bool {
    '0' <= c <= '9'
}

/// The number that an ASCII digit stands for.
pub open spec fn digit_value(c: char) -> u8 {
    (c as int - '0' as int) as u8
}

/// The characters that may follow a number: a comma, a closing bracket or
/// brace, or whitespace.
pub open spec fn is_terminator(c: char) -> bool {
    c == ',' || c == ']' || c == '}' || is_whitespace(c)
}

/// The first offset from `i` on that holds no whitespace.
pub open spec fn skip_whitespace(s: Seq<char>, i: int) -> int
    decreases s.len() - i,
{
    if 0 <= i < s.len() && is_whitespace(s[i]) {
        skip_whitespace(s, i + 1)
    } else {
        i
    }
}

/// Skipping whitespace never moves backwards, nor past the end of the text.
pub proof fn lemma_skip_whitespace_advances(s: Seq<char>, i: int)
    ensures
        i <= skip_whitespace(s, i),
        i <= s.len() ==> skip_whitespace(s, i) <= s.len(),
    decreases s.len() - i,
{
    if 0 <= i < s.len() && is_whitespace(s[i]) {
        lemma_skip_whitespace_advances(s, i + 1);
    }
}

/// How many characters of `word`, counted from its `k`-th, the text holds in
/// order from offset `i + k` on, added to `k`.
pub open spec fn matched_from(s: Seq<char>, i: int, word: Seq<char>, k: int) -> int
    decreases word.len() - k,
{
    if 0 <= k < word.len() && char_at(s, i + k) == Some(word[k]) {
        matched_from(s, i, word, k + 1)
    } else {
        k
    }
}

/// The length of the longest prefix of `word` that stands in the text at
/// offset `i`.
pub open spec fn matched_prefix(s: Seq<char>, i: int, word: Seq<char>) -> int {
    matched_from(s, i, word, 0)
}

/// Whether a literal may end at offset `k`: the text ends there, or a comma
/// or a closing bracket or brace stands there.
pub open spec fn literal_may_end(s: Seq<char>, k: int) -> bool {
    match char_at(s, k) {
        None => true,
        Some(c) => c == ',' || c == '}' || c == ']',
    }
}

/// Reading the literal `word` at offset `i`, where it stands for `value`.
/// The word must be there letter for letter; behind it, after any
/// whitespace, must come something that may follow a value.
pub open spec fn literal_at(s: Seq<char>, i: int, word: Seq<char>, value: JsonModel) -> Outcome<
    JsonModel,
> {
    let n = matched_prefix(s, i, word);
    if n < word.len() {
        failed(ParseErrorKind::InvalidLiteral, i + n)
    } else {
        let k = skip_whitespace(s, i + n);
        if literal_may_end(s, k) {
            parsed(value, k)
        } else {
            failed(ParseErrorKind::InvalidLiteral, k)
        }
    }
}

/// The first offset from `i` on that holds a double quote; the length of
/// the text if there is none.
pub open spec fn find_quote(s: Seq<char>, i: int) -> int
    decreases s.len() - i,
{
    if 0 <= i < s.len() && s[i] != '"' {
        find_quote(s, i + 1)
    } else {
        i
    }
}

/// Reading a string whose first character stands at offset `start`, the
/// opening quote being consumed already: everything up to the next double
/// quote, taken as it is.
pub open spec fn string_from(s: Seq<char>, start: int) -> Outcome<Seq<char>> {
    let q = find_quote(s, start);
    if 0 <= start <= q < s.len() {
        parsed(s.subrange(start, q), q + 1)
    } else {
        failed(ParseErrorKind::UnterminatedString, q)
    }
}

/// Reading a string whose opening quote stands at offset `i`. One character
/// is consumed for the quote, whatever it is.
pub open spec fn string_at(s: Seq<char>, i: int) -> Outcome<Seq<char>> {
    string_from(s, step(s, i))
}

/// The number parser between two characters: the number as far as it has
/// been read, and whether the decimal point has been passed.
pub struct NumberState {
    /// The number as far as it has been read.
    pub number: NumberModel,
    /// Whether the decimal point has been passed.
    pub in_fraction: bool,
}

impl NumberState {
    /// Before the first character: no sign, no digits, no exponent.
    pub open spec fn start() -> NumberState {
        NumberState {
            number: NumberModel {
                negative: false,
                digits: Seq::empty(),
                fraction_digits: 0,
                has_exponent: false,
                exponent_negative: false,
                exponent_digits: Seq::empty(),
            },
            in_fraction: false,
        }
    }

    /// Whether a digit of the coefficient has been read.
    pub open spec fn has_digits(self) -> bool {
        self.number.digits.len() > 0
    }

    /// After a minus sign.
    pub open spec fn negated(self) -> NumberState {
        NumberState { number: NumberModel { negative: true, ..self.number }, ..self }
    }

    /// After a decimal point.
    pub open spec fn in_fraction(self) -> NumberState {
        NumberState { in_fraction: true, ..self }
    }

    /// After an exponent marker and its sign.
    pub open spec fn in_exponent(self, negative: bool) -> NumberState {
        NumberState {
            number: NumberModel {
                has_exponent: true,
                exponent_negative: negative,
                ..self.number
            },
            ..self
        }
    }

    /// After a digit: it joins the exponent once a marker has been read, and
    /// the coefficient before that, where it counts as a fraction digit once
    /// the decimal point has been passed.
    pub open spec fn with_digit(self, d: u8) -> NumberState {
        if self.number.has_exponent {
            NumberState {
                number: NumberModel {
                    exponent_digits: self.number.exponent_digits.push(d),
                    ..self.number
                },
                ..self
            }
        } else {
            NumberState {
                number: NumberModel {
                    digits: self.number.digits.push(d),
                    fraction_digits: if self.in_fraction {
                        self.number.fraction_digits + 1
                    } else {
                        self.number.fraction_digits
                    },
                    ..self.number
                },
                ..self
            }
        }
    }

    /// Where the number ends at offset `i`: it stands if it has a digit.
    pub open spec fn finish(self, i: int) -> Outcome<NumberModel> {
        if self.has_digits() {
            parsed(self.number, i)
        } else {
            failed(ParseErrorKind::EmptyNumber, i)
        }
    }
}

/// Reading on in a number from offset `i` in state `state`.
///
/// A minus sign is taken once, and only before the first digit of the
/// coefficient. A decimal point is taken once. An exponent marker must be
/// followed by a sign or a digit; the sign is consumed with it. The end of
/// the text, or a character that may follow a number, ends it.
pub open spec fn number_from(s: Seq<char>, i: int, state: NumberState) -> Outcome<NumberModel>
    decreases s.len() - i,
{
    if !(0 <= i < s.len()) {
        state.finish(i)
    } else if s[i] == '-' {
        if state.number.negative {
            failed(ParseErrorKind::DoubleNegative, i + 1)
        } else if state.has_digits() {
            failed(ParseErrorKind::UnexpectedCharacter, i)
        } else {
            number_from(s, i + 1, state.negated())
        }
    } else if s[i] == '.' {
        if state.in_fraction {
            failed(ParseErrorKind::UnexpectedDecimalPoint, i + 1)
        } else {
            number_from(s, i + 1, state.in_fraction())
        }
    } else if s[i] == 'e' || s[i] == 'E' {
        if char_at(s, i + 1) == Some('+') {
            number_from(s, i + 2, state.in_exponent(false))
        } else if char_at(s, i + 1) == Some('-') {
            number_from(s, i + 2, state.in_exponent(true))
        } else if i + 1 < s.len() && is_digit(s[i + 1]) {
            number_from(s, i + 1, state.in_exponent(false))
        } else {
            failed(ParseErrorKind::MalformedExponent, i + 1)
        }
    } else if is_digit(s[i]) {
        number_from(s, i + 1, state.with_digit(digit_value(s[i])))
    } else if is_terminator(s[i]) {
        state.finish(i)
    } else {
        failed(ParseErrorKind::UnexpectedCharacter, i)
    }
}

/// Reading a number that starts at offset `i`.
pub open spec fn number_at(s: Seq<char>, i: int) -> Outcome<NumberModel> {
    number_from(s, i, NumberState::start())
}

/// Where the array parser stands between two tokens.
#[derive(Clone, Copy, Debug, PartialEq, Eq, Structural)]
pub enum ArrayState {
    /// Behind the opening bracket: an element or the closing bracket may come.
    Start,
    /// Behind an element: a comma or the closing bracket may come.
    AfterValue,
    /// Behind a comma: an element must come.
    AfterComma,
}

/// Where the object parser stands between two tokens.
#[derive(Clone, Copy, Debug, PartialEq, Eq, Structural)]
pub enum ObjectState {
    /// Behind the opening brace: a key or the closing brace may come.
    Start,
    /// Behind a key: a colon or the value may come.
    AfterKey,
    /// Behind the colon: the value must come.
    AfterColon,
    /// Behind the value of a pair: a comma or the closing brace may come.
    AfterValue,
    /// Behind a comma: a key must come.
    AfterComma,
}

impl ObjectState {
    /// Whether a key is due.
    pub open spec fn expects_key(self) -> bool {
        self == ObjectState::Start || self == ObjectState::AfterComma
    }

    /// Whether the value of a pair is due.
    pub open spec fn expects_value(self) -> bool {
        self == ObjectState::AfterKey || self == ObjectState::AfterColon
    }
}

/// Reading an array whose opening bracket stands at offset `i`. One
/// character is consumed for the bracket, whatever it is; at the end of the
/// text there is none.
pub open spec fn array_at(s: Seq<char>, i: int) -> Outcome<Seq<JsonModel>>
    decreases s.len() - i, 0nat,
{
    if 0 <= i < s.len() {
        array_from(s, i + 1, ArrayState::Start, Seq::empty())
    } else {
        failed(ParseErrorKind::UnexpectedEof, i)
    }
}

/// Reading an object whose opening brace stands at offset `i`. One character
/// is consumed for the brace, whatever it is; at the end of the text there
/// is none.
pub open spec fn object_at(s: Seq<char>, i: int) -> Outcome<Map<Seq<char>, JsonModel>>
    decreases s.len() - i, 0nat,
{
    if 0 <= i < s.len() {
        object_from(s, i + 1, ObjectState::Start, Seq::empty(), Map::empty())
    } else {
        failed(ParseErrorKind::UnexpectedEof, i)
    }
}

/// Reading on in an array from offset `i`, in state `state`, with `items`
/// read so far. Whitespace is skipped before each token.
///
/// Every value ends behind the offset at which it starts, and within the
/// text, so the test on `element.end` never fails; it is there to show that
/// reading comes to an end.
pub open spec fn array_from(s: Seq<char>, i: int, state: ArrayState, items: Seq<JsonModel>)
    -> Outcome<Seq<JsonModel>>
    decreases s.len() - i, 2nat,
{
    let j = skip_whitespace(s, i);
    proof {
        lemma_skip_whitespace_advances(s, i);
    }
    if j >= s.len() {
        failed(ParseErrorKind::UnexpectedEof, j)
    } else if s[j] == ']' {
        if state == ArrayState::AfterComma {
            failed(ParseErrorKind::TrailingComma, j)
        } else {
            parsed(items, j + 1)
        }
    } else if s[j] == ',' {
        if state == ArrayState::AfterValue {
            array_from(s, j + 1, ArrayState::AfterComma, items)
        } else {
            failed(ParseErrorKind::UnexpectedComma, j)
        }
    } else if state == ArrayState::AfterValue {
        failed(ParseErrorKind::UnexpectedValue, j)
    } else {
        match value_at(s, j) {
            Ok(element) => if j < element.end <= s.len() {
                array_from(s, element.end, ArrayState::AfterValue, items.push(element.value))
            } else {
                failed(ParseErrorKind::UnexpectedEof, j)
            },
            Err(failure) => Err(failure),
        }
    }
}

/// Reading on in an object from offset `i`, in state `state`, with the key
/// read last in `key` and the pairs written so far in `members`. Whitespace
/// is skipped before each token.
///
/// Keys and values are read as values are read anywhere. Where a key is due,
/// a value that is no string is refused once it has been read. Where the
/// value of a pair is due, the value is written under the key read last and
/// replaces what stood there; the colon between key and value may be
/// missing. Behind the value of a pair only a comma or the closing brace
/// may come: anything else is refused once it has been read as a value.
///
/// Every value ends behind the offset at which it starts, and within the
/// text, so the test on `item.end` never fails; it is there to show that
/// reading comes to an end.
pub open spec fn object_from(
    s: Seq<char>,
    i: int,
    state: ObjectState,
    key: Seq<char>,
    members: Map<Seq<char>, JsonModel>,
) -> Outcome<Map<Seq<char>, JsonModel>>
    decreases s.len() - i, 2nat,
{
    let j = skip_whitespace(s, i);
    proof {
        lemma_skip_whitespace_advances(s, i);
    }
    if j >= s.len() {
        failed(ParseErrorKind::UnexpectedEof, j)
    } else if s[j] == '}' {
        if state == ObjectState::AfterComma {
            failed(ParseErrorKind::TrailingComma, j)
        } else if state.expects_value() {
            failed(ParseErrorKind::UnexpectedClosingBracket, j)
        } else {
            parsed(members, j + 1)
        }
    } else if s[j] == ',' {
        if state == ObjectState::AfterValue {
            object_from(s, j + 1, ObjectState::AfterComma, key, members)
        } else {
            failed(ParseErrorKind::UnexpectedComma, j)
        }
    } else if s[j] == ':' {
        if state == ObjectState::AfterKey {
            object_from(s, j + 1, ObjectState::AfterColon, key, members)
        } else {
            failed(ParseErrorKind::UnexpectedColon, j)
        }
    } else {
        match value_at(s, j) {
            Ok(item) => if !(j < item.end <= s.len()) {
                failed(ParseErrorKind::UnexpectedEof, j)
            } else if state.expects_value() {
                object_from(
                    s,
                    item.end,
                    ObjectState::AfterValue,
                    key,
                    members.insert(key, item.value),
                )
            } else if state.expects_key() {
                match item.value {
                    JsonModel::String(text) => object_from(
                        s,
                        item.end,
                        ObjectState::AfterKey,
                        text,
                        members,
                    ),
                    _ => failed(ParseErrorKind::UnexpectedValue, item.end),
                }
            } else {
                failed(ParseErrorKind::UnexpectedValue, item.end)
            },
            Err(failure) => Err(failure),
        }
    }
}

/// Reading one value from offset `i`: whitespace is skipped, and the first
/// character behind it decides what is read.
pub open spec fn value_at(s: Seq<char>, i: int) -> Outcome<JsonModel>
    decreases s.len() - i, 1nat,
{
    let j = skip_whitespace(s, i);
    proof {
        lemma_skip_whitespace_advances(s, i);
    }
    if j >= s.len() {
        failed(ParseErrorKind::UnexpectedEof, j)
    } else if s[j] == '-' || is_digit(s[j]) {
        match number_at(s, j) {
            Ok(number) => parsed(JsonModel::Number(number.value), number.end),
            Err(failure) => Err(failure),
        }
    } else if s[j] == '{' {
        match object_at(s, j) {
            Ok(object) => parsed(JsonModel::Object(object.value), object.end),
            Err(failure) => Err(failure),
        }
    } else if s[j] == '[' {
        match array_at(s, j) {
            Ok(array) => parsed(JsonModel::Array(array.value), array.end),
            Err(failure) => Err(failure),
        }
    } else if s[j] == '"' {
        match string_at(s, j) {
            Ok(string) => parsed(JsonModel::String(string.value), string.end),
            Err(failure) => Err(failure),
        }
    } else if s[j] == 'n' {
        literal_at(s, j, "null"@, JsonModel::Null)
    } else if s[j] == 'f' {
        literal_at(s, j, "false"@, JsonModel::Boolean(false))
    } else if s[j] == 't' {
        literal_at(s, j, "true"@, JsonModel::Boolean(true))
    } else {
        failed(ParseErrorKind::UnexpectedCharacter, j)
    }
}

/// What parsing a whole text comes to: its first value, or the first error.
pub open spec fn parse_outcome(s: Seq<char>) -> Outcome<JsonModel> {
    value_at(s, 0)
}

} // verus!
