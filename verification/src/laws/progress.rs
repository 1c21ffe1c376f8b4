use vstd::prelude::*;
use crate::grammar::{
    array_from, char_at, digit_value, is_digit, literal_at, matched_prefix, number_from,
    object_from, skip_whitespace, value_at, ArrayState, NumberState, ObjectState,
};
use crate::laws::scanning::{
    lemma_find_quote_stops, lemma_matched_from_stops, lemma_skip_whitespace_stops,
};
use crate::value::JsonModel;

verus! {

/// A number ends within the text, at or behind the offset at which reading
/// went on; one that was still without a digit there ends behind it.
pub proof fn lemma_number_from_advances(s: Seq<char>, i: int, state: NumberState)
    requires
        0 <= i <= s.len(),
    ensures
        match number_from(s, i, state) {
            Ok(number) => i <= number.end <= s.len() && (!state.has_digits() ==> i < number.end),
            Err(failure) => i <= failure.end <= s.len(),
        },
    decreases s.len() - i,
{
    if i < s.len() {
        if s[i] == '-' {
            if !state.number.negative && !state.has_digits() {
                lemma_number_from_advances(s, i + 1, state.negated());
            }
        } else if s[i] == '.' {
            if !state.in_fraction {
                lemma_number_from_advances(s, i + 1, state.in_fraction());
            }
        } else if s[i] == 'e' || s[i] == 'E' {
            if char_at(s, i + 1) == Some('+') {
                lemma_number_from_advances(s, i + 2, state.in_exponent(false));
            } else if char_at(s, i + 1) == Some('-') {
                lemma_number_from_advances(s, i + 2, state.in_exponent(true));
            } else if i + 1 < s.len() && is_digit(s[i + 1]) {
                lemma_number_from_advances(s, i + 1, state.in_exponent(false));
            }
        } else if is_digit(s[i]) {
            lemma_number_from_advances(
                s,
                i + 1,
                state.with_digit(digit_value(s[i])),
            );
        }
    }
}

/// A literal that is read ends behind its first character, within the text.
pub proof fn lemma_literal_advances(s: Seq<char>, i: int, word: Seq<char>, value: JsonModel)
    requires
        0 <= i <= s.len(),
        word.len() > 0,
    ensures
        match literal_at(s, i, word, value) {
            Ok(literal) => i < literal.end <= s.len(),
            Err(failure) => i <= failure.end <= s.len(),
        },
{
    lemma_matched_from_stops(s, i, word, 0);
    let n = matched_prefix(s, i, word);
    if n > 0 {
        assert(char_at(s, i + (n - 1)) == Some(word[n - 1]));
    }
    lemma_skip_whitespace_stops(s, i + n);
}

/// Reading on in an array ends within the text, behind the offset at which
/// it went on if it succeeds.
pub proof fn lemma_array_from_advances(
    s: Seq<char>,
    i: int,
    state: ArrayState,
    items: Seq<JsonModel>,
)
    requires
        0 <= i <= s.len(),
    ensures
        match array_from(s, i, state, items) {
            Ok(array) => i < array.end <= s.len(),
            Err(failure) => i <= failure.end <= s.len(),
        },
    decreases s.len() - i, 1nat,
{
    lemma_skip_whitespace_stops(s, i);
    let j = skip_whitespace(s, i);
    if j < s.len() {
        if s[j] == ']' {
        } else if s[j] == ',' {
            if state == ArrayState::AfterValue {
                lemma_array_from_advances(s, j + 1, ArrayState::AfterComma, items);
            }
        } else if state != ArrayState::AfterValue {
            lemma_value_advances(s, j);
            match value_at(s, j) {
                Ok(element) => {
                    lemma_array_from_advances(
                        s,
                        element.end,
                        ArrayState::AfterValue,
                        items.push(element.value),
                    );
                },
                Err(_) => {},
            }
        }
    }
}

/// Reading on in an object ends within the text, behind the offset at which
/// it went on if it succeeds.
pub proof fn lemma_object_from_advances(
    s: Seq<char>,
    i: int,
    state: ObjectState,
    key: Seq<char>,
    members: Map<Seq<char>, JsonModel>,
)
    requires
        0 <= i <= s.len(),
    ensures
        match object_from(s, i, state, key, members) {
            Ok(object) => i < object.end <= s.len(),
            Err(failure) => i <= failure.end <= s.len(),
        },
    decreases s.len() - i, 1nat,
{
    lemma_skip_whitespace_stops(s, i);
    let j = skip_whitespace(s, i);
    if j < s.len() {
        if s[j] == '}' {
        } else if s[j] == ',' {
            if state == ObjectState::AfterValue {
                lemma_object_from_advances(s, j + 1, ObjectState::AfterComma, key, members);
            }
        } else if s[j] == ':' {
            if state == ObjectState::AfterKey {
                lemma_object_from_advances(s, j + 1, ObjectState::AfterColon, key, members);
            }
        } else {
            lemma_value_advances(s, j);
            match value_at(s, j) {
                Ok(item) => {
                    if state.expects_value() {
                        lemma_object_from_advances(
                            s,
                            item.end,
                            ObjectState::AfterValue,
                            key,
                            members.insert(key, item.value),
                        );
                    } else if state.expects_key() {
                        match item.value {
                            JsonModel::String(text) => {
                                lemma_object_from_advances(
                                    s,
                                    item.end,
                                    ObjectState::AfterKey,
                                    text,
                                    members,
                                );
                            },
                            _ => {},
                        }
                    }
                },
                Err(_) => {},
            }
        }
    }
}

/// Every value spans at least one character: a value that is read ends
/// behind the whitespace before it, within the text; a failure is raised
/// within the text.
pub proof fn lemma_value_advances(s: Seq<char>, i: int)
    requires
        0 <= i <= s.len(),
    ensures
        match value_at(s, i) {
            Ok(value) => skip_whitespace(s, i) < value.end <= s.len(),
            Err(failure) => i <= failure.end <= s.len(),
        },
    decreases s.len() - i, 0nat,
{
    lemma_skip_whitespace_stops(s, i);
    let j = skip_whitespace(s, i);
    if j < s.len() {
        if s[j] == '-' || is_digit(s[j]) {
            lemma_number_from_advances(s, j, NumberState::start());
        } else if s[j] == '{' {
            lemma_object_from_advances(s, j + 1, ObjectState::Start, Seq::empty(), Map::empty());
        } else if s[j] == '[' {
            lemma_array_from_advances(s, j + 1, ArrayState::Start, Seq::empty());
        } else if s[j] == '"' {
            lemma_find_quote_stops(s, j + 1);
        } else if s[j] == 'n' {
            reveal_strlit("null");
            lemma_literal_advances(s, j, "null"@, JsonModel::Null);
        } else if s[j] == 'f' {
            reveal_strlit("false");
            lemma_literal_advances(s, j, "false"@, JsonModel::Boolean(false));
        } else if s[j] == 't' {
            reveal_strlit("true");
            lemma_literal_advances(s, j, "true"@, JsonModel::Boolean(true));
        }
    }
}

} // verus!
