use vstd::prelude::*;
use crate::grammar::{
    array_from, char_at, digit_value, is_digit, lemma_skip_whitespace_advances, number_at,
    number_from, object_from, skip_whitespace, value_at, ArrayState, NumberState, ObjectState,
};
use crate::number::all_decimal;
use crate::value::{lemma_array_well_formed, lemma_object_well_formed, JsonModel};

verus! {

/// Whether a state of the number parser can lead to well-formed numbers
/// only.
pub open spec fn number_state_sound(state: NumberState) -> bool {
    &&& all_decimal(state.number.digits)
    &&& all_decimal(state.number.exponent_digits)
    &&& state.number.fraction_digits <= state.number.digits.len()
    &&& !state.number.has_exponent ==> !state.number.exponent_negative
        && state.number.exponent_digits.len() == 0
}

/// Reading on from a sound state ends in a well-formed number, if in any.
pub proof fn lemma_number_from_well_formed(s: Seq<char>, i: int, state: NumberState)
    requires
        number_state_sound(state),
    ensures
        number_from(s, i, state) matches Ok(number) ==> number.value.well_formed(),
    decreases s.len() - i,
{
    if 0 <= i < s.len() {
        if s[i] == '-' {
            if !state.number.negative && !state.has_digits() {
                lemma_number_from_well_formed(s, i + 1, state.negated());
            }
        } else if s[i] == '.' {
            if !state.in_fraction {
                lemma_number_from_well_formed(s, i + 1, state.in_fraction());
            }
        } else if s[i] == 'e' || s[i] == 'E' {
            if char_at(s, i + 1) == Some('+') {
                lemma_number_from_well_formed(s, i + 2, state.in_exponent(false));
            } else if char_at(s, i + 1) == Some('-') {
                lemma_number_from_well_formed(s, i + 2, state.in_exponent(true));
            } else if i + 1 < s.len() && is_digit(s[i + 1]) {
                lemma_number_from_well_formed(s, i + 1, state.in_exponent(false));
            }
        } else if is_digit(s[i]) {
            lemma_number_from_well_formed(s, i + 1, state.with_digit(digit_value(s[i])));
        }
    }
}

/// Every number that is read is well formed: it has a digit, its digits are
/// decimal, and no more of them count as fraction digits than there are.
pub proof fn lemma_number_well_formed(s: Seq<char>, i: int)
    ensures
        number_at(s, i) matches Ok(number) ==> number.value.well_formed(),
{
    lemma_number_from_well_formed(s, i, NumberState::start());
}

/// Reading on in an array whose items so far are well formed ends in a
/// well-formed array, if in any.
pub proof fn lemma_array_from_well_formed(
    s: Seq<char>,
    i: int,
    state: ArrayState,
    items: Seq<JsonModel>,
)
    requires
        JsonModel::Array(items).well_formed(),
    ensures
        array_from(s, i, state, items) matches Ok(array) ==> JsonModel::Array(
            array.value,
        ).well_formed(),
    decreases s.len() - i, 1nat,
{
    lemma_skip_whitespace_advances(s, i);
    let j = skip_whitespace(s, i);
    if j < s.len() {
        if s[j] == ']' {
        } else if s[j] == ',' {
            if state == ArrayState::AfterValue {
                lemma_array_from_well_formed(s, j + 1, ArrayState::AfterComma, items);
            }
        } else if state != ArrayState::AfterValue {
            lemma_value_well_formed(s, j);
            match value_at(s, j) {
                Ok(element) => {
                    if j < element.end <= s.len() {
                        let longer = items.push(element.value);
                        lemma_array_well_formed(items);
                        lemma_array_well_formed(longer);
                        lemma_array_from_well_formed(
                            s,
                            element.end,
                            ArrayState::AfterValue,
                            longer,
                        );
                    }
                },
                Err(_) => {},
            }
        }
    }
}

/// Reading on in an object whose members so far are well formed ends in a
/// well-formed object, if in any.
pub proof fn lemma_object_from_well_formed(
    s: Seq<char>,
    i: int,
    state: ObjectState,
    key: Seq<char>,
    members: Map<Seq<char>, JsonModel>,
)
    requires
        JsonModel::Object(members).well_formed(),
    ensures
        object_from(s, i, state, key, members) matches Ok(object) ==> JsonModel::Object(
            object.value,
        ).well_formed(),
    decreases s.len() - i, 1nat,
{
    lemma_skip_whitespace_advances(s, i);
    let j = skip_whitespace(s, i);
    if j < s.len() {
        if s[j] == '}' {
        } else if s[j] == ',' {
            if state == ObjectState::AfterValue {
                lemma_object_from_well_formed(s, j + 1, ObjectState::AfterComma, key, members);
            }
        } else if s[j] == ':' {
            if state == ObjectState::AfterKey {
                lemma_object_from_well_formed(s, j + 1, ObjectState::AfterColon, key, members);
            }
        } else {
            lemma_value_well_formed(s, j);
            match value_at(s, j) {
                Ok(item) => {
                    if j < item.end <= s.len() {
                        if state.expects_value() {
                            lemma_object_well_formed(members);
                            lemma_object_well_formed(members.insert(key, item.value));
                            lemma_object_from_well_formed(
                                s,
                                item.end,
                                ObjectState::AfterValue,
                                key,
                                members.insert(key, item.value),
                            );
                        } else if state.expects_key() {
                            match item.value {
                                JsonModel::String(text) => {
                                    lemma_object_from_well_formed(
                                        s,
                                        item.end,
                                        ObjectState::AfterKey,
                                        text,
                                        members,
                                    );
                                },
                                _ => {},
                            }
                        }
                    }
                },
                Err(_) => {},
            }
        }
    }
}

/// Every value that is read is well formed, and so is everything in it.
pub proof fn lemma_value_well_formed(s: Seq<char>, i: int)
    ensures
        value_at(s, i) matches Ok(value) ==> value.value.well_formed(),
    decreases s.len() - i, 0nat,
{
    lemma_skip_whitespace_advances(s, i);
    let j = skip_whitespace(s, i);
    if j < s.len() {
        if s[j] == '-' || is_digit(s[j]) {
            lemma_number_well_formed(s, j);
        } else if s[j] == '{' {
            lemma_object_well_formed(Map::empty());
            lemma_object_from_well_formed(
                s,
                j + 1,
                ObjectState::Start,
                Seq::empty(),
                Map::empty(),
            );
        } else if s[j] == '[' {
            lemma_array_well_formed(Seq::empty());
            lemma_array_from_well_formed(s, j + 1, ArrayState::Start, Seq::empty());
        }
    }
}

} // verus!
