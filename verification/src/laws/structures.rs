use vstd::prelude::*;
use crate::error::ParseErrorKind;
use crate::grammar::{
    array_at, array_from, failed, object_at, object_from, parsed, skip_whitespace, value_at,
    ArrayState, ObjectState,
};
use crate::laws::progress::lemma_value_advances;
use crate::laws::scanning::lemma_skip_whitespace_stops;
use crate::value::JsonModel;

verus! {

/// Whitespace before a value changes nothing: reading a value from `i` is
/// reading it from the first offset behind the whitespace at `i`.
pub proof fn lemma_value_skips_whitespace(s: Seq<char>, i: int)
    requires
        0 <= i <= s.len(),
    ensures
        value_at(s, i) == value_at(s, skip_whitespace(s, i)),
        value_at(s, i) is Ok ==> {
            let j = skip_whitespace(s, i);
            j < s.len() && s[j] != ',' && s[j] != ']' && s[j] != '}' && s[j] != ':'
        },
{
    lemma_skip_whitespace_stops(s, i);
    let j = skip_whitespace(s, i);
    assert(skip_whitespace(s, j) == j);
}

/// An element of an array as it lies in a text: the offset from which it is
/// read, its value, and the offset behind it.
pub struct Element {
    /// The offset from which the element is read.
    pub start: int,
    /// What the element parses to.
    pub value: JsonModel,
    /// The offset behind the element.
    pub end: int,
}

/// The values of the elements, in order.
pub open spec fn element_values(elements: Seq<Element>) -> Seq<JsonModel> {
    Seq::new(elements.len(), |k: int| elements[k].value)
}

/// Whether `elements` are the elements of an array that lies in `s`: the
/// first is read from `first`, the offset behind the opening bracket; each
/// is read as a value; behind each but the last comes, after any
/// whitespace, a comma, and the next is read from behind it; behind the last
/// comes, after any whitespace, the closing bracket at `close`. Without
/// elements, only whitespace lies between `first` and `close`.
pub open spec fn array_laid_out(s: Seq<char>, first: int, elements: Seq<Element>, close: int)
    -> bool {
    &&& 0 <= first <= close < s.len()
    &&& s[close] == ']'
    &&& forall|k: int|
        0 <= k < elements.len() ==> 0 <= (#[trigger] elements[k]).start <= s.len() && value_at(
            s,
            elements[k].start,
        ) == parsed(elements[k].value, elements[k].end)
    &&& forall|k: int|
        0 <= k < elements.len() - 1 ==> {
            let comma = skip_whitespace(s, (#[trigger] elements[k]).end);
            comma < s.len() && s[comma] == ',' && elements[k + 1].start == comma + 1
        }
    &&& if elements.len() == 0 {
        skip_whitespace(s, first) == close
    } else {
        elements[0].start == first && skip_whitespace(s, elements.last().end) == close
    }
}

proof fn lemma_array_from_element(
    s: Seq<char>,
    first: int,
    elements: Seq<Element>,
    close: int,
    k: int,
)
    requires
        array_laid_out(s, first, elements, close),
        0 <= k < elements.len(),
    ensures
        array_from(
            s,
            elements[k].start,
            if k == 0 {
                ArrayState::Start
            } else {
                ArrayState::AfterComma
            },
            element_values(elements.take(k)),
        ) == parsed(element_values(elements), close + 1),
    decreases elements.len() - k,
{
    let element = elements[k];
    let state = if k == 0 {
        ArrayState::Start
    } else {
        ArrayState::AfterComma
    };
    let before = element_values(elements.take(k));
    let after = element_values(elements.take(k + 1));
    lemma_value_skips_whitespace(s, element.start);
    lemma_value_advances(s, element.start);
    lemma_skip_whitespace_stops(s, element.end);
    assert(before.push(element.value) =~= after);
    assert(array_from(s, element.start, state, before) == array_from(
        s,
        element.end,
        ArrayState::AfterValue,
        after,
    ));
    if k < elements.len() - 1 {
        lemma_array_from_element(s, first, elements, close, k + 1);
    } else {
        assert(elements.take(k + 1) =~= elements);
    }
}

/// An array that lies in a text as JSON writes it, its elements separated
/// by commas, parses to the values of its elements in their order, and the
/// cursor ends behind the closing bracket.
pub proof fn lemma_array_parses(
    s: Seq<char>,
    open: int,
    elements: Seq<Element>,
    close: int,
)
    requires
        0 <= open < s.len(),
        s[open] == '[',
        array_laid_out(s, open + 1, elements, close),
    ensures
        array_at(s, open) == parsed(element_values(elements), close + 1),
        value_at(s, open) == parsed(JsonModel::Array(element_values(elements)), close + 1),
{
    if elements.len() == 0 {
        assert(element_values(elements) =~= Seq::<JsonModel>::empty());
    } else {
        lemma_array_from_element(s, open + 1, elements, close, 0);
        assert(element_values(elements.take(0)) =~= Seq::<JsonModel>::empty());
    }
    assert(skip_whitespace(s, open) == open);
}

/// A member of an object as it lies in a text: the offset from which its
/// key is read, the key, the offset behind the key, the value, which is read
/// from behind the colon, and the offset behind the value.
pub struct Member {
    /// The offset from which the key is read.
    pub start: int,
    /// The characters of the key.
    pub key: Seq<char>,
    /// The offset behind the key.
    pub key_end: int,
    /// What the value parses to.
    pub value: JsonModel,
    /// The offset behind the value.
    pub end: int,
}

/// The mapping that results from writing the members in order, so that of
/// two members with one key the later one stays.
pub open spec fn members_written(members: Seq<Member>) -> Map<Seq<char>, JsonModel>
    decreases members.len(),
{
    if members.len() == 0 {
        Map::empty()
    } else {
        members_written(members.drop_last()).insert(members.last().key, members.last().value)
    }
}

/// Whether `members` are the members of an object that lies in `s`: the
/// first is read from `first`, the offset behind the opening brace; each
/// key is read as a value and is a string; behind it comes, after any
/// whitespace, a colon, and the value is read from behind the colon; behind
/// each member but the last comes, after any whitespace, a comma, and the
/// next is read from behind it; behind the last comes, after any whitespace,
/// the closing brace at `close`. Without members, only whitespace lies
/// between `first` and `close`.
pub open spec fn object_laid_out(s: Seq<char>, first: int, members: Seq<Member>, close: int)
    -> bool {
    &&& 0 <= first <= close < s.len()
    &&& s[close] == '}'
    &&& forall|k: int|
        0 <= k < members.len() ==> {
            let member = #[trigger] members[k];
            let colon = skip_whitespace(s, member.key_end);
            &&& 0 <= member.start <= s.len()
            &&& value_at(s, member.start) == parsed(JsonModel::String(member.key), member.key_end)
            &&& colon < s.len()
            &&& s[colon] == ':'
            &&& value_at(s, colon + 1) == parsed(member.value, member.end)
        }
    &&& forall|k: int|
        0 <= k < members.len() - 1 ==> {
            let comma = skip_whitespace(s, (#[trigger] members[k]).end);
            comma < s.len() && s[comma] == ',' && members[k + 1].start == comma + 1
        }
    &&& if members.len() == 0 {
        skip_whitespace(s, first) == close
    } else {
        members[0].start == first && skip_whitespace(s, members.last().end) == close
    }
}

proof fn lemma_object_from_member(
    s: Seq<char>,
    first: int,
    members: Seq<Member>,
    close: int,
    k: int,
    pending: Seq<char>,
)
    requires
        object_laid_out(s, first, members, close),
        0 <= k < members.len(),
    ensures
        object_from(
            s,
            members[k].start,
            if k == 0 {
                ObjectState::Start
            } else {
                ObjectState::AfterComma
            },
            pending,
            members_written(members.take(k)),
        ) == parsed(members_written(members), close + 1),
    decreases members.len() - k,
{
    let member = members[k];
    let state = if k == 0 {
        ObjectState::Start
    } else {
        ObjectState::AfterComma
    };
    let before = members_written(members.take(k));
    let after = members_written(members.take(k + 1));
    let colon = skip_whitespace(s, member.key_end);
    assert(after == before.insert(member.key, member.value)) by {
        assert(members.take(k + 1).drop_last() =~= members.take(k));
    }
    assert(object_from(s, member.start, state, pending, before) == object_from(
        s,
        member.key_end,
        ObjectState::AfterKey,
        member.key,
        before,
    )) by {
        lemma_value_skips_whitespace(s, member.start);
        lemma_value_advances(s, member.start);
    }
    lemma_value_advances(s, member.start);
    lemma_skip_whitespace_stops(s, member.key_end);
    assert(object_from(s, member.key_end, ObjectState::AfterKey, member.key, before)
        == object_from(s, colon + 1, ObjectState::AfterColon, member.key, before));
    assert(object_from(s, colon + 1, ObjectState::AfterColon, member.key, before)
        == object_from(s, member.end, ObjectState::AfterValue, member.key, after)) by {
        lemma_value_skips_whitespace(s, colon + 1);
        lemma_value_advances(s, colon + 1);
    }
    lemma_value_advances(s, colon + 1);
    lemma_skip_whitespace_stops(s, member.end);
    if k < members.len() - 1 {
        lemma_object_from_member(s, first, members, close, k + 1, member.key);
    } else {
        assert(members.take(k + 1) =~= members);
    }
}

/// An object that lies in a text as JSON writes it, each key followed by a
/// colon and its value, the members separated by commas, parses to the
/// mapping that holds under each key the value of the last member with that
/// key, and the cursor ends behind the closing brace.
pub proof fn lemma_object_parses(s: Seq<char>, open: int, members: Seq<Member>, close: int)
    requires
        0 <= open < s.len(),
        s[open] == '{',
        object_laid_out(s, open + 1, members, close),
    ensures
        object_at(s, open) == parsed(members_written(members), close + 1),
        value_at(s, open) == parsed(JsonModel::Object(members_written(members)), close + 1),
{
    if members.len() > 0 {
        lemma_object_from_member(s, open + 1, members, close, 0, Seq::empty());
        assert(members.take(0) =~= Seq::<Member>::empty());
    }
    assert(skip_whitespace(s, open) == open);
}

/// The mapping of some members holds, under each key that occurs, the value
/// of the last member with that key, and has no other keys.
pub proof fn lemma_last_write_wins(members: Seq<Member>, k: int)
    requires
        0 <= k < members.len(),
        forall|later: int| k < later < members.len() ==> members[later].key != members[k].key,
    ensures
        members_written(members).contains_key(members[k].key),
        members_written(members)[members[k].key] == members[k].value,
    decreases members.len(),
{
    if k < members.len() - 1 {
        let front = members.drop_last();
        assert(members[members.len() - 1].key != members[k].key);
        assert forall|later: int| k < later < front.len() implies front[later].key
            != front[k].key by {
            assert(front[later] == members[later]);
        }
        lemma_last_write_wins(front, k);
    }
}

/// Behind an element of an array only a comma or the closing bracket may
/// come: anything else is refused where it starts, before it is read.
pub proof fn lemma_array_refuses_missing_comma(s: Seq<char>, i: int, items: Seq<JsonModel>)
    requires
        0 <= i <= s.len(),
        skip_whitespace(s, i) < s.len(),
        s[skip_whitespace(s, i)] != ']',
        s[skip_whitespace(s, i)] != ',',
    ensures
        array_from(s, i, ArrayState::AfterValue, items) == failed::<Seq<JsonModel>>(
            ParseErrorKind::UnexpectedValue,
            skip_whitespace(s, i),
        ),
{
}

/// Behind the value of a pair only a comma or the closing brace may come:
/// whatever else is read there as a value, a string included, is refused
/// behind it. No key follows a value without a comma between them.
pub proof fn lemma_object_refuses_missing_comma(
    s: Seq<char>,
    i: int,
    value: JsonModel,
    end: int,
    key: Seq<char>,
    members: Map<Seq<char>, JsonModel>,
)
    requires
        0 <= i <= s.len(),
        value_at(s, i) == parsed(value, end),
    ensures
        object_from(s, i, ObjectState::AfterValue, key, members) == failed::<
            Map<Seq<char>, JsonModel>,
        >(ParseErrorKind::UnexpectedValue, end),
{
    lemma_value_skips_whitespace(s, i);
    lemma_value_advances(s, i);
}

} // verus!
