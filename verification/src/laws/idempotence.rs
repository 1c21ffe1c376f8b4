use vstd::prelude::*;
use crate::error::ParseError;
use crate::grammar::parse_outcome;
use crate::lexer::agrees;
use crate::value::JsonValue;

verus! {

/// Parsing is a function of the text alone: two runs over one text end
/// alike, with trees of one model or with the same error.
pub proof fn lemma_parse_idempotent(
    text: Seq<char>,
    first: Result<JsonValue, ParseError>,
    second: Result<JsonValue, ParseError>,
)
    requires
        agrees(first, parse_outcome(text)),
        agrees(second, parse_outcome(text)),
    ensures
        match (first, second) {
            (Ok(a), Ok(b)) => a@ == b@,
            (Err(a), Err(b)) => a == b,
            _ => false,
        },
{
}

} // verus!
