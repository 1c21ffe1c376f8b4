//! A recursive-descent parser for JSON text.
//!
//! [`parse`] turns a text into a tree of [`value::JsonValue`]s or into a
//! [`error::ParseError`]. [`lexer::Lexer`] is the cursor that does the work,
//! one value at a time. What each of them returns is stated against the
//! functions of [`grammar`], which say in mathematical terms what a text
//! spells; [`laws`] holds what follows from them.
//!
//! Numbers are kept as exact decimals ([`number::JsonNumber`]): the library
//! does no floating-point arithmetic.

pub mod error;
pub mod grammar;
pub mod laws;
pub mod lexer;
pub mod number;
pub mod value;

use vstd::prelude::*;
use crate::error::ParseError;
use crate::grammar::parse_outcome;
use crate::lexer::{agrees, Lexer};
use crate::value::JsonValue;

verus! {

/// Parses the first value of `input`: the tree that the text spells, or the
/// first error met on the way. What follows the value is not read.
pub fn parse(input: &str) -> (result: Result<JsonValue, ParseError>)
    ensures
        agrees(result, parse_outcome(input@)),
        result matches Ok(value) ==> value@.well_formed(),
{
    let mut lexer = Lexer::new(input);
    lexer.next_value()
}

} // verus!
