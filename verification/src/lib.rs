//! Turns a comma-separated list of expressions into `let` statements that
//! bind a clone of each expression to a name taken from the expression.
//!
//! `person.name, mut total` becomes
//! `let name = person.name.clone();let mut total = total.clone();`.

pub mod error;
pub mod item;
pub mod laws;
pub mod list;
pub mod scan;
pub mod syntax;
pub mod token;

use crate::error::{ErrorView, ExpandError};
use crate::list::{listed, parse_items, render_all, rendered};
use crate::scan::{nesting_bound, shallow};
use crate::token::{lexed, tokenize, MAX_NESTING};
use vstd::prelude::*;

verus! {

/// What an input expands to: the statements of its items, in order, or the
/// error of the first item that has one. An input that nests its brackets
/// deeper than the lexer is given, or one that the lexer rejects, fails as a
/// whole.
pub open spec fn expanded(input: Seq<char>) -> Result<Seq<char>, ErrorView> {
    if nesting_bound(input) > MAX_NESTING {
        Err(ErrorView::TooLarge { item: None })
    } else {
        match lexed(input) {
            Err(message) => Err(ErrorView::UnderlyingParseError { item: None, message }),
            Ok(tokens) => match listed(tokens) {
                Err(e) => Err(e),
                Ok(items) => Ok(rendered(items)),
            },
        }
    }
}

/// The value of an expansion outcome.
pub open spec fn expansion_view(r: Result<String, ExpandError>) -> Result<Seq<char>, ErrorView> {
    match r {
        Ok(text) => Ok(text@),
        Err(e) => Err(e@),
    }
}

/// Expands a list of items, such as `data.field, mut total`, into one
/// statement for each item: `let field = data.field.clone();` and so on.
/// Nothing is returned for a list of which one item fails.
pub fn expand(input: &str) -> (r: Result<String, ExpandError>)
    ensures
        expansion_view(r) == expanded(input@),
{
    if !shallow(input, MAX_NESTING) {
        return Err(ExpandError::TooLarge { item: None });
    }
    match tokenize(input) {
        Err(message) => Err(ExpandError::UnderlyingParseError { item: None, message }),
        Ok(tokens) => match parse_items(tokens.as_slice()) {
            Err(e) => Err(e),
            Ok(items) => Ok(render_all(items.as_slice())),
        },
    }
}

} // verus!
