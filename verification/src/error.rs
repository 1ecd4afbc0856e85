//! Why an input cannot be expanded.

use crate::syntax::MAX_TOKENS;
use crate::token::MAX_NESTING;
use vstd::prelude::*;
use vstd::string::StringExecFns;

verus! {

/// The reasons for which an expansion fails. Items are counted from zero.
#[derive(Clone, Debug, PartialEq, Eq)]
#[allow(inconsistent_fields)]
pub enum ExpandError {
    /// The input holds no item at all.
    EmptyList,
    /// Nothing stands between two commas, or before the first one.
    EmptySegment { item: usize },
    /// The item reads a field by position, as in `pair.0`.
    UnsupportedPositionalField { item: usize, index: u32 },
    /// The item is an expression of a form that gives no name; `text` is the
    /// expression.
    UnsupportedExpression { item: usize, text: String },
    /// The parser rejected the text of an item, or the whole input where
    /// `item` is `None`; `message` is the parser's own.
    UnderlyingParseError { item: Option<usize>, message: String },
    /// An item has more tokens, or the whole input where `item` is `None`
    /// nests its brackets deeper, than the parser is given.
    TooLarge { item: Option<usize> },
}

/// The mathematical value of an [`ExpandError`].
#[allow(inconsistent_fields)]
pub enum ErrorView {
    EmptyList,
    EmptySegment { item: nat },
    UnsupportedPositionalField { item: nat, index: u32 },
    UnsupportedExpression { item: nat, text: Seq<char> },
    UnderlyingParseError { item: Option<nat>, message: Seq<char> },
    TooLarge { item: Option<nat> },
}

impl View for ExpandError {
    type V = ErrorView;

    open spec fn view(&self) -> ErrorView {
        match self {
            ExpandError::EmptyList => ErrorView::EmptyList,
            ExpandError::EmptySegment { item } => ErrorView::EmptySegment { item: *item as nat },
            ExpandError::UnsupportedPositionalField { item, index } => {
                ErrorView::UnsupportedPositionalField { item: *item as nat, index: *index }
            },
            ExpandError::UnsupportedExpression { item, text } => {
                ErrorView::UnsupportedExpression { item: *item as nat, text: text@ }
            },
            ExpandError::UnderlyingParseError { item, message } => {
                ErrorView::UnderlyingParseError {
                    item: match item {
                        Some(i) => Some(*i as nat),
                        None => None,
                    },
                    message: message@,
                }
            },
            ExpandError::TooLarge { item } => ErrorView::TooLarge {
                item: match item {
                    Some(i) => Some(*i as nat),
                    None => None,
                },
            },
        }
    }
}

/// The decimal digit `d`, as text.
pub open spec fn digit(d: nat) -> Seq<char> {
    if d == 0 {
        "0"@
    } else if d == 1 {
        "1"@
    } else if d == 2 {
        "2"@
    } else if d == 3 {
        "3"@
    } else if d == 4 {
        "4"@
    } else if d == 5 {
        "5"@
    } else if d == 6 {
        "6"@
    } else if d == 7 {
        "7"@
    } else if d == 8 {
        "8"@
    } else {
        "9"@
    }
}

/// The number `n` in decimal, without leading zeros.
pub open spec fn decimal(n: nat) -> Seq<char>
    decreases n,
{
    if n < 10 {
        digit(n)
    } else {
        decimal(n / 10) + digit(n % 10)
    }
}

fn digit_text(d: u64) -> (text: &'static str)
    requires
        d < 10,
    ensures
        text@ == digit(d as nat),
{
    if d == 0 {
        "0"
    } else if d == 1 {
        "1"
    } else if d == 2 {
        "2"
    } else if d == 3 {
        "3"
    } else if d == 4 {
        "4"
    } else if d == 5 {
        "5"
    } else if d == 6 {
        "6"
    } else if d == 7 {
        "7"
    } else if d == 8 {
        "8"
    } else {
        "9"
    }
}

/// Writes `n` in decimal.
pub fn decimal_text(n: u64) -> (text: String)
    ensures
        text@ == decimal(n as nat),
    decreases n,
{
    if n < 10 {
        String::from_str(digit_text(n))
    } else {
        let mut text = decimal_text(n / 10);
        text.append(digit_text(n % 10));
        text
    }
}

impl ErrorView {
    /// The error in words: which item failed, counted from zero, and why.
    pub open spec fn message(self) -> Seq<char> {
        match self {
            ErrorView::EmptyList => "at least one expression required"@,
            ErrorView::EmptySegment { item } => "item "@ + decimal(item)
                + " is empty: an expression must stand before each comma"@,
            ErrorView::UnsupportedPositionalField { item, index } => "item "@ + decimal(item)
                + ": positional field access (."@ + decimal(index as nat)
                + ") is not supported, use a named field"@,
            ErrorView::UnsupportedExpression { item, text } => "item "@ + decimal(item)
                + ": unsupported expression `"@ + text
                + "`, expected a path (var), a field access (a.b) or a method call (a.method())"@,
            ErrorView::UnderlyingParseError { item: Some(item), message } => "while parsing item "@
                + decimal(item) + ": "@ + message,
            ErrorView::UnderlyingParseError { item: None, message } => "while reading the list: "@
                + message,
            ErrorView::TooLarge { item: Some(item) } => "item "@ + decimal(item)
                + " is too large: an expression takes at most "@ + decimal(MAX_TOKENS as nat)
                + " tokens"@,
            ErrorView::TooLarge { item: None } => "the list is too large: brackets nest at most "@
                + decimal(MAX_NESTING as nat) + " deep"@,
        }
    }
}

impl ExpandError {
    /// The error in words: which item failed, counted from zero, and why.
    pub fn message(&self) -> (text: String)
        ensures
            text@ == self@.message(),
    {
        match self {
            ExpandError::EmptyList => String::from_str("at least one expression required"),
            ExpandError::EmptySegment { item } => {
                let mut text = String::from_str("item ");
                text.append(decimal_text(*item as u64).as_str());
                text.append(" is empty: an expression must stand before each comma");
                text
            },
            ExpandError::UnsupportedPositionalField { item, index } => {
                let mut text = String::from_str("item ");
                text.append(decimal_text(*item as u64).as_str());
                text.append(": positional field access (.");
                text.append(decimal_text(*index as u64).as_str());
                text.append(") is not supported, use a named field");
                text
            },
            ExpandError::UnsupportedExpression { item, text: expression } => {
                let mut text = String::from_str("item ");
                text.append(decimal_text(*item as u64).as_str());
                text.append(": unsupported expression `");
                text.append(expression.as_str());
                text.append(
                    "`, expected a path (var), a field access (a.b) or a method call (a.method())",
                );
                text
            },
            ExpandError::UnderlyingParseError { item: Some(item), message } => {
                let mut text = String::from_str("while parsing item ");
                text.append(decimal_text(*item as u64).as_str());
                text.append(": ");
                text.append(message.as_str());
                text
            },
            ExpandError::UnderlyingParseError { item: None, message } => {
                let mut text = String::from_str("while reading the list: ");
                text.append(message.as_str());
                text
            },
            ExpandError::TooLarge { item: Some(item) } => {
                let mut text = String::from_str("item ");
                text.append(decimal_text(*item as u64).as_str());
                text.append(" is too large: an expression takes at most ");
                text.append(decimal_text(MAX_TOKENS as u64).as_str());
                text.append(" tokens");
                text
            },
            ExpandError::TooLarge { item: None } => {
                let mut text = String::from_str("the list is too large: brackets nest at most ");
                text.append(decimal_text(MAX_NESTING as u64).as_str());
                text.append(" deep");
                text
            },
        }
    }
}

} // verus!
