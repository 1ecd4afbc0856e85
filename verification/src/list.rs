//! The list of items: where each item ends, and what it becomes.

use crate::error::{ErrorView, ExpandError};
use crate::item::{classified, classify, Item, ItemView};
use crate::scan::{few_tokens, token_bound};
use crate::syntax::{parse_expression, parsed, ShapeView, MAX_TOKENS};
use crate::token::{is_comma, is_mut, join, joined, token_views, Token, TokenView};
use vstd::prelude::*;
use vstd::slice::slice_subrange;

verus! {

/// What comes of looking for the end of an expression.
pub enum Reading {
    /// The tokens up to `end` are an expression of this shape.
    Found { shape: ShapeView, end: int },
    /// The tokens up to the first comma are more than the parser is given.
    TooLarge,
    /// No run of tokens up to a comma, or up to the end, is an expression;
    /// `message` is what the parser said of the shortest.
    Rejected { message: Seq<char> },
}

/// Looks for the end of the expression that starts at `from`, among the
/// commas of `run` at or after `at` and the end of `run`.
///
/// The parser takes a comma into an expression only where something is
/// still open before it: generic arguments, the parameters of a closure. So
/// an expression ends at the first comma before which the tokens read as
/// one expression, and where there is no such comma, at the end. `first` is
/// what the parser said of the first run it was given, if it was given one.
/// The search stops where the tokens become more than the parser is given.
pub open spec fn read(run: Seq<TokenView>, from: int, at: int, first: Option<Seq<char>>) -> Reading
    decreases run.len() - at,
{
    if at < run.len() && !is_comma(run[at]) {
        read(run, from, at + 1, first)
    } else {
        let text = joined(run.subrange(from, at));
        if token_bound(text) > MAX_TOKENS {
            match first {
                Some(message) => Reading::Rejected { message },
                None => Reading::TooLarge,
            }
        } else {
            match parsed(text) {
                Ok(shape) => Reading::Found { shape, end: at },
                Err(message) => {
                    let first = match first {
                        Some(earlier) => earlier,
                        None => message,
                    };
                    if at < run.len() {
                        read(run, from, at + 1, Some(first))
                    } else {
                        Reading::Rejected { message: first }
                    }
                },
            }
        }
    }
}

/// What becomes of the item at the front of `run`, which is item number
/// `index`, and where in `run` it ends. Nothing before a comma is an error.
/// A leading `mut` asks for a mutable binding; the expression starts after
/// it, or at the front where there is none.
pub open spec fn item_of(run: Seq<TokenView>, index: nat) -> Result<(ItemView, int), ErrorView> {
    if run.len() == 0 || is_comma(run[0]) {
        Err(ErrorView::EmptySegment { item: index })
    } else {
        let mutable = is_mut(run[0]);
        let from: int = if mutable { 1 } else { 0 };
        match read(run, from, from, None) {
            Reading::Found { shape, end } => match classified(
                shape,
                joined(run.subrange(from, end)),
                mutable,
                index,
            ) {
                Ok(item) => Ok((item, end)),
                Err(e) => Err(e),
            },
            Reading::TooLarge => Err(ErrorView::TooLarge { item: Some(index) }),
            Reading::Rejected { message } => Err(
                ErrorView::UnderlyingParseError { item: Some(index), message },
            ),
        }
    }
}

/// The value of the outcome of reading one item.
pub open spec fn reading_view(r: Result<(Item, usize), ExpandError>) -> Result<
    (ItemView, int),
    ErrorView,
> {
    match r {
        Ok((item, end)) => Ok((item@, end as int)),
        Err(e) => Err(e@),
    }
}

/// Reads the item at the front of `run`, which is item number `index`, and
/// says where in `run` it ends: at a comma, or at the end of `run`.
pub fn parse_item(run: &[Token], index: usize) -> (r: Result<(Item, usize), ExpandError>)
    ensures
        reading_view(r) == item_of(token_views(run@), index as nat),
        r matches Ok((_, end)) ==> end <= run@.len(),
{
    if run.len() == 0 || run[0].is_comma() {
        return Err(ExpandError::EmptySegment { item: index });
    }
    let mutable = run[0].is_mut();
    let from: usize = if mutable { 1 } else { 0 };
    let ghost all = token_views(run@);
    let mut first: Option<String> = None;
    let mut at: usize = from;
    loop
        invariant
            all == token_views(run@),
            run@.len() > 0,
            !is_comma(all[0]),
            mutable == is_mut(all[0]),
            from == if mutable { 1usize } else { 0usize },
            from <= at <= run@.len(),
            read(all, from as int, from as int, None) == read(
                all,
                from as int,
                at as int,
                match first {
                    Some(message) => Some(message@),
                    None => None,
                },
            ),
        decreases run@.len() - at,
    {
        if at < run.len() && !run[at].is_comma() {
            at = at + 1;
            continue ;
        }
        let expression = slice_subrange(run, from, at);
        assert(token_views(expression@) =~= all.subrange(from as int, at as int));
        let text = join(expression);
        if !few_tokens(text.as_str(), MAX_TOKENS) {
            return match first {
                Some(message) => Err(
                    ExpandError::UnderlyingParseError { item: Some(index), message },
                ),
                None => Err(ExpandError::TooLarge { item: Some(index) }),
            };
        }
        match parse_expression(text.as_str()) {
            Ok(shape) => {
                return match classify(shape, text, mutable, index) {
                    Ok(item) => Ok((item, at)),
                    Err(e) => Err(e),
                };
            },
            Err(message) => {
                let message = match first {
                    Some(earlier) => earlier,
                    None => message,
                };
                if at >= run.len() {
                    return Err(ExpandError::UnderlyingParseError { item: Some(index), message });
                }
                first = Some(message);
                at = at + 1;
            },
        }
    }
}

/// Puts the items read so far in front of the outcome for the rest.
pub open spec fn after(earlier: Seq<ItemView>, rest: Result<Seq<ItemView>, ErrorView>) -> Result<
    Seq<ItemView>,
    ErrorView,
> {
    match rest {
        Ok(more) => Ok(earlier + more),
        Err(e) => Err(e),
    }
}

/// The items of `run`, the first of which is item number `index`: the item
/// at the front, then the items of what follows the comma after it. The error
/// of the first item that has one is the error of all.
pub open spec fn items_from(run: Seq<TokenView>, index: nat) -> Result<Seq<ItemView>, ErrorView>
    decreases run.len(),
{
    if run.len() == 0 {
        Ok(Seq::empty())
    } else {
        match item_of(run, index) {
            Err(e) => Err(e),
            Ok((item, end)) => {
                let rest = if 0 <= end < run.len() {
                    run.skip(end + 1)
                } else {
                    Seq::empty()
                };
                after(seq![item], items_from(rest, index + 1))
            },
        }
    }
}

/// The items of a list of tokens. A list without tokens is an error.
pub open spec fn listed(tokens: Seq<TokenView>) -> Result<Seq<ItemView>, ErrorView> {
    if tokens.len() == 0 {
        Err(ErrorView::EmptyList)
    } else {
        items_from(tokens, 0)
    }
}

/// The values of a sequence of items.
pub open spec fn item_views(items: Seq<Item>) -> Seq<ItemView> {
    items.map_values(|i: Item| i@)
}

/// The value of a listing outcome.
pub open spec fn listing_view(r: Result<Vec<Item>, ExpandError>) -> Result<Seq<ItemView>, ErrorView> {
    match r {
        Ok(items) => Ok(item_views(items@)),
        Err(e) => Err(e@),
    }
}

/// Reads the items of a list of tokens, stopping at the first item that
/// cannot be read.
pub fn parse_items(tokens: &[Token]) -> (r: Result<Vec<Item>, ExpandError>)
    ensures
        listing_view(r) == listed(token_views(tokens@)),
{
    if tokens.len() == 0 {
        return Err(ExpandError::EmptyList);
    }
    let ghost all = token_views(tokens@);
    let mut items: Vec<Item> = Vec::new();
    let mut start: usize = 0;
    assert(all.skip(0) =~= all);
    assert(after(Seq::empty(), items_from(all, 0)) == items_from(all, 0)) by {
        if items_from(all, 0) is Ok {
            assert(Seq::<ItemView>::empty() + items_from(all, 0)->Ok_0 =~= items_from(all, 0)->Ok_0);
        }
    }
    while start < tokens.len()
        invariant
            all == token_views(tokens@),
            start <= tokens@.len(),
            items@.len() <= start,
            items_from(all, 0) == after(
                item_views(items@),
                items_from(all.skip(start as int), items@.len() as nat),
            ),
        decreases tokens@.len() - start,
    {
        let run = slice_subrange(tokens, start, tokens.len());
        assert(token_views(run@) =~= all.skip(start as int));
        let ghost earlier = item_views(items@);
        let ghost index = items@.len() as nat;
        match parse_item(run, items.len()) {
            Err(e) => {
                return Err(e);
            },
            Ok((item, end)) => {
                let ghost rest = if end < run@.len() {
                    all.skip(start as int).skip(end + 1)
                } else {
                    Seq::empty()
                };
                items.push(item);
                proof {
                    assert(item_views(items@) =~= earlier.push(item@));
                    let more = items_from(rest, index + 1);
                    if more is Ok {
                        assert(earlier + (seq![item@] + more->Ok_0) =~= earlier.push(item@)
                            + more->Ok_0);
                    }
                }
                if end < run.len() {
                    assert(all.skip(start as int).skip(end + 1) =~= all.skip(start + end + 1));
                    start = start + end + 1;
                } else {
                    start = tokens.len();
                }
            },
        }
    }
    Ok(items)
}

/// The statements of the items, one after the other with nothing between.
pub open spec fn rendered(items: Seq<ItemView>) -> Seq<char>
    decreases items.len(),
{
    if items.len() == 0 {
        Seq::empty()
    } else {
        rendered(items.drop_last()) + items.last().statement()
    }
}

/// Writes the statements of the items, in order.
pub fn render_all(items: &[Item]) -> (text: String)
    ensures
        text@ == rendered(item_views(items@)),
{
    let mut text = String::new();
    let mut k: usize = 0;
    while k < items.len()
        invariant
            k <= items@.len(),
            text@ == rendered(item_views(items@).take(k as int)),
        decreases items@.len() - k,
    {
        assert(item_views(items@).take(k + 1).drop_last() =~= item_views(items@).take(k as int));
        let statement = items[k].render();
        text.append(statement.as_str());
        k = k + 1;
    }
    assert(item_views(items@).take(k as int) =~= item_views(items@));
    text
}

} // verus!
