//! What holds of every expansion.

use crate::error::ErrorView;
use crate::expanded;
use crate::item::{classified, field_of, ItemView};
use crate::list::{item_of, items_from, listed, read, rendered, Reading};
use crate::scan::{
    all_word, is_opener, is_word, law_flat_text, law_token_bound_of_parts, law_word_is_one_token, nesting,
    nesting_bound, no_opener, token_bound,
};
use crate::syntax::{parsed, ShapeView, MAX_TOKENS};
use crate::token::{is_comma, is_mut, joined, lexed, TokenKind, TokenView, MAX_NESTING};
use vstd::prelude::*;

verus! {

/// No token of `tokens` is a comma.
pub open spec fn comma_free(tokens: Seq<TokenView>) -> bool {
    forall|i: int| 0 <= i < tokens.len() ==> !is_comma(#[trigger] tokens[i])
}

/// The tokens of the expression of an item that is written as `tokens`:
/// those after the marker, or all of them where there is none.
pub open spec fn expression_of(tokens: Seq<TokenView>) -> Seq<TokenView> {
    if is_mut(tokens[0]) {
        tokens.skip(1)
    } else {
        tokens
    }
}

/// The list written by putting `commas[k]` between `pieces[k]` and
/// `pieces[k + 1]`.
pub open spec fn separated(pieces: Seq<Seq<TokenView>>, commas: Seq<TokenView>) -> Seq<TokenView>
    decreases pieces.len(),
{
    if pieces.len() == 0 {
        Seq::empty()
    } else if pieces.len() == 1 {
        pieces[0]
    } else {
        pieces[0] + seq![commas[0]] + separated(pieces.skip(1), commas.skip(1))
    }
}

/// `pieces` and `commas` can be written as one list: the pieces hold no
/// comma, and there is a comma for each gap between two pieces.
pub open spec fn separable(pieces: Seq<Seq<TokenView>>, commas: Seq<TokenView>) -> bool {
    &&& pieces.len() == commas.len() + 1
    &&& forall|k: int| 0 <= k < pieces.len() ==> comma_free(#[trigger] pieces[k])
    &&& forall|k: int| 0 <= k < commas.len() ==> is_comma(#[trigger] commas[k])
}

/// Nothing, or one comma: what may stand after the last item of a list.
pub open spec fn closing(tail: Seq<TokenView>) -> bool {
    tail.len() == 0 || (tail.len() == 1 && is_comma(tail[0]))
}

/// The search for the end of an expression passes over tokens that are no
/// commas.
pub proof fn lemma_read_to_comma(
    run: Seq<TokenView>,
    from: int,
    at: int,
    end: int,
    first: Option<Seq<char>>,
)
    requires
        0 <= at <= end <= run.len(),
        forall|i: int| at <= i < end ==> !is_comma(#[trigger] run[i]),
    ensures
        read(run, from, at, first) == read(run, from, end, first),
    decreases end - at,
{
    if at < end {
        lemma_read_to_comma(run, from, at + 1, end, first);
    }
}

/// An item that can be read by itself is read the same way, and ends at the
/// same place, whatever follows the comma after it. So is an item that fails,
/// unless it fails because the parser rejects it: more tokens may then make
/// an expression of it.
pub proof fn law_item_before_comma(piece: Seq<TokenView>, more: Seq<TokenView>, index: nat)
    requires
        piece.len() > 0,
        comma_free(piece),
        more.len() > 0 ==> is_comma(more[0]),
    ensures
        item_of(piece, index) matches Ok((_, end)) ==> end == piece.len(),
        item_of(piece, index) is Ok ==> item_of(piece + more, index) == item_of(piece, index),
        item_of(piece, index) matches Err(e) && !(e is UnderlyingParseError) ==> item_of(
            piece + more,
            index,
        ) == item_of(piece, index),
{
    let run = piece + more;
    let from: int = if is_mut(piece[0]) { 1 } else { 0 };
    let end = piece.len() as int;
    assert forall|i: int| from <= i < end implies !is_comma(#[trigger] run[i]) by {}
    lemma_read_to_comma(piece, from, from, end, None);
    lemma_read_to_comma(run, from, from, end, None);
    assert(run.subrange(from, end) =~= piece.subrange(from, end));
    if more.len() == 0 {
        assert(run =~= piece);
    }
}

/// Tokens after the end of a run do not change how the search goes, where it
/// finds an expression that ends with the run.
pub proof fn lemma_read_whole(
    piece: Seq<TokenView>,
    more: Seq<TokenView>,
    from: int,
    at: int,
    first: Option<Seq<char>>,
)
    requires
        0 <= from <= at <= piece.len(),
        more.len() > 0 ==> is_comma(more[0]),
        read(piece, from, at, first) matches Reading::Found { end, .. } && end == piece.len(),
    ensures
        read(piece + more, from, at, first) == read(piece, from, at, first),
    decreases piece.len() - at,
{
    let run = piece + more;
    assert(run.subrange(from, at) =~= piece.subrange(from, at));
    if at < piece.len() {
        if !is_comma(piece[at]) {
            lemma_read_whole(piece, more, from, at + 1, first);
        } else {
            let message = parsed(joined(piece.subrange(from, at)))->Err_0;
            let first = match first {
                Some(earlier) => earlier,
                None => message,
            };
            lemma_read_whole(piece, more, from, at + 1, Some(first));
        }
    } else if more.len() == 0 {
        assert(run =~= piece);
    }
}

/// An item that takes the whole of a run when it is read by itself is read
/// the same way where a comma and more tokens follow the run, commas within
/// the item or not.
pub proof fn law_whole_item_before_comma(piece: Seq<TokenView>, more: Seq<TokenView>, index: nat)
    requires
        more.len() > 0 ==> is_comma(more[0]),
        item_of(piece, index) matches Ok((_, end)) && end == piece.len(),
    ensures
        item_of(piece + more, index) == item_of(piece, index),
{
    let from: int = if is_mut(piece[0]) { 1 } else { 0 };
    lemma_read_whole(piece, more, from, from, None);
    assert((piece + more).subrange(from, piece.len() as int) =~= piece.subrange(
        from,
        piece.len() as int,
    ));
}

/// Whether a run is one item when it is read by itself as item number
/// `index`: it can be read, and the item ends where the run ends.
pub open spec fn whole_item(piece: Seq<TokenView>, index: nat) -> bool {
    item_of(piece, index) matches Ok((_, end)) && end == piece.len()
}

/// What becomes of an item that stands alone: its expression is all that
/// follows the marker, and the parser's answer for that text decides.
pub proof fn law_item_alone(tokens: Seq<TokenView>, index: nat)
    requires
        tokens.len() > 0,
        comma_free(tokens),
    ensures
        item_of(tokens, index) == {
            let text = joined(expression_of(tokens));
            if token_bound(text) > MAX_TOKENS {
                Err::<(ItemView, int), ErrorView>(ErrorView::TooLarge { item: Some(index) })
            } else {
                match parsed(text) {
                    Ok(shape) => match classified(shape, text, is_mut(tokens[0]), index) {
                        Ok(item) => Ok((item, tokens.len() as int)),
                        Err(e) => Err(e),
                    },
                    Err(message) => Err(
                        ErrorView::UnderlyingParseError { item: Some(index), message },
                    ),
                }
            }
        },
{
    let from: int = if is_mut(tokens[0]) { 1 } else { 0 };
    lemma_read_to_comma(tokens, from, from, tokens.len() as int, None);
    assert(tokens.subrange(from, tokens.len() as int) =~= expression_of(tokens));
}

/// No list fails as an empty list does, once it has a token.
pub proof fn lemma_items_never_empty_list(run: Seq<TokenView>, index: nat)
    ensures
        items_from(run, index) != Err::<Seq<ItemView>, ErrorView>(ErrorView::EmptyList),
    decreases run.len(),
{
    if run.len() > 0 {
        if let Ok((item, end)) = item_of(run, index) {
            let rest = if 0 <= end < run.len() {
                run.skip(end + 1)
            } else {
                Seq::empty()
            };
            lemma_items_never_empty_list(rest, index + 1);
        }
    }
}

/// An expansion fails for want of items exactly when the input has no token.
pub proof fn law_empty_list(tokens: Seq<TokenView>)
    ensures
        listed(tokens) == Err::<Seq<ItemView>, ErrorView>(ErrorView::EmptyList) <==> tokens.len()
            == 0,
{
    lemma_items_never_empty_list(tokens, 0);
}

/// A list written from one or more pieces, each of which is one item when
/// it is read by itself, has one item for each piece, in the order of the
/// pieces: the item that the piece gives by itself. A piece may hold commas
/// of its own. A comma after the last piece changes nothing. `index` is the
/// number of the first item.
pub proof fn law_items_in_order(
    pieces: Seq<Seq<TokenView>>,
    commas: Seq<TokenView>,
    tail: Seq<TokenView>,
    items: Seq<ItemView>,
    index: nat,
)
    requires
        pieces.len() == commas.len() + 1,
        forall|k: int| 0 <= k < commas.len() ==> is_comma(#[trigger] commas[k]),
        closing(tail),
        items.len() == pieces.len(),
        forall|k: int|
            0 <= k < pieces.len() ==> #[trigger] whole_item(pieces[k], (index + k) as nat)
                && item_of(pieces[k], (index + k) as nat)->Ok_0.0 == items[k],
    ensures
        items_from(separated(pieces, commas) + tail, index) == Ok::<Seq<ItemView>, ErrorView>(
            items,
        ),
    decreases pieces.len(),
{
    let first = pieces[0];
    let run = separated(pieces, commas) + tail;
    assert(whole_item(first, (index + 0) as nat));
    if pieces.len() == 1 {
        law_whole_item_before_comma(first, tail, index);
        let end = first.len() as int;
        if tail.len() > 0 {
            assert(run.skip(end + 1) =~= Seq::empty());
        }
        assert(items_from(Seq::empty(), index + 1) == Ok::<Seq<ItemView>, ErrorView>(Seq::empty()));
        assert(seq![items[0]] + Seq::<ItemView>::empty() =~= items);
    } else {
        let later = separated(pieces.skip(1), commas.skip(1)) + tail;
        let more = seq![commas[0]] + later;
        assert(run =~= first + more);
        law_whole_item_before_comma(first, more, index);
        assert(run.skip(first.len() as int + 1) =~= later);
        assert forall|k: int| 0 <= k < pieces.skip(1).len() implies #[trigger] whole_item(
            pieces.skip(1)[k],
            (index + 1 + k) as nat,
        ) && item_of(pieces.skip(1)[k], (index + 1 + k) as nat)->Ok_0.0 == items.skip(1)[k] by {
            assert(whole_item(pieces[k + 1], (index + (k + 1)) as nat));
        }
        assert forall|k: int| 0 <= k < commas.skip(1).len() implies is_comma(
            #[trigger] commas.skip(1)[k],
        ) by {}
        law_items_in_order(pieces.skip(1), commas.skip(1), tail, items.skip(1), index + 1);
        assert(seq![items[0]] + items.skip(1) =~= items);
    }
}

/// In a list written from pieces, the first piece that fails decides the
/// error of the whole list, and what follows it is not looked at: a piece
/// with nothing in it that a comma follows, or a piece that fails by itself
/// for another reason than that the parser rejects it.
pub proof fn law_first_error_wins(
    pieces: Seq<Seq<TokenView>>,
    commas: Seq<TokenView>,
    k: int,
    index: nat,
    e: ErrorView,
)
    requires
        separable(pieces, commas),
        0 <= k < pieces.len(),
        forall|j: int| 0 <= j < k ==> (#[trigger] item_of(pieces[j], (index + j) as nat)) is Ok,
        if pieces[k].len() == 0 {
            k < pieces.len() - 1 && e == (ErrorView::EmptySegment { item: (index + k) as nat })
        } else {
            item_of(pieces[k], (index + k) as nat) == Err::<(ItemView, int), ErrorView>(e) && !(e is UnderlyingParseError)
        },
    ensures
        items_from(separated(pieces, commas), index) == Err::<Seq<ItemView>, ErrorView>(e),
    decreases k,
{
    let first = pieces[0];
    let run = separated(pieces, commas);
    if pieces.len() == 1 {
        law_item_before_comma(first, Seq::empty(), index);
    } else {
        let later = separated(pieces.skip(1), commas.skip(1));
        let more = seq![commas[0]] + later;
        assert(run =~= first + more);
        if k == 0 {
            if first.len() > 0 {
                law_item_before_comma(first, more, index);
            }
        } else {
            assert(item_of(first, (index + 0) as nat) is Ok);
            law_item_before_comma(first, more, index);
            assert(run.skip(first.len() as int + 1) =~= later);
            assert(separable(pieces.skip(1), commas.skip(1))) by {
                assert forall|j: int| 0 <= j < pieces.skip(1).len() implies comma_free(
                    #[trigger] pieces.skip(1)[j],
                ) by {}
                assert forall|j: int| 0 <= j < commas.skip(1).len() implies is_comma(
                    #[trigger] commas.skip(1)[j],
                ) by {}
            }
            assert forall|j: int| 0 <= j < k - 1 implies (#[trigger] item_of(
                pieces.skip(1)[j],
                (index + 1 + j) as nat,
            )) is Ok by {
                assert(item_of(pieces[j + 1], (index + (j + 1)) as nat) is Ok);
            }
            law_first_error_wins(pieces.skip(1), commas.skip(1), k - 1, index + 1, e);
        }
    }
}

/// A list of one or more items, each of which is one item when it is read
/// by itself, expands to one statement for each item, in the order of the
/// items. A comma at the very end changes nothing.
pub proof fn law_one_statement_per_item(
    input: Seq<char>,
    pieces: Seq<Seq<TokenView>>,
    commas: Seq<TokenView>,
    tail: Seq<TokenView>,
    items: Seq<ItemView>,
)
    requires
        nesting_bound(input) <= MAX_NESTING,
        lexed(input) == Ok::<Seq<TokenView>, Seq<char>>(separated(pieces, commas) + tail),
        pieces.len() == commas.len() + 1,
        forall|k: int| 0 <= k < commas.len() ==> is_comma(#[trigger] commas[k]),
        closing(tail),
        items.len() == pieces.len(),
        forall|k: int|
            0 <= k < pieces.len() ==> #[trigger] whole_item(pieces[k], k as nat) && item_of(
                pieces[k],
                k as nat,
            )->Ok_0.0 == items[k],
    ensures
        listed(lexed(input)->Ok_0) == Ok::<Seq<ItemView>, ErrorView>(items),
        expanded(input) == Ok::<Seq<char>, ErrorView>(rendered(items)),
{
    assert forall|k: int| 0 <= k < pieces.len() implies #[trigger] whole_item(
        pieces[k],
        (0 + k) as nat,
    ) && item_of(pieces[k], (0 + k) as nat)->Ok_0.0 == items[k] by {
        assert(whole_item(pieces[k], k as nat));
    }
    law_items_in_order(pieces, commas, tail, items, 0);
}

/// An item is read the same way whatever its number is, where it can be
/// read: the number shows only in errors.
pub proof fn law_item_whatever_its_number(run: Seq<TokenView>, index: nat, other: nat)
    requires
        item_of(run, index) is Ok,
    ensures
        item_of(run, other) == item_of(run, index),
{
}

/// A list of a single item expands to what that item gives: its statement,
/// or its error.
pub proof fn law_single_item(input: Seq<char>, tokens: Seq<TokenView>)
    requires
        nesting_bound(input) <= MAX_NESTING,
        lexed(input) == Ok::<Seq<TokenView>, Seq<char>>(tokens),
        tokens.len() > 0,
        comma_free(tokens),
    ensures
        expanded(input) == match item_of(tokens, 0) {
            Ok((item, _)) => Ok::<Seq<char>, ErrorView>(item.statement()),
            Err(e) => Err(e),
        },
{
    law_item_alone(tokens, 0);
    if let Ok((item, end)) = item_of(tokens, 0) {
        assert(items_from(Seq::empty(), 1) == Ok::<Seq<ItemView>, ErrorView>(Seq::empty()));
        let items = seq![item] + Seq::<ItemView>::empty();
        assert(rendered(items.drop_last()) =~= Seq::<char>::empty());
    }
}

/// A lone identifier `x` that the parser reads as the path `x` expands to
/// `let x = x.clone();`: an immutable binding named `x` of a clone of `x`.
pub proof fn law_bare_identifier(input: Seq<char>, x: Seq<char>)
    requires
        nesting_bound(input) <= MAX_NESTING,
        token_bound(x) <= MAX_TOKENS,
        x != "mut"@,
        lexed(input) == Ok::<Seq<TokenView>, Seq<char>>(
            seq![TokenView { kind: TokenKind::Ident, text: x, joint: false }],
        ),
        parsed(x) == Ok::<ShapeView, Seq<char>>(ShapeView::Path { segments: seq![x] }),
    ensures
        expanded(input) == Ok::<Seq<char>, ErrorView>("let "@ + x + " = "@ + x + ".clone();"@),
{
    let tokens = seq![TokenView { kind: TokenKind::Ident, text: x, joint: false }];
    law_single_item(input, tokens);
    law_item_alone(tokens, 0);
}

/// `mut x`, for an identifier `x` that the parser reads as the path `x`,
/// expands to `let mut x = x.clone();`: a mutable binding named `x`.
pub proof fn law_mutable_identifier(input: Seq<char>, marker: TokenView, x: Seq<char>)
    requires
        nesting_bound(input) <= MAX_NESTING,
        token_bound(x) <= MAX_TOKENS,
        is_mut(marker),
        lexed(input) == Ok::<Seq<TokenView>, Seq<char>>(
            seq![marker, TokenView { kind: TokenKind::Ident, text: x, joint: false }],
        ),
        parsed(x) == Ok::<ShapeView, Seq<char>>(ShapeView::Path { segments: seq![x] }),
    ensures
        expanded(input) == Ok::<Seq<char>, ErrorView>(
            "let "@ + "mut "@ + x + " = "@ + x + ".clone();"@,
        ),
{
    let name = TokenView { kind: TokenKind::Ident, text: x, joint: false };
    let tokens = seq![marker, name];
    law_single_item(input, tokens);
    law_item_alone(tokens, 0);
}

/// A lone expression that the parser reads as the named field `name` of
/// `base` expands to `let name = base.name.clone();`, with `mut` after `let`
/// where the marker stands before the expression.
pub proof fn law_named_field(
    input: Seq<char>,
    tokens: Seq<TokenView>,
    base: Seq<char>,
    name: Seq<char>,
)
    requires
        nesting_bound(input) <= MAX_NESTING,
        lexed(input) == Ok::<Seq<TokenView>, Seq<char>>(tokens),
        tokens.len() > 0,
        comma_free(tokens),
        token_bound(joined(expression_of(tokens))) <= MAX_TOKENS,
        parsed(joined(expression_of(tokens))) == Ok::<ShapeView, Seq<char>>(
            ShapeView::Field { base, name },
        ),
    ensures
        expanded(input) == Ok::<Seq<char>, ErrorView>(
            "let "@ + (if is_mut(tokens[0]) { "mut "@ } else { Seq::empty() }) + name + " = "@
                + field_of(base, name) + ".clone();"@,
        ),
{
    law_single_item(input, tokens);
    law_item_alone(tokens, 0);
}

/// A lone expression that the parser reads as a call of the method `method`
/// expands to `let method = call.clone();`, where `call` is the whole
/// expression, with `mut` after `let` where the marker stands before it.
pub proof fn law_method_call(input: Seq<char>, tokens: Seq<TokenView>, method: Seq<char>)
    requires
        nesting_bound(input) <= MAX_NESTING,
        lexed(input) == Ok::<Seq<TokenView>, Seq<char>>(tokens),
        tokens.len() > 0,
        comma_free(tokens),
        token_bound(joined(expression_of(tokens))) <= MAX_TOKENS,
        parsed(joined(expression_of(tokens))) == Ok::<ShapeView, Seq<char>>(
            ShapeView::MethodCall { method },
        ),
    ensures
        expanded(input) == Ok::<Seq<char>, ErrorView>(
            "let "@ + (if is_mut(tokens[0]) { "mut "@ } else { Seq::empty() }) + method + " = "@
                + joined(expression_of(tokens)) + ".clone();"@,
        ),
{
    law_single_item(input, tokens);
    law_item_alone(tokens, 0);
}

/// A lone expression that the parser reads as a field taken by position
/// fails as such, with the position, and not as any other unsupported
/// expression does.
pub proof fn law_positional_field(input: Seq<char>, tokens: Seq<TokenView>, index: u32)
    requires
        nesting_bound(input) <= MAX_NESTING,
        lexed(input) == Ok::<Seq<TokenView>, Seq<char>>(tokens),
        tokens.len() > 0,
        comma_free(tokens),
        token_bound(joined(expression_of(tokens))) <= MAX_TOKENS,
        parsed(joined(expression_of(tokens))) == Ok::<ShapeView, Seq<char>>(
            ShapeView::TupleField { index },
        ),
    ensures
        expanded(input) == Err::<Seq<char>, ErrorView>(
            ErrorView::UnsupportedPositionalField { item: 0, index },
        ),
{
    law_single_item(input, tokens);
    law_item_alone(tokens, 0);
}

/// A lone expression that the parser reads as anything but a path, a field
/// or a method call fails as an unsupported expression, which is shown.
pub proof fn law_unsupported_expression(input: Seq<char>, tokens: Seq<TokenView>)
    requires
        nesting_bound(input) <= MAX_NESTING,
        lexed(input) == Ok::<Seq<TokenView>, Seq<char>>(tokens),
        tokens.len() > 0,
        comma_free(tokens),
        token_bound(joined(expression_of(tokens))) <= MAX_TOKENS,
        parsed(joined(expression_of(tokens))) == Ok::<ShapeView, Seq<char>>(ShapeView::Other),
    ensures
        expanded(input) == Err::<Seq<char>, ErrorView>(
            ErrorView::UnsupportedExpression { item: 0, text: joined(expression_of(tokens)) },
        ),
{
    law_single_item(input, tokens);
    law_item_alone(tokens, 0);
}

/// A blank between two texts adds no token.
pub proof fn lemma_token_bound_spaced(left: Seq<char>, right: Seq<char>)
    ensures
        token_bound(left + " "@ + right) <= token_bound(left) + token_bound(right),
{
    reveal_strlit(" ");
    reveal_with_fuel(token_bound, 2);
    assert(" "@.drop_last() =~= Seq::<char>::empty());
    assert(token_bound(" "@) == 0);
    law_token_bound_of_parts(left, " "@);
    law_token_bound_of_parts(left + " "@, right);
}

/// A variable of any length, written in letters, digits and underscores,
/// expands to `let x = x.clone();`, where the lexer reads it as one
/// identifier and the parser as a path.
pub proof fn law_variable(x: Seq<char>)
    requires
        x.len() > 0,
        all_word(x),
        x != "mut"@,
        lexed(x) == Ok::<Seq<TokenView>, Seq<char>>(
            seq![TokenView { kind: TokenKind::Ident, text: x, joint: false }],
        ),
        parsed(x) == Ok::<ShapeView, Seq<char>>(ShapeView::Path { segments: seq![x] }),
    ensures
        expanded(x) == Ok::<Seq<char>, ErrorView>("let "@ + x + " = "@ + x + ".clone();"@),
{
    law_word_is_one_token(x);
    law_flat_text(x);
    law_bare_identifier(x, x);
}

/// `mut x`, for a variable `x` of any length, expands to
/// `let mut x = x.clone();`, where the lexer reads the marker and one
/// identifier and the parser reads `x` as a path.
pub proof fn law_mutable_variable(x: Seq<char>)
    requires
        x.len() > 0,
        all_word(x),
        lexed("mut "@ + x) == Ok::<Seq<TokenView>, Seq<char>>(
            seq![
                TokenView { kind: TokenKind::Ident, text: "mut"@, joint: false },
                TokenView { kind: TokenKind::Ident, text: x, joint: false },
            ],
        ),
        parsed(x) == Ok::<ShapeView, Seq<char>>(ShapeView::Path { segments: seq![x] }),
    ensures
        expanded("mut "@ + x) == Ok::<Seq<char>, ErrorView>(
            "let "@ + "mut "@ + x + " = "@ + x + ".clone();"@,
        ),
{
    let input = "mut "@ + x;
    law_word_is_one_token(x);
    assert(no_opener(input)) by {
        reveal_strlit("mut ");
        assert forall|i: int| 0 <= i < input.len() implies !is_opener(#[trigger] input[i]) by {
            if i >= 4 {
                assert(input[i] == x[i - 4]);
            }
        }
    }
    law_flat_text(input);
    law_mutable_identifier(
        input,
        TokenView { kind: TokenKind::Ident, text: "mut"@, joint: false },
        x,
    );
}

/// `a.b`, for a variable `a` and a field `b` of any length, expands to
/// `let b = a.b.clone();`, where the lexer reads two identifiers about a dot
/// and the parser reads them as the field `b` of `a`.
pub proof fn law_field_of_variable(a: Seq<char>, b: Seq<char>)
    requires
        a.len() > 0,
        b.len() > 0,
        all_word(a),
        all_word(b),
        a != "mut"@,
        lexed(a + "."@ + b) == Ok::<Seq<TokenView>, Seq<char>>(
            seq![
                TokenView { kind: TokenKind::Ident, text: a, joint: false },
                TokenView { kind: TokenKind::Punct, text: "."@, joint: false },
                TokenView { kind: TokenKind::Ident, text: b, joint: false },
            ],
        ),
        parsed(a + " "@ + "."@ + " "@ + b) == Ok::<ShapeView, Seq<char>>(
            ShapeView::Field { base: a, name: b },
        ),
    ensures
        expanded(a + "."@ + b) == Ok::<Seq<char>, ErrorView>(
            "let "@ + b + " = "@ + (a + "."@ + b) + ".clone();"@,
        ),
{
    let input = a + "."@ + b;
    let tokens = seq![
        TokenView { kind: TokenKind::Ident, text: a, joint: false },
        TokenView { kind: TokenKind::Punct, text: "."@, joint: false },
        TokenView { kind: TokenKind::Ident, text: b, joint: false },
    ];
    let text = a + " "@ + "."@ + " "@ + b;
    reveal_strlit(".");
    reveal_strlit(",");
    law_word_is_one_token(a);
    law_word_is_one_token(b);
    assert(no_opener(input)) by {
        assert forall|i: int| 0 <= i < input.len() implies !is_opener(#[trigger] input[i]) by {
            if i < a.len() {
                assert(input[i] == a[i]);
            } else if i > a.len() {
                assert(input[i] == b[i - a.len() - 1]);
            }
        }
    }
    law_flat_text(input);
    assert(joined(tokens) == text) by {
        reveal_with_fuel(joined, 3);
        assert(tokens.drop_last().drop_last() =~= seq![tokens[0]]);
    }
    assert(token_bound(text) <= MAX_TOKENS) by {
        reveal_with_fuel(token_bound, 2);
        assert("."@.drop_last() =~= Seq::<char>::empty());
        lemma_token_bound_spaced(a, "."@);
        lemma_token_bound_spaced(a + " "@ + "."@, b);
    }
    assert(comma_free(tokens));
    assert(!is_mut(tokens[0]));
    law_named_field(input, tokens, a, b);
    assert(is_word(a.last()));
    assert(field_of(a, b) == a + "."@ + b);
}

/// `a.m()`, for a variable `a` and a method `m` of any length, expands to a
/// binding named `m` of a clone of the whole call, where the lexer reads two
/// identifiers about a dot and an empty group, and the parser reads them as
/// a call of `m`.
pub proof fn law_method_of_variable(a: Seq<char>, m: Seq<char>)
    requires
        a.len() > 0,
        m.len() > 0,
        all_word(a),
        all_word(m),
        a != "mut"@,
        lexed(a + "."@ + m + "()"@) == Ok::<Seq<TokenView>, Seq<char>>(
            seq![
                TokenView { kind: TokenKind::Ident, text: a, joint: false },
                TokenView { kind: TokenKind::Punct, text: "."@, joint: false },
                TokenView { kind: TokenKind::Ident, text: m, joint: false },
                TokenView { kind: TokenKind::Group, text: "()"@, joint: false },
            ],
        ),
        parsed(a + " "@ + "."@ + " "@ + m + " "@ + "()"@) == Ok::<ShapeView, Seq<char>>(
            ShapeView::MethodCall { method: m },
        ),
    ensures
        expanded(a + "."@ + m + "()"@) == Ok::<Seq<char>, ErrorView>(
            "let "@ + m + " = "@ + (a + " "@ + "."@ + " "@ + m + " "@ + "()"@) + ".clone();"@,
        ),
{
    let input = a + "."@ + m + "()"@;
    let tokens = seq![
        TokenView { kind: TokenKind::Ident, text: a, joint: false },
        TokenView { kind: TokenKind::Punct, text: "."@, joint: false },
        TokenView { kind: TokenKind::Ident, text: m, joint: false },
        TokenView { kind: TokenKind::Group, text: "()"@, joint: false },
    ];
    let text = a + " "@ + "."@ + " "@ + m + " "@ + "()"@;
    reveal_strlit(".");
    reveal_strlit(",");
    reveal_strlit("()");
    law_word_is_one_token(a);
    law_word_is_one_token(m);
    let flat = a + "."@ + m;
    assert(no_opener(flat)) by {
        assert forall|i: int| 0 <= i < flat.len() implies !is_opener(#[trigger] flat[i]) by {
            if i < a.len() {
                assert(flat[i] == a[i]);
            } else if i > a.len() {
                assert(flat[i] == m[i - a.len() - 1]);
            }
        }
    }
    law_flat_text(flat);
    assert(nesting_bound(input) <= 1) by {
        reveal_with_fuel(nesting, 3);
        assert(input.drop_last().drop_last() =~= flat);
        assert(input.last() == ')');
        assert(input.drop_last().last() == '(');
    }
    assert(joined(tokens) == text) by {
        reveal_with_fuel(joined, 4);
        assert(tokens.drop_last().drop_last().drop_last() =~= seq![tokens[0]]);
    }
    assert(token_bound(text) <= MAX_TOKENS) by {
        reveal_with_fuel(token_bound, 3);
        assert("."@.drop_last() =~= Seq::<char>::empty());
        assert("()"@.drop_last().drop_last() =~= Seq::<char>::empty());
        assert(token_bound("()"@) <= 2);
        lemma_token_bound_spaced(a, "."@);
        lemma_token_bound_spaced(a + " "@ + "."@, m);
        lemma_token_bound_spaced(a + " "@ + "."@ + " "@ + m, "()"@);
    }
    assert(comma_free(tokens));
    assert(!is_mut(tokens[0]));
    law_method_call(input, tokens, m);
}

/// An item with a comma outside brackets is one item, where the parser
/// rejects what stands before that comma and reads the whole: so a method
/// call with two generic arguments gives one statement.
pub proof fn law_comma_within_an_expression(
    before: Seq<TokenView>,
    comma: TokenView,
    behind: Seq<TokenView>,
    index: nat,
)
    requires
        before.len() > 0,
        !is_mut(before[0]),
        comma_free(before),
        comma_free(behind),
        is_comma(comma),
        token_bound(joined(before + seq![comma] + behind)) <= MAX_TOKENS,
        token_bound(joined(before)) <= MAX_TOKENS,
        parsed(joined(before)) is Err,
        parsed(joined(before + seq![comma] + behind)) is Ok,
    ensures
        item_of(before + seq![comma] + behind, index) == match classified(
            parsed(joined(before + seq![comma] + behind))->Ok_0,
            joined(before + seq![comma] + behind),
            false,
            index,
        ) {
            Ok(item) => Ok::<(ItemView, int), ErrorView>(
                (item, (before + seq![comma] + behind).len() as int),
            ),
            Err(e) => Err(e),
        },
{
    let run = before + seq![comma] + behind;
    let middle = before.len() as int;
    let end = run.len() as int;
    assert forall|i: int| 0 <= i < middle implies !is_comma(#[trigger] run[i]) by {}
    lemma_read_to_comma(run, 0, 0, middle, None);
    assert(run.subrange(0, middle) =~= before);
    let first = Some(parsed(joined(before))->Err_0);
    assert forall|i: int| middle + 1 <= i < end implies !is_comma(#[trigger] run[i]) by {}
    lemma_read_to_comma(run, 0, middle + 1, end, first);
    assert(run.subrange(0, end) =~= run);
}

} // verus!
