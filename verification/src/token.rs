//! The top-level tokens of an input, as plain values.

use crate::scan::nesting_bound;
use proc_macro2::{Spacing, TokenStream, TokenTree};
use vstd::prelude::*;
use vstd::string::StringExecFns;

verus! {

/// What sort of token tree a [`Token`] stands for.
#[derive(Clone, Copy, Debug, PartialEq, Eq, Structural)]
pub enum TokenKind {
    /// A delimited group such as `(a, b)`, taken as one token.
    Group,
    /// An identifier or keyword.
    Ident,
    /// A single punctuation character.
    Punct,
    /// A literal such as `1` or `"text"`.
    Literal,
}

/// One top-level token of an input.
#[derive(Clone, Debug, PartialEq, Eq)]
pub struct Token {
    pub kind: TokenKind,
    /// The token as it is written.
    pub text: String,
    /// Whether a punctuation character is immediately followed by another one,
    /// so that the two may form one operator. `false` for other kinds.
    pub joint: bool,
}

/// The mathematical value of a [`Token`].
pub struct TokenView {
    pub kind: TokenKind,
    pub text: Seq<char>,
    pub joint: bool,
}

impl View for Token {
    type V = TokenView;

    open spec fn view(&self) -> TokenView {
        TokenView { kind: self.kind, text: self.text@, joint: self.joint }
    }
}

/// The values of a sequence of tokens.
pub open spec fn token_views(tokens: Seq<Token>) -> Seq<TokenView> {
    tokens.map_values(|t: Token| t@)
}

/// A comma that separates two items.
pub open spec fn is_comma(t: TokenView) -> bool {
    t.kind == TokenKind::Punct && t.text == ","@
}

/// The marker that asks for a mutable binding.
pub open spec fn is_mut(t: TokenView) -> bool {
    t.kind == TokenKind::Ident && t.text == "mut"@
}

/// The source text of a run of tokens: each token as written, with one space
/// between neighbours unless the left one is joint.
pub open spec fn joined(tokens: Seq<TokenView>) -> Seq<char>
    decreases tokens.len(),
{
    if tokens.len() == 0 {
        Seq::empty()
    } else if tokens.len() == 1 {
        tokens[0].text
    } else {
        let init = tokens.drop_last();
        joined(init) + (if init.last().joint { Seq::empty() } else { " "@ }) + tokens.last().text
    }
}

/// The outcome of lexing `text` with `proc_macro2`: its top-level tokens, or
/// the lexer's message when it rejects the text.
pub uninterp spec fn lexed(text: Seq<char>) -> Result<Seq<TokenView>, Seq<char>>;

/// The value of a lexing outcome.
pub open spec fn lexing_view(r: Result<Vec<Token>, String>) -> Result<Seq<TokenView>, Seq<char>> {
    match r {
        Ok(tokens) => Ok(token_views(tokens@)),
        Err(message) => Err(message@),
    }
}

/// The deepest nesting of groups of an input that is handed to the lexer.
pub const MAX_NESTING: usize = 1024;

/// Lexes `text` into its top-level token trees.
///
/// Trusted: calls `proc_macro2::TokenStream::from_str` and copies each tree of
/// the stream into a [`Token`]: its kind, its `Display` text and, for a
/// punctuation character, whether its spacing is `Joint`. A rejected text
/// gives the `Display` text of the `LexError`. The contract claims only that
/// the outcome is a function of the text, named [`lexed`]: `proc_macro2` is
/// built without its `proc-macro` feature, so its own lexer and printer are
/// the only ones there are.
///
/// Printing a group calls itself for each group inside it; lexing and
/// dropping do not call themselves. The bound on the nesting bounds that
/// depth: no text nests its groups deeper than `nesting_bound` says, but for
/// the one group that a documentation comment stands for.
#[verifier::external_body]
pub(crate) fn tokenize(text: &str) -> (r: Result<Vec<Token>, String>)
    requires
        nesting_bound(text@) <= MAX_NESTING,
    ensures
        lexing_view(r) == lexed(text@),
{
    let mut tokens = Vec::new();
    for tree in text.parse::<TokenStream>().map_err(|e| e.to_string())? {
        let (kind, joint) = match &tree {
            TokenTree::Group(_) => (TokenKind::Group, false),
            TokenTree::Ident(_) => (TokenKind::Ident, false),
            TokenTree::Literal(_) => (TokenKind::Literal, false),
            TokenTree::Punct(p) => (TokenKind::Punct, matches!(p.spacing(), Spacing::Joint)),
        };
        tokens.push(Token { kind, text: tree.to_string(), joint });
    }
    Ok(tokens)
}

impl Token {
    /// Whether this token is a separating comma.
    pub fn is_comma(&self) -> (r: bool)
        ensures
            r == is_comma(self@),
    {
        let comma = String::from_str(",");
        self.kind == TokenKind::Punct && self.text == comma
    }

    /// Whether this token is the `mut` marker.
    pub fn is_mut(&self) -> (r: bool)
        ensures
            r == is_mut(self@),
    {
        let marker = String::from_str("mut");
        self.kind == TokenKind::Ident && self.text == marker
    }
}

/// Writes out the tokens as source text.
pub fn join(tokens: &[Token]) -> (text: String)
    ensures
        text@ == joined(token_views(tokens@)),
{
    let mut text = String::new();
    let mut i: usize = 0;
    while i < tokens.len()
        invariant
            i <= tokens@.len(),
            text@ == joined(token_views(tokens@).take(i as int)),
        decreases tokens@.len() - i,
    {
        proof {
            let next = token_views(tokens@).take(i + 1);
            assert(next.drop_last() =~= token_views(tokens@).take(i as int));
        }
        if i > 0 && !tokens[i - 1].joint {
            text.append(" ");
        }
        text.append(tokens[i].text.as_str());
        i = i + 1;
    }
    assert(token_views(tokens@).take(i as int) =~= token_views(tokens@));
    text
}

} // verus!
