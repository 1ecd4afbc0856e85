//! What the expression parser reports of one item's text.

use crate::scan::token_bound;
use quote::ToTokens;
use syn::{Expr, Member};
use vstd::prelude::*;

verus! {

/// The outermost form of a parsed expression, with the parts that naming and
/// rendering read.
#[derive(Clone, Debug, PartialEq, Eq)]
pub enum Shape {
    /// A path such as `var` or `module::VALUE`; `segments` holds the
    /// identifier of each segment, in order.
    Path { segments: Vec<String> },
    /// Access to a named field, `base.name`.
    Field { base: String, name: String },
    /// Access to a positional field, `base.0`.
    TupleField { index: u32 },
    /// A method call, `receiver.method(..)`.
    MethodCall { method: String },
    /// Any other expression.
    Other,
}

/// The mathematical value of a [`Shape`].
pub enum ShapeView {
    Path { segments: Seq<Seq<char>> },
    Field { base: Seq<char>, name: Seq<char> },
    TupleField { index: u32 },
    MethodCall { method: Seq<char> },
    Other,
}

impl View for Shape {
    type V = ShapeView;

    open spec fn view(&self) -> ShapeView {
        match self {
            Shape::Path { segments } => ShapeView::Path {
                segments: segments@.map_values(|s: String| s@),
            },
            Shape::Field { base, name } => ShapeView::Field { base: base@, name: name@ },
            Shape::TupleField { index } => ShapeView::TupleField { index: *index },
            Shape::MethodCall { method } => ShapeView::MethodCall { method: method@ },
            Shape::Other => ShapeView::Other,
        }
    }
}

/// The outcome of parsing `text` as one expression with `syn`: the shape of
/// the expression, or the parser's message when it rejects the text.
pub uninterp spec fn parsed(text: Seq<char>) -> Result<ShapeView, Seq<char>>;

/// The value of a parsing outcome.
pub open spec fn parsing_view(r: Result<Shape, String>) -> Result<ShapeView, Seq<char>> {
    match r {
        Ok(shape) => Ok(shape@),
        Err(message) => Err(message@),
    }
}

/// The greatest bound on the tokens of an expression that is handed to the
/// parser.
pub const MAX_TOKENS: usize = 128;

/// Parses `text` as one expression and reports its outermost form.
///
/// Trusted: calls `syn::parse_str::<syn::Expr>` and copies out of the tree
/// the identifiers of a path's segments, the member and the printed base of a
/// field access, or the method of a method call. A rejected text gives the
/// `Display` text of the `syn::Error`. The contract claims only that the
/// outcome is a function of the text, named [`parsed`]: `syn` and
/// `proc_macro2` are built without their `proc-macro` feature, so the lexer
/// and printer are `proc_macro2`'s own in every process.
///
/// The parser calls itself for each nested bracket, operator or keyword, and
/// so do printing and dropping the tree. The bound on the tokens bounds that
/// depth: no expression nests deeper than it has tokens, and it has no more
/// tokens than `token_bound` counts.
#[verifier::external_body]
pub(crate) fn parse_expression(text: &str) -> (r: Result<Shape, String>)
    requires
        token_bound(text@) <= MAX_TOKENS,
    ensures
        parsing_view(r) == parsed(text@),
{
    match syn::parse_str::<Expr>(text) {
        Ok(Expr::Path(p)) => Ok(Shape::Path {
            segments: p.path.segments.iter().map(|s| s.ident.to_string()).collect(),
        }),
        Ok(Expr::Field(f)) => Ok(match f.member {
            Member::Named(name) => Shape::Field {
                base: f.base.to_token_stream().to_string(),
                name: name.to_string(),
            },
            Member::Unnamed(index) => Shape::TupleField { index: index.index },
        }),
        Ok(Expr::MethodCall(call)) => Ok(Shape::MethodCall { method: call.method.to_string() }),
        Ok(_) => Ok(Shape::Other),
        Err(e) => Err(e.to_string()),
    }
}

} // verus!
