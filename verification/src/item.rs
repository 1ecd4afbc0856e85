//! One clone request: the expression, the name it is bound to, and the
//! statement that binds it.

use crate::error::{ErrorView, ExpandError};
use crate::syntax::{Shape, ShapeView};
use vstd::prelude::*;
use vstd::string::{StrSliceExecFns, StringExecFns};

verus! {

/// An expression that gives its clone a name.
#[derive(Clone, Debug, PartialEq, Eq)]
pub enum Expression {
    /// A variable or path; `name` is its last identifier.
    Identifier { path: String, name: String },
    /// `base.field`, a named field of any expression.
    FieldAccess { base: String, field: String },
    /// A method call; `call` is the whole call, `method` the method's name.
    Call { call: String, method: String },
}

/// The mathematical value of an [`Expression`].
pub enum ExpressionView {
    Identifier { path: Seq<char>, name: Seq<char> },
    FieldAccess { base: Seq<char>, field: Seq<char> },
    Call { call: Seq<char>, method: Seq<char> },
}

/// The field `field` of `base`, written out: the base, a dot and the field.
/// A base that ends in a dot, as the number `1.` does, is kept apart from the
/// dot by a space, since two dots in a row would read as a range.
pub open spec fn field_of(base: Seq<char>, field: Seq<char>) -> Seq<char> {
    base + (if base.len() > 0 && base.last() == '.' {
        " "@
    } else {
        Seq::empty()
    }) + "."@ + field
}

impl ExpressionView {
    /// The name that the clone is bound to.
    pub open spec fn binding_name(self) -> Seq<char> {
        match self {
            ExpressionView::Identifier { name, .. } => name,
            ExpressionView::FieldAccess { field, .. } => field,
            ExpressionView::Call { method, .. } => method,
        }
    }

    /// The expression whose value is cloned.
    pub open spec fn target(self) -> Seq<char> {
        match self {
            ExpressionView::Identifier { path, .. } => path,
            ExpressionView::FieldAccess { base, field } => field_of(base, field),
            ExpressionView::Call { call, .. } => call,
        }
    }
}

impl View for Expression {
    type V = ExpressionView;

    open spec fn view(&self) -> ExpressionView {
        match self {
            Expression::Identifier { path, name } => ExpressionView::Identifier {
                path: path@,
                name: name@,
            },
            Expression::FieldAccess { base, field } => ExpressionView::FieldAccess {
                base: base@,
                field: field@,
            },
            Expression::Call { call, method } => ExpressionView::Call {
                call: call@,
                method: method@,
            },
        }
    }
}

impl Expression {
    /// The name that the clone is bound to.
    pub fn binding_name(&self) -> (name: &String)
        ensures
            name@ == self@.binding_name(),
    {
        match self {
            Expression::Identifier { name, .. } => name,
            Expression::FieldAccess { field, .. } => field,
            Expression::Call { method, .. } => method,
        }
    }

    /// The expression whose value is cloned, as source text.
    pub fn target(&self) -> (target: String)
        ensures
            target@ == self@.target(),
    {
        match self {
            Expression::Identifier { path, .. } => path.clone(),
            Expression::FieldAccess { base, field } => {
                let mut target = base.clone();
                let length = base.as_str().unicode_len();
                if length > 0 && base.as_str().get_char(length - 1) == '.' {
                    target.append(" ");
                }
                target.append(".");
                target.append(field.as_str());
                target
            },
            Expression::Call { call, .. } => call.clone(),
        }
    }
}

/// One clone request.
#[derive(Clone, Debug, PartialEq, Eq)]
pub struct Item {
    /// Whether the new binding is mutable.
    pub mutable: bool,
    pub expression: Expression,
}

/// The mathematical value of an [`Item`].
pub struct ItemView {
    pub mutable: bool,
    pub expression: ExpressionView,
}

impl ItemView {
    /// The statement that binds a clone of the expression to its name:
    /// `let name = target.clone();`, with `mut` after `let` for a mutable
    /// binding.
    pub open spec fn statement(self) -> Seq<char> {
        "let "@ + (if self.mutable { "mut "@ } else { Seq::empty() })
            + self.expression.binding_name() + " = "@ + self.expression.target() + ".clone();"@
    }
}

impl View for Item {
    type V = ItemView;

    open spec fn view(&self) -> ItemView {
        ItemView { mutable: self.mutable, expression: self.expression@ }
    }
}

impl Item {
    /// Writes the statement for this item.
    pub fn render(&self) -> (statement: String)
        ensures
            statement@ == self@.statement(),
    {
        let mut statement = String::from_str("let ");
        if self.mutable {
            statement.append("mut ");
        }
        statement.append(self.expression.binding_name().as_str());
        statement.append(" = ");
        let target = self.expression.target();
        statement.append(target.as_str());
        statement.append(".clone();");
        statement
    }
}

/// What becomes of item number `index`, written as `text`, once the parser
/// has reported `shape` for it.
///
/// A path is bound to its last identifier, a named field to the field's
/// name, a method call to the method's name. A positional field and every
/// other form are refused.
pub open spec fn classified(shape: ShapeView, text: Seq<char>, mutable: bool, index: nat) -> Result<
    ItemView,
    ErrorView,
> {
    match shape {
        ShapeView::Path { segments } => if segments.len() > 0 {
            Ok(
                ItemView {
                    mutable,
                    expression: ExpressionView::Identifier { path: text, name: segments.last() },
                },
            )
        } else {
            Err(ErrorView::UnsupportedExpression { item: index, text })
        },
        ShapeView::Field { base, name } => Ok(
            ItemView { mutable, expression: ExpressionView::FieldAccess { base, field: name } },
        ),
        ShapeView::TupleField { index: position } => Err(
            ErrorView::UnsupportedPositionalField { item: index, index: position },
        ),
        ShapeView::MethodCall { method } => Ok(
            ItemView { mutable, expression: ExpressionView::Call { call: text, method } },
        ),
        ShapeView::Other => Err(ErrorView::UnsupportedExpression { item: index, text }),
    }
}

/// The value of a classification outcome.
pub open spec fn item_view(r: Result<Item, ExpandError>) -> Result<ItemView, ErrorView> {
    match r {
        Ok(item) => Ok(item@),
        Err(e) => Err(e@),
    }
}

/// Decides what item number `index`, written as `text`, binds, from the
/// `shape` that the parser reported for it.
pub fn classify(shape: Shape, text: String, mutable: bool, index: usize) -> (r: Result<
    Item,
    ExpandError,
>)
    ensures
        item_view(r) == classified(shape@, text@, mutable, index as nat),
{
    match shape {
        Shape::Path { segments } => {
            let mut segments = segments;
            match segments.pop() {
                Some(name) => Ok(
                    Item { mutable, expression: Expression::Identifier { path: text, name } },
                ),
                None => Err(ExpandError::UnsupportedExpression { item: index, text }),
            }
        },
        Shape::Field { base, name } => Ok(
            Item { mutable, expression: Expression::FieldAccess { base, field: name } },
        ),
        Shape::TupleField { index: position } => Err(
            ExpandError::UnsupportedPositionalField { item: index, index: position },
        ),
        Shape::MethodCall { method } => Ok(
            Item { mutable, expression: Expression::Call { call: text, method } },
        ),
        Shape::Other => Err(ExpandError::UnsupportedExpression { item: index, text }),
    }
}

} // verus!
