//! Expressions a select list can project. The only kind in scope is a simple
//! qualified column reference.

use vstd::prelude::*;

verus! {

/// A projected expression.
#[derive(Debug, PartialEq, Clone)]
pub enum Expression {
    SimpleExpression(SimpleExpression),
}

/// A column reference, optionally qualified by a table and a schema. A
/// column of `"*"` denotes a wildcard projection. The schema is never set
/// without the table.
#[derive(Debug, PartialEq, Clone)]
pub struct SimpleExpression {
    pub column: String,
    pub schema: Option<String>,
    pub table: Option<String>,
}

/// The mathematical shape of an `Expression`.
pub enum ExpressionV {
    SimpleExpression(SimpleExpressionV),
}

/// The mathematical shape of a `SimpleExpression`.
pub struct SimpleExpressionV {
    pub column: Seq<char>,
    pub schema: Option<Seq<char>>,
    pub table: Option<Seq<char>>,
}

impl View for SimpleExpression {
    type V = SimpleExpressionV;

    open spec fn view(&self) -> SimpleExpressionV {
        SimpleExpressionV {
            column: self.column@,
            schema: match self.schema {
                Some(s) => Some(s@),
                None => None,
            },
            table: match self.table {
                Some(s) => Some(s@),
                None => None,
            },
        }
    }
}

impl View for Expression {
    type V = ExpressionV;

    open spec fn view(&self) -> ExpressionV {
        match self {
            Expression::SimpleExpression(e) => ExpressionV::SimpleExpression(e@),
        }
    }
}

} // verus!
