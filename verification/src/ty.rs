//! The language types of expressions.
use vstd::prelude::*;

use crate::ast::Expression;
use crate::model::Expr;
use crate::operator::{BinaryOperator, UnaryOperator};
use crate::text;

verus! {

/// The type of the values that an expression has, as far as its form tells.
#[derive(Clone, Copy, Debug, PartialEq, Eq, Structural)]
pub enum Ty {
    BigInt,
    Boolean,
    Null,
    Number,
    Object,
    Str,
    Void,
    Undetermined,
}

impl Expr {
    pub open spec fn ty(self) -> Ty
        decreases self,
    {
        match self {
            Expr::BigInt { .. } => Ty::BigInt,
            Expr::Boolean { .. } => Ty::Boolean,
            Expr::Null { .. } => Ty::Null,
            Expr::Numeric { .. } => Ty::Number,
            Expr::Str { .. } | Expr::Template { .. } => Ty::Str,
            Expr::Object { .. } | Expr::Array { .. } | Expr::RegExp(_) | Expr::Function(
                _,
            ) => Ty::Object,
            Expr::Identifier(e) => if !e.global {
                Ty::Undetermined
            } else if e.name == "undefined"@ {
                Ty::Void
            } else if e.name == "NaN"@ || e.name == "Infinity"@ {
                Ty::Number
            } else {
                Ty::Undetermined
            },
            Expr::Unary(e) => match e.operator {
                UnaryOperator::Void => Ty::Void,
                // Negation keeps a BigInt one and makes a Number of any other primitive.
                UnaryOperator::UnaryNegation => match e.argument.ty() {
                    Ty::BigInt => Ty::BigInt,
                    Ty::Object | Ty::Undetermined => Ty::Undetermined,
                    _ => Ty::Number,
                },
                UnaryOperator::UnaryPlus => Ty::Number,
                UnaryOperator::LogicalNot => Ty::Boolean,
                UnaryOperator::Typeof => Ty::Str,
                _ => Ty::Undetermined,
            },
            Expr::Binary(e) => if e.operator is Addition && (e.left.ty() is Str
                || e.right.ty() is Str) {
                Ty::Str
            } else {
                Ty::Undetermined
            },
            _ => Ty::Undetermined,
        }
    }
}

fn ty_of(expr: &Expression) -> (r: Ty)
    ensures
        r == expr@.ty(),
    decreases expr,
{
    match expr {
        Expression::BigIntLiteral(_) => Ty::BigInt,
        Expression::BooleanLiteral(_) => Ty::Boolean,
        Expression::NullLiteral(_) => Ty::Null,
        Expression::NumericLiteral(_) => Ty::Number,
        Expression::StringLiteral(_) | Expression::TemplateLiteral(_) => Ty::Str,
        Expression::ObjectExpression(_)
        | Expression::ArrayExpression(_)
        | Expression::RegExpLiteral(_)
        | Expression::FunctionExpression(_) => Ty::Object,
        Expression::Identifier(e) => {
            if !e.global {
                Ty::Undetermined
            } else if text::is_text(e.name.as_str(), "undefined") {
                Ty::Void
            } else if text::is_text(e.name.as_str(), "NaN") || text::is_text(
                e.name.as_str(),
                "Infinity",
            ) {
                Ty::Number
            } else {
                Ty::Undetermined
            }
        },
        Expression::UnaryExpression(e) => match e.operator {
            UnaryOperator::Void => Ty::Void,
            UnaryOperator::UnaryNegation => match ty_of(&e.argument) {
                Ty::BigInt => Ty::BigInt,
                Ty::Object | Ty::Undetermined => Ty::Undetermined,
                _ => Ty::Number,
            },
            UnaryOperator::UnaryPlus => Ty::Number,
            UnaryOperator::LogicalNot => Ty::Boolean,
            UnaryOperator::Typeof => Ty::Str,
            _ => Ty::Undetermined,
        },
        Expression::BinaryExpression(e) => {
            if e.operator == BinaryOperator::Addition && (ty_of(&e.left) == Ty::Str || ty_of(
                &e.right,
            ) == Ty::Str) {
                Ty::Str
            } else {
                Ty::Undetermined
            }
        },
        _ => Ty::Undetermined,
    }
}

impl From<&Expression> for Ty {
    fn from(expr: &Expression) -> (r: Ty) {
        ty_of(expr)
    }
}

impl vstd::std_specs::convert::FromSpecImpl<&Expression> for Ty {
    open spec fn obeys_from_spec() -> bool {
        true
    }

    open spec fn from_spec(expr: &Expression) -> Ty {
        expr@.ty()
    }
}

} // verus!
