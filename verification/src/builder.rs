//! Construction of syntax tree nodes.
use vstd::prelude::*;

use crate::ast::{
    BooleanLiteral, EmptyStatement, Expression, LogicalExpression, NullLiteral, NumberBase,
    NumericLiteral, SequenceExpression, Span, Statement, StringLiteral,
};
use crate::model::{Expr, Logical, Stmt};
use crate::number::Number;
use crate::operator::LogicalOperator;

verus! {

/// Builds nodes.
#[derive(Clone, Copy, Debug, PartialEq, Eq, Structural)]
pub struct AstBuilder {}

impl Statement {
    pub fn span(&self) -> (r: Span)
        ensures
            r == self@.span(),
    {
        match self {
            Statement::BlockStatement(s) => s.node.span,
            Statement::EmptyStatement(s) => s.span,
            Statement::ForStatement(s) => s.node.span,
            Statement::IfStatement(s) => s.span,
            Statement::VariableDeclaration(s) => s.span,
            Statement::WhileStatement(s) => s.span,
            Statement::Other(node) => node.span,
        }
    }
}

impl Expr {
    /// The literal `0` that stands nowhere in the source text.
    pub open spec fn zero() -> Expr {
        Expr::Numeric {
            span: Span::unspanned(),
            value: Number { bits: 0 },
            raw: "0"@,
            base: NumberBase::Decimal,
        }
    }
}

impl AstBuilder {
    pub fn expression_boolean_literal(self, span: Span, value: bool) -> (r: Expression)
        ensures
            r@ == (Expr::Boolean { span, value }),
    {
        Expression::BooleanLiteral(BooleanLiteral { span, value })
    }

    pub fn expression_string_literal(self, span: Span, value: String) -> (r: Expression)
        ensures
            r@ == (Expr::Str { span, value: value@ }),
    {
        Expression::StringLiteral(StringLiteral { span, value })
    }

    pub fn expression_numeric_literal(
        self,
        span: Span,
        value: Number,
        raw: String,
        base: NumberBase,
    ) -> (r: Expression)
        ensures
            r@ == (Expr::Numeric { span, value, raw: raw@, base }),
    {
        Expression::NumericLiteral(NumericLiteral { span, value, raw, base })
    }

    pub fn expression_sequence(self, span: Span, left: Expression, right: Expression) -> (r:
        Expression)
        ensures
            r@ == (Expr::Sequence { span, expressions: seq![left@, right@] }),
    {
        let mut expressions: Vec<Expression> = Vec::with_capacity(2);
        expressions.push(left);
        expressions.push(right);
        let r = Expression::SequenceExpression(Box::new(SequenceExpression { span, expressions }));
        assert(r@->Sequence_expressions =~= seq![left@, right@]);
        r
    }

    pub fn expression_logical(
        self,
        span: Span,
        left: Expression,
        operator: LogicalOperator,
        right: Expression,
    ) -> (r: Expression)
        ensures
            r@ == Expr::Logical(
                Logical { span, left: Box::new(left@), operator, right: Box::new(right@) },
            ),
    {
        Expression::LogicalExpression(
            Box::new(LogicalExpression { span, left, operator, right }),
        )
    }

    /// `0`
    pub fn number_0(self) -> (r: Expression)
        ensures
            r@ == Expr::zero(),
    {
        self.expression_numeric_literal(
            Span::unspanned(),
            Number { bits: 0 },
            "0".to_owned(),
            NumberBase::Decimal,
        )
    }

    /// Takes an expression out of its place, and leaves `null` there.
    pub fn move_expression(self, expr: &mut Expression) -> (r: Expression)
        ensures
            r == *old(expr),
            final(expr)@ == (Expr::Null { span: old(expr)@.span() }),
    {
        let mut moved = Expression::NullLiteral(NullLiteral { span: expr.span() });
        std::mem::swap(expr, &mut moved);
        moved
    }

    pub fn statement_empty(self, span: Span) -> (r: Statement)
        ensures
            r@ == (Stmt::Empty { span }),
    {
        Statement::EmptyStatement(EmptyStatement { span })
    }

    /// Takes a statement out of its place, and leaves an empty one there.
    pub fn move_statement(self, stmt: &mut Statement) -> (r: Statement)
        ensures
            r == *old(stmt),
            final(stmt)@ == (Stmt::Empty { span: old(stmt)@.span() }),
    {
        let mut moved = self.statement_empty(stmt.span());
        std::mem::swap(stmt, &mut moved);
        moved
    }
}

} // verus!
