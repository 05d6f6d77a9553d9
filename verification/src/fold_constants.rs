//! Folding of constant expressions and conditions.
use vstd::prelude::*;

use crate::arithmetic;
use crate::ast::{
    BinaryExpression, ConditionalExpression, Expression, LogicalExpression, Span, Statement,
    UnaryExpression,
};
use crate::builder::AstBuilder;
use crate::comparison;
use crate::context::TraverseCtx;
use crate::keep_var::KeepVar;
use crate::model;
use crate::model::{Binary, Conditional, Expr, Logical, Stmt, Unary};
use crate::operator::{BinaryOperator, LogicalOperator, UnaryOperator};

verus! {

/// The folding pass. Additions are folded only where `evaluate` is set.
#[derive(Clone, Copy, Debug, PartialEq, Eq, Structural)]
pub struct FoldConstants {
    pub ast: AstBuilder,
    pub evaluate: bool,
}

impl Binary {
    /// What a binary expression is folded to.
    pub open spec fn folded(self, evaluate: bool, ctx: &TraverseCtx) -> Option<Expr> {
        if self.operator.comparison() {
            comparison::folded_comparison(
                self.span,
                self.operator,
                *self.left,
                *self.right,
                ctx,
            )
        } else if self.operator.shift() {
            arithmetic::folded_shift(self.span, self.operator, *self.left, *self.right, ctx)
        } else if self.operator is Addition && evaluate {
            arithmetic::folded_addition(self.span, *self.left, *self.right, ctx)
        } else {
            None
        }
    }
}

impl Unary {
    /// The name of the type that `typeof` gives of a literal.
    pub open spec fn typeof_name(self) -> Option<Seq<char>> {
        if !self.argument.literal(true) {
            None
        } else {
            match *self.argument {
                Expr::Function(_) => Some("function"@),
                Expr::Str { .. } => Some("string"@),
                Expr::Numeric { .. } => Some("number"@),
                Expr::Boolean { .. } => Some("boolean"@),
                Expr::Null { .. } | Expr::Object { .. } | Expr::Array { .. } => Some("object"@),
                Expr::Unary(e) => if e.operator is Void {
                    Some("undefined"@)
                } else {
                    None
                },
                Expr::BigInt { .. } => Some("bigint"@),
                Expr::Identifier(e) => if e.undefined() {
                    Some("undefined"@)
                } else {
                    None
                },
                _ => None,
            }
        }
    }

    /// What a unary expression is folded to.
    pub open spec fn folded(self, ctx: &TraverseCtx) -> Option<Expr> {
        match self.operator {
            UnaryOperator::Typeof => match self.typeof_name() {
                Some(value) => Some(Expr::Str { span: Span::unspanned(), value }),
                None => None,
            },
            UnaryOperator::LogicalNot => match self.argument.literal_boolean() {
                Some(value) => Some(Expr::Boolean { span: Span::unspanned(), value: !value }),
                None => None,
            },
            UnaryOperator::UnaryNegation => if self.argument.named_nan() {
                Some(*self.argument)
            } else {
                None
            },
            UnaryOperator::UnaryPlus => if *self.argument is Numeric {
                Some(*self.argument)
            } else {
                None
            },
            _ => None,
        }
    }

    /// `void` of an operand without effects, with the operand made `0`.
    pub open spec fn reduced_void(self) -> Unary {
        if !self.argument.number_0() && !self.side_effects() {
            Unary { argument: Box::new(Expr::zero()), ..self }
        } else {
            self
        }
    }

    /// What is left of a unary expression that is not folded.
    pub open spec fn reduced(self) -> Unary {
        if self.operator is Void {
            self.reduced_void()
        } else {
            self
        }
    }

    /// The expression with `null` in place of its operand.
    pub open spec fn without_argument(self) -> Unary {
        Unary { argument: Box::new(Expr::Null { span: self.argument.span() }), ..self }
    }

    /// What is left in place of the expression after folding: `null` where the operand was taken
    /// out.
    pub open spec fn remains(self, ctx: &TraverseCtx) -> Unary {
        if self.folded(ctx) is Some && (self.operator is UnaryNegation || self.operator
            is UnaryPlus) {
            self.without_argument()
        } else {
            self.reduced()
        }
    }
}

impl Conditional {
    /// The branch that a folded test chooses. One that is called or used as a tag stays where it
    /// is when the test is true.
    pub open spec fn chosen(self, test: Expr, ctx: &TraverseCtx) -> Option<Expr> {
        match test.boolean(ctx).known() {
            Some(true) => if ctx.parent.call_or_tag() {
                None
            } else {
                Some(*self.consequent)
            },
            Some(false) => Some(*self.alternate),
            None => None,
        }
    }

    /// What is left in place of the expression after folding: the folded test, and `null` where a
    /// branch was taken out.
    pub open spec fn remains(self, test: Expr, ctx: &TraverseCtx) -> Conditional {
        let tested = Conditional { test: Box::new(test), ..self };
        if self.chosen(test, ctx) is None {
            tested
        } else if test.boolean(ctx) is True {
            Conditional {
                consequent: Box::new(Expr::Null { span: self.consequent.span() }),
                ..tested
            }
        } else {
            Conditional {
                alternate: Box::new(Expr::Null { span: self.alternate.span() }),
                ..tested
            }
        }
    }
}

impl Logical {
    /// Whether the right side assigns to `module.exports`.
    pub open spec fn assigns_exports(self) -> bool {
        *self.right matches Expr::Assignment { left, .. } && left.specific_member(
            "module"@,
            "exports"@,
        )
    }

    /// Whether the truth value of the left side decides the value.
    pub open spec fn decided_by(self, left_value: bool) -> bool {
        if left_value {
            self.operator is Or
        } else {
            self.operator is And
        }
    }

    /// Whether the left side is a logical expression of the same operator whose right side is
    /// known, has no effect, and decides nothing.
    pub open spec fn idle_middle(self, ctx: &TraverseCtx) -> bool {
        *self.left matches Expr::Logical(left) && left.operator == self.operator
            && !left.right.side_effects() && ((left.operator is Or && left.right.boolean(ctx)
            is False) || (left.operator is And && left.right.boolean(ctx) is True))
    }

    /// What an AND or OR expression is folded to.
    pub open spec fn folded(self, ctx: &TraverseCtx) -> Option<Expr> {
        match self.left.boolean(ctx).known() {
            Some(value) => if !value && self.assigns_exports() {
                None
            } else if self.decided_by(value) {
                Some(*self.left)
            } else if self.left.side_effects() {
                Some(
                    Expr::Sequence {
                        span: self.span,
                        expressions: seq![*self.left, *self.right],
                    },
                )
            } else if ctx.parent.call_or_tag() {
                None
            } else {
                Some(*self.right)
            },
            None => if self.idle_middle(ctx) {
                Some(
                    Expr::Logical(
                        Logical {
                            span: self.span,
                            left: (*self.left)->Logical_0.left,
                            operator: self.operator,
                            right: self.right,
                        },
                    ),
                )
            } else {
                None
            },
        }
    }

    /// The expression with `null` in place of its left side.
    pub open spec fn without_left(self) -> Logical {
        Logical { left: Box::new(Expr::Null { span: self.left.span() }), ..self }
    }

    /// The expression with `null` in place of its right side.
    pub open spec fn without_right(self) -> Logical {
        Logical { right: Box::new(Expr::Null { span: self.right.span() }), ..self }
    }

    /// What is left in place of the expression after folding: `null` where a part was taken out.
    pub open spec fn remains(self, ctx: &TraverseCtx) -> Logical {
        if self.folded(ctx) is None {
            self
        } else {
            match self.left.boolean(ctx).known() {
                Some(value) => if self.decided_by(value) {
                    self.without_left()
                } else if self.left.side_effects() {
                    self.without_left().without_right()
                } else {
                    self.without_right()
                },
                None => Logical {
                    left: Box::new(Expr::Logical((*self.left)->Logical_0.without_left())),
                    ..self
                }.without_right(),
            }
        }
    }
}

impl Expr {
    /// What folding makes of an expression.
    pub open spec fn folded(self, evaluate: bool, ctx: &TraverseCtx) -> Expr
        decreases self,
    {
        match self {
            Expr::Binary(e) => match e.folded(evaluate, ctx) {
                Some(folded) => folded,
                None => self,
            },
            Expr::Logical(e) => if e.operator is Coalesce {
                self
            } else {
                match e.folded(ctx) {
                    Some(folded) => folded,
                    None => self,
                }
            },
            Expr::Conditional(e) => {
                let test = e.test.folded(evaluate, ctx);
                match e.chosen(test, ctx) {
                    Some(branch) => branch,
                    None => Expr::Conditional(Conditional { test: Box::new(test), ..e }),
                }
            },
            Expr::Unary(e) => match e.folded(ctx) {
                Some(folded) => folded,
                None => Expr::Unary(e.reduced()),
            },
            _ => self,
        }
    }

    /// The opposite of an equality: the same operands under the inverse operator.
    pub open spec fn inverted(self) -> Option<Expr> {
        match self {
            Expr::Binary(b) => match b.operator.inverse() {
                Some(operator) => Some(Expr::Binary(Binary { operator, ..b })),
                None => None,
            },
            _ => None,
        }
    }

    /// The equality that a negated equality is, as the condition of a loop.
    pub open spec fn minimized_not(self) -> Option<Expr> {
        match self {
            Expr::Unary(e) => if e.operator is LogicalNot {
                e.argument.inverted()
            } else {
                None
            },
            _ => None,
        }
    }

    /// What the condition of a loop is made.
    pub open spec fn loop_condition(self) -> Expr {
        match self.minimized_not() {
            Some(minimized) => minimized,
            None => self,
        }
    }
}

impl Stmt {
    /// What folding makes of an `if` statement. The `else` branch comes first, and is removed
    /// where nothing is left of it.
    pub open spec fn folded_if(self, evaluate: bool, ctx: &TraverseCtx) -> Stmt
        decreases self,
    {
        match self {
            Stmt::If { span, test, consequent, alternate } => {
                let alternate = match alternate {
                    Some(a) => {
                        let folded = a.folded_if(evaluate, ctx);
                        if folded is Empty {
                            None
                        } else {
                            Some(Box::new(folded))
                        }
                    },
                    None => None,
                };
                let test = test.folded(evaluate, ctx);
                match test.boolean(ctx).known() {
                    Some(true) => *consequent,
                    Some(false) => match alternate {
                        Some(a) => *a,
                        None => consequent.kept_variables(),
                    },
                    None => Stmt::If { span, test, consequent, alternate },
                }
            },
            _ => self,
        }
    }

    /// What folding makes of a statement with a condition.
    pub open spec fn folded(self, evaluate: bool, ctx: &TraverseCtx) -> Stmt {
        match self {
            Stmt::While { span, test, body } => Stmt::While {
                span,
                test: test.loop_condition(),
                body,
            },
            Stmt::For { node, init, test, body } => Stmt::For {
                node,
                init,
                test: match test {
                    Some(test) => Some(test.loop_condition()),
                    None => None,
                },
                body,
            },
            Stmt::If { .. } => self.folded_if(evaluate, ctx),
            _ => self,
        }
    }
}

impl FoldConstants {
    pub fn new(ast: AstBuilder) -> (r: FoldConstants)
        ensures
            r == (FoldConstants { ast, evaluate: false }),
    {
        FoldConstants { ast, evaluate: false }
    }

    pub fn with_evaluate(self, yes: bool) -> (r: FoldConstants)
        ensures
            r == (FoldConstants { evaluate: yes, ..self }),
    {
        FoldConstants { ast: self.ast, evaluate: yes }
    }

    /// Called for every statement, once its parts are done.
    pub fn exit_statement(&self, stmt: &mut Statement, ctx: &TraverseCtx)
        ensures
            final(stmt)@ == old(stmt)@.folded(self.evaluate, ctx),
    {
        self.fold_condition(stmt, ctx);
    }

    /// Called for every expression, once its parts are done.
    pub fn exit_expression(&self, expr: &mut Expression, ctx: &TraverseCtx)
        ensures
            final(expr)@ == old(expr)@.folded(self.evaluate, ctx),
    {
        self.fold_expression(expr, ctx);
    }

    /// Folds an expression whose parts are folded already.
    pub fn fold_expression(&self, expr: &mut Expression, ctx: &TraverseCtx)
        ensures
            final(expr)@ == old(expr)@.folded(self.evaluate, ctx),
        decreases *old(expr), 1nat,
    {
        let folded: Option<Expression> = match expr {
            Expression::BinaryExpression(e) => self.try_fold_binary_operator(e, ctx),
            Expression::LogicalExpression(e) => {
                if matches!(e.operator, LogicalOperator::And | LogicalOperator::Or) {
                    self.try_fold_and_or(e, ctx)
                } else {
                    None
                }
            },
            Expression::ConditionalExpression(e) => self.try_fold_conditional_expression(e, ctx),
            Expression::UnaryExpression(e) => self.try_fold_unary_expression(e, ctx),
            _ => None,
        };
        if let Some(folded_expr) = folded {
            *expr = folded_expr;
        }
    }

    fn try_fold_binary_operator(&self, binary_expr: &BinaryExpression, ctx: &TraverseCtx) -> (r:
        Option<Expression>)
        ensures
            model::optional_expr(r) == binary_expr@.folded(self.evaluate, ctx),
    {
        match binary_expr.operator {
            BinaryOperator::Equality
            | BinaryOperator::Inequality
            | BinaryOperator::StrictEquality
            | BinaryOperator::StrictInequality
            | BinaryOperator::LessThan
            | BinaryOperator::LessEqualThan
            | BinaryOperator::GreaterThan
            | BinaryOperator::GreaterEqualThan => self.try_fold_comparison(
                binary_expr.span,
                binary_expr.operator,
                &binary_expr.left,
                &binary_expr.right,
                ctx,
            ),
            BinaryOperator::ShiftLeft
            | BinaryOperator::ShiftRight
            | BinaryOperator::ShiftRightZeroFill => self.try_fold_shift(
                binary_expr.span,
                binary_expr.operator,
                &binary_expr.left,
                &binary_expr.right,
                ctx,
            ),
            // String concatenation makes the output of folding once differ from that of folding
            // twice, so it is left to those who ask for it.
            BinaryOperator::Addition => {
                if self.evaluate {
                    self.try_fold_addition(
                        binary_expr.span,
                        &binary_expr.left,
                        &binary_expr.right,
                        ctx,
                    )
                } else {
                    None
                }
            },
            _ => None,
        }
    }

    fn fold_expression_and_get_boolean_value(
        &self,
        expr: &mut Expression,
        ctx: &TraverseCtx,
    ) -> (r: Option<bool>)
        ensures
            final(expr)@ == old(expr)@.folded(self.evaluate, ctx),
            r == old(expr)@.folded(self.evaluate, ctx).boolean(ctx).known(),
        decreases *old(expr), 2nat,
    {
        self.fold_expression(expr, ctx);
        ctx.get_boolean_value(expr).to_option()
    }

    fn try_fold_conditional_expression(
        &self,
        expr: &mut ConditionalExpression,
        ctx: &TraverseCtx,
    ) -> (r: Option<Expression>)
        ensures
            model::optional_expr(r) == old(expr)@.chosen(
                old(expr)@.test.folded(self.evaluate, ctx),
                ctx,
            ),
            final(expr)@ == old(expr)@.remains(old(expr)@.test.folded(self.evaluate, ctx), ctx),
        decreases *old(expr), 0nat,
    {
        match self.fold_expression_and_get_boolean_value(&mut expr.test, ctx) {
            Some(true) => {
                // Bail `let o = { f() { assert.ok(this !== o); } }; (true ? o.f : false)(); (true ? o.f : false)``;`
                let parent = ctx.parent;
                if parent.is_tagged_template_expression() || parent.is_call_expression() {
                    return None;
                }
                Some(self.ast.move_expression(&mut expr.consequent))
            },
            Some(false) => Some(self.ast.move_expression(&mut expr.alternate)),
            None => None,
        }
    }

    fn try_fold_unary_expression(&self, expr: &mut UnaryExpression, ctx: &TraverseCtx) -> (r:
        Option<Expression>)
        ensures
            model::optional_expr(r) == old(expr)@.folded(ctx),
            final(expr)@ == old(expr)@.remains(ctx),
    {
        match expr.operator {
            UnaryOperator::Void => self.try_reduce_void(expr),
            UnaryOperator::Typeof => self.try_fold_type_of(expr, ctx),
            UnaryOperator::LogicalNot => match expr.argument.to_boolean() {
                Some(b) => Some(self.ast.expression_boolean_literal(Span::unspanned(), !b)),
                None => None,
            },
            // `-NaN` -> `NaN`
            UnaryOperator::UnaryNegation => {
                if expr.argument.is_nan() {
                    Some(self.ast.move_expression(&mut expr.argument))
                } else {
                    None
                }
            },
            // `+1` -> `1`
            UnaryOperator::UnaryPlus => {
                if expr.argument.is_number() {
                    Some(self.ast.move_expression(&mut expr.argument))
                } else {
                    None
                }
            },
            _ => None,
        }
    }

    /// `void 1` -> `void 0`
    fn try_reduce_void(&self, expr: &mut UnaryExpression) -> (r: Option<Expression>)
        ensures
            r is None,
            final(expr)@ == old(expr)@.reduced_void(),
    {
        if (!expr.argument.is_number() || !expr.argument.is_number_0())
            && !expr.may_have_side_effects() {
            expr.argument = self.ast.number_0();
        }
        None
    }

    /// Folds 'typeof(foo)' if foo is a literal, e.g.
    /// `typeof("bar") --> "string"`
    /// `typeof(6) --> "number"`
    fn try_fold_type_of(&self, expr: &UnaryExpression, ctx: &TraverseCtx) -> (r: Option<Expression>)
        ensures
            model::optional_expr(r) == match expr@.typeof_name() {
                Some(value) => Some(Expr::Str { span: Span::unspanned(), value }),
                None => None,
            },
    {
        if !expr.argument.is_literal_value(true) {
            return None;
        }
        let s: &str = match &expr.argument {
            Expression::FunctionExpression(_) => "function",
            Expression::StringLiteral(_) => "string",
            Expression::NumericLiteral(_) => "number",
            Expression::BooleanLiteral(_) => "boolean",
            Expression::NullLiteral(_)
            | Expression::ObjectExpression(_)
            | Expression::ArrayExpression(_) => "object",
            Expression::UnaryExpression(e) => {
                if e.operator == UnaryOperator::Void {
                    "undefined"
                } else {
                    return None;
                }
            },
            Expression::BigIntLiteral(_) => "bigint",
            Expression::Identifier(ident) => {
                if ctx.is_identifier_undefined(ident) {
                    "undefined"
                } else {
                    return None;
                }
            },
            _ => return None,
        };
        Some(self.ast.expression_string_literal(Span::unspanned(), s.to_owned()))
    }

    /// Whether the right side assigns to `module.exports`.
    fn is_exports_assignment(logical_expr: &LogicalExpression) -> (r: bool)
        ensures
            r == logical_expr@.assigns_exports(),
    {
        match &logical_expr.right {
            Expression::AssignmentExpression(assign_expr) => {
                match assign_expr.left.as_member_expression() {
                    Some(member_expr) => member_expr.is_specific_member_access("module", "exports"),
                    None => false,
                }
            },
            _ => false,
        }
    }

    /// Try to fold a AND / OR node.
    pub fn try_fold_and_or(&self, logical_expr: &mut LogicalExpression, ctx: &TraverseCtx) -> (r:
        Option<Expression>)
        requires
            !(old(logical_expr).operator is Coalesce),
        ensures
            model::optional_expr(r) == old(logical_expr)@.folded(ctx),
            final(logical_expr)@ == old(logical_expr)@.remains(ctx),
    {
        let op: LogicalOperator = logical_expr.operator;
        let left_val: Option<bool> = ctx.get_boolean_value(&logical_expr.left).to_option();
        if let Some(lval) = left_val {
            // Bail `0 && (module.exports = {})` for `cjs-module-lexer`.
            if !lval && Self::is_exports_assignment(logical_expr) {
                return None;
            }
            // (TRUE || x) => TRUE (also, (3 || x) => 3)
            // (FALSE && x) => FALSE
            if if lval {
                op == LogicalOperator::Or
            } else {
                op == LogicalOperator::And
            } {
                return Some(self.ast.move_expression(&mut logical_expr.left));
            } else if !logical_expr.left.may_have_side_effects() {
                let parent = ctx.parent;
                // Bail `let o = { f() { assert.ok(this !== o); } }; (true && o.f)(); (true && o.f)``;`
                if parent.is_tagged_template_expression() || parent.is_call_expression() {
                    return None;
                }
                // (FALSE || x) => x
                // (TRUE && x) => x
                return Some(self.ast.move_expression(&mut logical_expr.right));
            }
            // Left side may have side effects, but we know its boolean value.
            // e.g. false_with_sideeffects || foo() => false_with_sideeffects, foo()
            // or: true_with_sideeffects && foo() => true_with_sideeffects, foo()
            let left: Expression = self.ast.move_expression(&mut logical_expr.left);
            let right: Expression = self.ast.move_expression(&mut logical_expr.right);
            return Some(self.ast.expression_sequence(logical_expr.span, left, right));
        }
        let mut taken: Option<Expression> = None;
        if let Expression::LogicalExpression(left_child) = &mut logical_expr.left {
            if left_child.operator == op {
                let right_boolean = ctx.get_boolean_value(&left_child.right).to_option();
                if let Some(right_boolean) = right_boolean {
                    if !left_child.right.may_have_side_effects() {
                        // a || false || b => a || b
                        // a && true && b => a && b
                        if (!right_boolean && op == LogicalOperator::Or) || (right_boolean && op
                            == LogicalOperator::And) {
                            taken = Some(self.ast.move_expression(&mut left_child.left));
                        }
                    }
                }
            }
        }
        match taken {
            Some(left) => {
                let right: Expression = self.ast.move_expression(&mut logical_expr.right);
                Some(self.ast.expression_logical(logical_expr.span, left, op, right))
            },
            None => None,
        }
    }

    fn fold_if_statement(&self, stmt: &mut Statement, ctx: &TraverseCtx)
        ensures
            final(stmt)@ == old(stmt)@.folded_if(self.evaluate, ctx),
        decreases *old(stmt),
    {
        let replacement: Option<Statement> = match stmt {
            Statement::IfStatement(if_stmt) => {
                // Descend and remove `else` blocks first.
                let mut emptied: bool = false;
                if let Some(alternate) = &mut if_stmt.alternate {
                    self.fold_if_statement(alternate, ctx);
                    emptied = matches!(alternate, Statement::EmptyStatement(_));
                }
                if emptied {
                    if_stmt.alternate = None;
                }
                match self.fold_expression_and_get_boolean_value(&mut if_stmt.test, ctx) {
                    Some(true) => Some(self.ast.move_statement(&mut if_stmt.consequent)),
                    Some(false) => {
                        if let Some(alternate) = &mut if_stmt.alternate {
                            Some(self.ast.move_statement(alternate))
                        } else {
                            // Keep hoisted `vars` from the consequent block.
                            let mut keep_var = KeepVar::new();
                            keep_var.visit_statement(&if_stmt.consequent);
                            match keep_var.get_variable_declaration_statement() {
                                Some(declaration) => Some(declaration),
                                None => Some(self.ast.statement_empty(Span::unspanned())),
                            }
                        }
                    },
                    None => None,
                }
            },
            _ => None,
        };
        if let Some(folded) = replacement {
            *stmt = folded;
        }
    }

    /// Folds the condition of a statement.
    pub fn fold_condition(&self, stmt: &mut Statement, ctx: &TraverseCtx)
        ensures
            final(stmt)@ == old(stmt)@.folded(self.evaluate, ctx),
    {
        match stmt {
            Statement::WhileStatement(while_stmt) => {
                let minimized_expr = self.fold_expression_in_condition(&mut while_stmt.test);
                if let Some(min_expr) = minimized_expr {
                    while_stmt.test = min_expr;
                }
            },
            Statement::ForStatement(for_stmt) => {
                if let Some(test_expr) = &mut for_stmt.test {
                    let minimized_expr = self.fold_expression_in_condition(test_expr);
                    if let Some(min_expr) = minimized_expr {
                        *test_expr = min_expr;
                    }
                }
            },
            Statement::IfStatement(_) => self.fold_if_statement(stmt, ctx),
            _ => {},
        }
    }

    fn fold_expression_in_condition(&self, expr: &mut Expression) -> (r: Option<Expression>)
        ensures
            model::optional_expr(r) == old(expr)@.minimized_not(),
            final(expr)@ == match old(expr)@ {
                Expr::Unary(e) => if r is Some {
                    Expr::Unary(e.without_argument())
                } else {
                    old(expr)@
                },
                _ => old(expr)@,
            },
    {
        proof {
            reveal_with_fuel(Expression::view, 2);
        }
        match expr {
            Expression::UnaryExpression(unary_expr) => match unary_expr.operator {
                UnaryOperator::LogicalNot => {
                    let should_fold: bool = Self::try_minimize_not(&mut unary_expr.argument);
                    if should_fold {
                        Some(self.ast.move_expression(&mut unary_expr.argument))
                    } else {
                        None
                    }
                },
                _ => None,
            },
            _ => None,
        }
    }

    /// Turns an equality into the opposite one.
    pub fn try_minimize_not(expr: &mut Expression) -> (r: bool)
        ensures
            r == old(expr)@.inverted() is Some,
            final(expr)@ == match old(expr)@.inverted() {
                Some(inverted) => inverted,
                None => old(expr)@,
            },
    {
        match expr {
            Expression::BinaryExpression(binary_expr) => {
                match binary_expr.operator.equality_inverse_operator() {
                    Some(new_op) => {
                        binary_expr.operator = new_op;
                        true
                    },
                    None => false,
                }
            },
            _ => false,
        }
    }
}

} // verus!
