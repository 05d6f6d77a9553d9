//! What holds of the folding rules whatever the expressions are.
use vstd::arithmetic::div_mod::*;
use vstd::arithmetic::mul::*;
use vstd::arithmetic::power2::*;
use vstd::prelude::*;

use crate::arithmetic;
use crate::ast::{NodeRef, NumberBase, Span};
use crate::comparison;
use crate::context::TraverseCtx;
use crate::keep_var;
use crate::model::{
    Binary, Binding, Conditional, Expr, Identifier, Logical, Stmt, Target, Unary,
};
use crate::number;
use crate::number::Number;
use crate::number_value;
use crate::number_value::NumberValue;
use crate::operator::{AssignmentOperator, BinaryOperator, UnaryOperator};
use crate::parts;
use crate::soundness;
use crate::text;
use crate::tri::Tri;

verus! {

/// The inverse of an equality operator gives the opposite answer, and is undone by taking the
/// inverse again.
pub proof fn law_inverse_operator_negates(
    operator: BinaryOperator,
    left: Expr,
    right: Expr,
    ctx: &TraverseCtx,
)
    requires
        operator.inverse() is Some,
    ensures
        comparison::comparison(operator.inverse()->0, left, right, ctx) == comparison::comparison(
            operator,
            left,
            right,
            ctx,
        ).negation(),
        operator.inverse()->0.inverse() == Some(operator),
{
}

/// Inverting an equality twice restores it, and what cannot be inverted once cannot be inverted
/// after that.
pub proof fn law_inverting_twice_restores(e: Expr)
    ensures
        match e.inverted() {
            Some(inverted) => inverted.inverted() == Some(e),
            None => true,
        },
{
}

/// `>` is `<` with the operands exchanged, and `<=` is `>=` with the operands exchanged.
pub proof fn law_orders_mirror(left: Expr, right: Expr, ctx: &TraverseCtx)
    ensures
        comparison::comparison(BinaryOperator::GreaterThan, left, right, ctx)
            == comparison::comparison(BinaryOperator::LessThan, right, left, ctx),
        comparison::comparison(BinaryOperator::LessEqualThan, left, right, ctx)
            == comparison::comparison(BinaryOperator::GreaterEqualThan, right, left, ctx),
{
}

/// `<` and `>=` of the same operands are known together, and never both true.
pub proof fn law_less_excludes_greater_or_equal(left: Expr, right: Expr, ctx: &TraverseCtx)
    ensures
        ({
            let less = comparison::comparison(BinaryOperator::LessThan, left, right, ctx);
            let at_least = comparison::comparison(
                BinaryOperator::GreaterEqualThan,
                left,
                right,
                ctx,
            );
            &&& less is Unknown <==> at_least is Unknown
            &&& !(less is True && at_least is True)
        }),
{
}

/// Of two sequences of code units, not each precedes the other.
proof fn lemma_precedes_is_asymmetric(a: Seq<int>, b: Seq<int>)
    ensures
        !(text::units_precede(a, b) && text::units_precede(b, a)),
    decreases a.len(),
{
    if a.len() > 0 && b.len() > 0 && a[0] == b[0] {
        lemma_precedes_is_asymmetric(a.drop_first(), b.drop_first());
    }
}

/// Where one operand is below the other, the other is known not to be below the one.
pub proof fn law_less_is_asymmetric(left: Expr, right: Expr, ctx: &TraverseCtx)
    ensures
        comparison::relational(left, right, false, ctx) is True ==> comparison::relational(
            right,
            left,
            false,
            ctx,
        ) is False,
        comparison::comparison(BinaryOperator::LessThan, left, right, ctx) is True
            ==> comparison::comparison(BinaryOperator::LessThan, right, left, ctx) is False,
{
    if left.string(ctx) is Some && right.string(ctx) is Some {
        lemma_precedes_is_asymmetric(
            text::utf16(left.string(ctx)->0),
            text::utf16(right.string(ctx)->0),
        );
    }
}

/// Strict equality does not depend on the order of the operands.
pub proof fn law_strict_equality_is_symmetric(left: Expr, right: Expr, ctx: &TraverseCtx)
    ensures
        comparison::strict_equality(left, right, ctx) == comparison::strict_equality(
            right,
            left,
            ctx,
        ),
{
}

/// Loose equality does not depend on the order of the operands.
pub proof fn law_loose_equality_is_symmetric(left: Expr, right: Expr, ctx: &TraverseCtx)
    ensures
        comparison::abstract_equality(left, right, ctx) == comparison::abstract_equality(
            right,
            left,
            ctx,
        ),
    decreases comparison::convertible(left) + comparison::convertible(right),
{
    let (l, r) = (left.ty(), right.ty());
    if l is Undetermined || r is Undetermined {
    } else if l == r {
        law_strict_equality_is_symmetric(left, right, ctx);
    } else if (l is Number && r is Str) || r is Boolean {
        match right.side_free_number(ctx) {
            Some(NumberValue::Number(n)) => law_loose_equality_is_symmetric(
                left,
                comparison::converted(right, n),
                ctx,
            ),
            _ => {},
        }
    } else if (l is Str && r is Number) || l is Boolean {
        match left.side_free_number(ctx) {
            Some(NumberValue::Number(n)) => law_loose_equality_is_symmetric(
                comparison::converted(left, n),
                right,
                ctx,
            ),
            _ => {},
        }
    }
}

/// `typeof` of one variable equals itself and is not below itself, whatever the variable holds.
pub proof fn law_typeof_of_one_variable(
    a: Identifier,
    b: Identifier,
    left_span: Span,
    right_span: Span,
    ctx: &TraverseCtx,
)
    requires
        a.name == b.name,
    ensures
        ({
            let left = Expr::Unary(
                Unary {
                    span: left_span,
                    operator: UnaryOperator::Typeof,
                    argument: Box::new(Expr::Identifier(a)),
                },
            );
            let right = Expr::Unary(
                Unary {
                    span: right_span,
                    operator: UnaryOperator::Typeof,
                    argument: Box::new(Expr::Identifier(b)),
                },
            );
            &&& comparison::comparison(BinaryOperator::Equality, left, right, ctx) is True
            &&& comparison::comparison(BinaryOperator::StrictEquality, left, right, ctx) is True
            &&& comparison::comparison(BinaryOperator::LessThan, left, right, ctx) is False
        }),
{
    reveal_with_fuel(Expr::side_effects, 2);
}

/// Nothing is strictly equal to NaN. The answer stays open only where the other operand is a
/// number that is not known.
pub proof fn law_nan_is_strictly_equal_to_nothing(nan: Expr, other: Expr, ctx: &TraverseCtx)
    requires
        nan matches Expr::Identifier(i) && i.name == "NaN"@,
        !other.side_effects(),
    ensures
        !(comparison::comparison(BinaryOperator::StrictEquality, nan, other, ctx) is True),
        !(other.ty() is Number) || other.number(ctx) is Some ==> comparison::comparison(
            BinaryOperator::StrictEquality,
            nan,
            other,
            ctx,
        ) is False,
{
    reveal_strlit("undefined");
    reveal_strlit("NaN");
    reveal_strlit("Infinity");
    assert("undefined"@.len() == 9 && "NaN"@.len() == 3 && "Infinity"@.len() == 8);
}

/// A binary expression is folded only where evaluating its operands has no effect.
pub proof fn law_binary_folds_without_effects(e: Binary, evaluate: bool, ctx: &TraverseCtx)
    requires
        e.folded(evaluate, ctx) is Some,
    ensures
        !e.left.side_effects(),
        !e.right.side_effects(),
        !e.left.active(),
        !e.right.active(),
{
    parts::law_side_effects_are_acts_of_parts(*e.left);
    parts::law_side_effects_are_acts_of_parts(*e.right);
}

/// Folding an AND or OR loses no effect of its left side.
pub proof fn law_and_or_keeps_the_left_effects(e: Logical, ctx: &TraverseCtx)
    requires
        e.folded(ctx) is Some,
        e.left.side_effects(),
    ensures
        e.folded(ctx)->0.side_effects(),
{
    let folded = e.folded(ctx)->0;
    match folded {
        Expr::Sequence { expressions, .. } => {
            if folded != *e.left {
                assert(expressions[0] == *e.left);
            }
        },
        _ => {},
    }
}

/// `void` keeps its effects, and is reduced once.
pub proof fn law_void_keeps_its_effects(e: Unary)
    ensures
        e.reduced().side_effects() == e.side_effects(),
        e.reduced().operator == e.operator,
        e.reduced().reduced() == e.reduced(),
        Expr::Unary(e.reduced()).active() == Expr::Unary(e).active(),
{
    parts::law_side_effects_are_acts_of_parts(Expr::Unary(e));
    parts::law_side_effects_are_acts_of_parts(Expr::Unary(e.reduced()));
    assert(e.side_effects() == Expr::Unary(e).side_effects());
    assert(e.reduced().side_effects() == Expr::Unary(e.reduced()).side_effects());
}

/// `void` of anything but a zero in which nothing acts is made `void` of the literal `0`; any other
/// `void` stays as it is.
pub proof fn law_void_is_reduced_to_zero(e: Unary)
    requires
        e.operator is Void,
    ensures
        e.reduced().span == e.span,
        ({
            let zero = *e.argument matches Expr::Numeric { value, .. } && value.finite()
                && value.units() == 0;
            if zero || e.argument.active() {
                e.reduced() == e
            } else {
                *e.reduced().argument matches Expr::Numeric { span, value, raw, base } && span
                    == Span::unspanned() && value.bits == 0 && raw == "0"@ && base is Decimal
            }
        }),
{
    parts::law_side_effects_are_acts_of_parts(*e.argument);
    number::law_fields_of_numbers(Number { bits: 0 });
    lemma2_to64();
}

/// What is neither a binary, a logical, a conditional nor a unary expression is left alone. So is
/// every literal that folding gives.
pub proof fn law_other_expressions_are_left_alone(e: Expr, evaluate: bool, ctx: &TraverseCtx)
    requires
        !(e is Binary || e is Logical || e is Conditional || e is Unary),
    ensures
        e.folded(evaluate, ctx) == e,
{
}

/// A folded binary expression is a literal, and folding it again changes nothing.
pub proof fn law_binary_folds_once(e: Binary, evaluate: bool, ctx: &TraverseCtx)
    requires
        e.folded(evaluate, ctx) is Some,
    ensures
        ({
            let folded = Expr::Binary(e).folded(evaluate, ctx);
            &&& folded is Boolean || folded is Numeric || folded is Str
            &&& folded.span() == e.span
            &&& folded.folded(evaluate, ctx) == folded
        }),
{
}

/// Additions are folded only where evaluation is asked for; nothing else depends on it.
pub proof fn law_evaluate_governs_additions(e: Binary, ctx: &TraverseCtx)
    ensures
        e.operator is Addition ==> e.folded(false, ctx) is None,
        !(e.operator is Addition) ==> e.folded(false, ctx) == e.folded(true, ctx),
{
}

/// A function that is called or used as a tag stays under its AND or OR, and under its
/// conditional where the test is true: taken out, it would be called on an object.
pub proof fn law_callee_stays_in_place(
    e: Logical,
    condition: Conditional,
    evaluate: bool,
    ctx: &TraverseCtx,
)
    requires
        ctx.parent is CallExpression || ctx.parent is TaggedTemplateExpression,
    ensures
        match e.folded(ctx) {
            Some(folded) => folded == *e.left || folded is Sequence || folded is Logical,
            None => true,
        },
        condition.test.folded(evaluate, ctx).boolean(ctx) is True ==> Expr::Conditional(
            condition,
        ).folded(evaluate, ctx) == Expr::Conditional(
            Conditional { test: Box::new(condition.test.folded(evaluate, ctx)), ..condition },
        ),
{
}

/// An assignment to `module.exports` behind a false left side is kept.
pub proof fn law_exports_assignment_is_kept(e: Logical, ctx: &TraverseCtx)
    requires
        e.left.boolean(ctx) is False,
        e.assigns_exports(),
    ensures
        e.folded(ctx) is None,
        e.remains(ctx) == e,
{
}

/// An assignment to `module.exports` is told by its target: the member `exports` of the variable
/// `module`, which may stand in parentheses or have a type annotation. Behind a false left side it keeps the whole, and no
/// other right side does.
pub proof fn law_exports_assignment_is_told_by_its_target(
    e: Logical,
    object: Expr,
    property: Option<Seq<char>>,
    node: NodeRef,
    span: Span,
    operator: AssignmentOperator,
    right: Box<Expr>,
    ctx: &TraverseCtx,
)
    requires
        !(e.operator is Coalesce),
        e.left.boolean(ctx) is False,
        object is Identifier,
    ensures
        ({
            let plain = Target::Member { node, object: Box::new(object), property };
            let parenthesized = Target::Member {
                node,
                object: Box::new(Expr::Parenthesized { span, expression: Box::new(object) }),
                property,
            };
            let exports = object->Identifier_0.name == "module"@ && property == Some("exports"@);
            let assigned = Logical {
                right: Box::new(Expr::Assignment { span, operator, left: plain, right }),
                ..e
            };
            let annotated = Target::Member {
                node,
                object: Box::new(Expr::TypeScript { node, expression: Box::new(object) }),
                property,
            };
            let assigned_with_a_type = Logical {
                right: Box::new(Expr::Assignment { span, operator, left: annotated, right }),
                ..e
            };
            let assigned_in_parentheses = Logical {
                right: Box::new(Expr::Assignment { span, operator, left: parenthesized, right }),
                ..e
            };
            let elsewhere = Logical {
                right: Box::new(
                    Expr::Assignment { span, operator, left: Target::Other(node), right },
                ),
                ..e
            };
            &&& exports ==> assigned.folded(ctx) is None
            &&& exports ==> assigned_in_parentheses.folded(ctx) is None
            &&& exports ==> assigned_with_a_type.folded(ctx) is None
            &&& !exports && e.operator is And ==> assigned.folded(ctx) == Some(*e.left)
            &&& e.operator is And ==> elsewhere.folded(ctx) == Some(*e.left)
            &&& e.operator is And && !(*e.right is Assignment) ==> e.folded(ctx) == Some(*e.left)
        }),
{
    reveal_with_fuel(Expr::inner, 3);
}

/// An AND or OR whose left side is known is folded: to the left side where it decides, and else to
/// the right side, behind the left one where something acts in it. It is left alone where the right
/// side assigns to `module.exports`, or would be called or used as a tag.
pub proof fn law_known_left_side_is_folded(e: Logical, ctx: &TraverseCtx)
    requires
        !(e.operator is Coalesce),
        !(e.left.boolean(ctx) is Unknown),
        e.left.boolean(ctx) is True || !(*e.right matches Expr::Assignment { left, .. }
            && left matches Target::Member { property, .. } && property == Some("exports"@)),
    ensures
        ({
            let decides = (e.left.boolean(ctx) is True) == (e.operator is Or);
            let called = ctx.parent is CallExpression || ctx.parent is TaggedTemplateExpression;
            &&& decides ==> e.folded(ctx) == Some(*e.left)
            &&& !decides && e.left.active() ==> e.folded(ctx) == Some(
                Expr::Sequence { span: e.span, expressions: seq![*e.left, *e.right] },
            )
            &&& !decides && !e.left.active() && !called ==> e.folded(ctx) == Some(*e.right)
            &&& !decides && !e.left.active() && called ==> e.folded(ctx) is None
        }),
{
    parts::law_side_effects_are_acts_of_parts(*e.left);
}

/// In `(a || b) || c` and `(a && b) && c` a middle that is known, in which nothing acts, and that
/// decides nothing is left out. Nothing else is done where the left side is not known.
pub proof fn law_idle_middle_is_left_out(e: Logical, ctx: &TraverseCtx)
    requires
        !(e.operator is Coalesce),
        e.left.boolean(ctx) is Unknown,
    ensures
        match *e.left {
            Expr::Logical(left) => if left.operator == e.operator && !left.right.active()
                && left.right.boolean(ctx) == (if e.operator is Or { Tri::False } else { Tri::True }) {
                e.folded(ctx) == Some(Expr::Logical(Logical { left: left.left, ..e }))
            } else {
                e.folded(ctx) is None
            },
            _ => e.folded(ctx) is None,
        },
{
    match *e.left {
        Expr::Logical(left) => parts::law_side_effects_are_acts_of_parts(*left.right),
        _ => {},
    }
}

/// A `??` is left alone.
pub proof fn law_coalescing_is_left_alone(e: Logical, evaluate: bool, ctx: &TraverseCtx)
    requires
        e.operator is Coalesce,
    ensures
        Expr::Logical(e).folded(evaluate, ctx) == Expr::Logical(e),
{
}

/// What an AND or OR leaves behind is itself where it is not folded. Where it is, a part stays or is
/// taken out, and `null` stands in its place.
pub proof fn law_and_or_leaves_what_it_does_not_take(e: Logical, ctx: &TraverseCtx)
    requires
        !(e.operator is Coalesce),
    ensures
        e.folded(ctx) is None ==> e.remains(ctx) == e,
        e.remains(ctx).span == e.span,
        e.remains(ctx).operator == e.operator,
        e.folded(ctx) is Some && e.left.boolean(ctx) is Unknown ==> *e.remains(ctx).right == (
        Expr::Null { span: e.right.span() }),
        e.folded(ctx) is Some && !(e.left.boolean(ctx) is Unknown) ==> {
            let decides = (e.left.boolean(ctx) is True) == (e.operator is Or);
            &&& *e.remains(ctx).right == if decides {
                *e.right
            } else {
                Expr::Null { span: e.right.span() }
            }
            &&& *e.remains(ctx).left == if decides || e.left.active() {
                Expr::Null { span: e.left.span() }
            } else {
                *e.left
            }
        },
{
    parts::law_side_effects_are_acts_of_parts(*e.left);
}

/// A conditional expression whose folded test is known is folded to the branch that it chooses,
/// except that a branch that is called or used as a tag stays where the test is true. Any other one
/// keeps its parts and gets the folded test.
pub proof fn law_conditional_is_its_branch(e: Conditional, evaluate: bool, ctx: &TraverseCtx)
    ensures
        ({
            let test = e.test.folded(evaluate, ctx);
            let called = ctx.parent is CallExpression || ctx.parent is TaggedTemplateExpression;
            Expr::Conditional(e).folded(evaluate, ctx) == if test.boolean(ctx) is True && !called {
                *e.consequent
            } else if test.boolean(ctx) is False {
                *e.alternate
            } else {
                Expr::Conditional(Conditional { test: Box::new(test), ..e })
            }
        }),
{
}

/// A binary expression that is not folded stays as it is. One that is becomes a literal at its
/// place: a boolean for a comparison, a number for a shift, and a string or a number for an
/// addition. A sum is written in base ten where it is whole, and as a fraction where it is not.
pub proof fn law_binary_becomes_a_literal(e: Binary, evaluate: bool, ctx: &TraverseCtx)
    ensures
        ({
            let folded = Expr::Binary(e).folded(evaluate, ctx);
            folded == Expr::Binary(e) || (folded.span() == e.span && match e.operator {
                BinaryOperator::Equality
                | BinaryOperator::Inequality
                | BinaryOperator::StrictEquality
                | BinaryOperator::StrictInequality
                | BinaryOperator::LessThan
                | BinaryOperator::LessEqualThan
                | BinaryOperator::GreaterThan
                | BinaryOperator::GreaterEqualThan => folded is Boolean,
                BinaryOperator::ShiftLeft
                | BinaryOperator::ShiftRight
                | BinaryOperator::ShiftRightZeroFill => folded is Numeric,
                BinaryOperator::Addition => evaluate && match folded {
                    Expr::Str { .. } => e.left.ty() is Str || e.right.ty() is Str,
                    Expr::Numeric { value, raw, base, .. } => raw.len() == 0 && base
                        == if value.finite() && value.units() == value.integer_part()
                        * number::one() {
                        NumberBase::Decimal
                    } else {
                        NumberBase::Float
                    },
                    _ => false,
                },
                _ => false,
            })
        }),
{
    match Expr::Binary(e).folded(evaluate, ctx) {
        Expr::Numeric { value, .. } => number::law_integer_part_cuts_off(value),
        _ => {},
    }
}

/// A comparison is folded just where its answer is known, and nothing acts in its operands. A known
/// shift and, where evaluation is asked for, a known addition are folded.
pub proof fn law_known_operations_are_folded(e: Binary, ctx: &TraverseCtx)
    ensures
        !(comparison::comparison(e.operator, *e.left, *e.right, ctx) is Unknown) ==> Expr::Binary(e).folded(false, ctx) == (Expr::Boolean {
            span: e.span,
            value: comparison::comparison(e.operator, *e.left, *e.right, ctx) is True,
        }),
        e.operator is Addition && !e.left.active() && !e.right.active() && e.left.ty() is Str
            && !(e.right.ty() is Undetermined) && e.left.string(ctx) is Some && e.right.string(ctx)
            is Some ==> Expr::Binary(e).folded(true, ctx) is Str,
        e.operator is Addition && !e.left.active() && !e.right.active() && e.right.ty() is Str
            && !(e.left.ty() is Undetermined) && e.left.string(ctx) is Some && e.right.string(ctx)
            is Some ==> Expr::Binary(e).folded(true, ctx) is Str,
        e.operator is Addition && !e.left.active() && !e.right.active() && (e.left.ty() is Number
            || e.right.ty() is Number || (e.left.ty() is Boolean && e.right.ty() is Boolean)) && !(
        e.left.ty() is Str || e.right.ty() is Str || e.left.ty() is Undetermined || e.right.ty()
            is Undetermined) ==> (e.left.number(ctx) matches Some(a) && e.right.number(
            ctx,
        ) matches Some(b) && !a.double().sum(b.double()).nan() ==> Expr::Binary(e).folded(true, ctx)
            is Numeric),
{
    parts::law_side_effects_are_acts_of_parts(*e.left);
    parts::law_side_effects_are_acts_of_parts(*e.right);
}

/// A unary expression is folded to a literal, or to its operand where that is a number behind `+`
/// or `NaN` behind `-`. Any other one but `void` stays as it is.
pub proof fn law_unary_becomes_a_literal_or_its_operand(
    e: Unary,
    evaluate: bool,
    ctx: &TraverseCtx,
)
    ensures
        ({
            let folded = Expr::Unary(e).folded(evaluate, ctx);
            match e.operator {
                UnaryOperator::Typeof => folded == Expr::Unary(e) || folded is Str && folded.span()
                    == Span::unspanned(),
                UnaryOperator::LogicalNot => folded == Expr::Unary(e) || folded is Boolean
                    && folded.span() == Span::unspanned(),
                UnaryOperator::UnaryPlus => folded == if *e.argument is Numeric {
                    *e.argument
                } else {
                    Expr::Unary(e)
                },
                UnaryOperator::UnaryNegation => folded == if *e.argument matches Expr::Identifier(i)
                    && i.name == "NaN"@ {
                    *e.argument
                } else {
                    Expr::Unary(e)
                },
                UnaryOperator::Void => folded == Expr::Unary(e.reduced()),
                _ => folded == Expr::Unary(e),
            }
        }),
{
}

/// `!` of a literal of a primitive type or of a regular expression is folded, and so is `typeof` of
/// a literal of which it tells the type.
pub proof fn law_literals_are_folded(e: Unary, evaluate: bool, ctx: &TraverseCtx)
    ensures
        e.operator is LogicalNot && (*e.argument is Boolean || *e.argument is Null || *e.argument
            is Numeric || *e.argument is BigInt || *e.argument is RegExp || *e.argument is Str)
            ==> Expr::Unary(e).folded(evaluate, ctx) is Boolean,
        e.operator is LogicalNot && !(*e.argument is Boolean || *e.argument is Null || *e.argument
            is Numeric || *e.argument is BigInt || *e.argument is RegExp || *e.argument is Str)
            ==> Expr::Unary(e).folded(evaluate, ctx) == Expr::Unary(e),
        e.operator is Typeof && (*e.argument is Boolean || *e.argument is Null || *e.argument
            is Numeric || *e.argument is BigInt || *e.argument is Str || *e.argument is Function)
            ==> Expr::Unary(e).folded(evaluate, ctx) is Str,
        e.operator is Typeof && (*e.argument is Array || *e.argument is Object) && e.argument.literal(
            true,
        ) ==> Expr::Unary(e).folded(evaluate, ctx) is Str,
        e.operator is Typeof && !e.argument.literal(true) ==> Expr::Unary(e).folded(evaluate, ctx)
            == Expr::Unary(e),
        e.operator is Typeof && (*e.argument matches Expr::Identifier(i) && i.global && i.name
            == "undefined"@) ==> Expr::Unary(e).folded(evaluate, ctx) is Str,
        e.operator is Typeof && (*e.argument matches Expr::Unary(u) && u.operator is Void
            && *u.argument is Numeric) ==> Expr::Unary(e).folded(evaluate, ctx) is Str,
        e.operator is Typeof && (*e.argument matches Expr::Identifier(i) && !(i.global && i.name
            == "undefined"@)) ==> Expr::Unary(e).folded(evaluate, ctx) == Expr::Unary(e),
{
    let argument = *e.argument;
    if let Expr::Unary(u) = argument {
        if *u.argument is Numeric {
            let inner = *u.argument;
            assert(inner.immutable());
            assert(argument.immutable());
            assert(argument.literal(true));
        }
    }
}

/// `!` of a BigInt literal is true just where it is written `0n`, `!` of a numeric literal just where
/// it is a zero, `!` of a string just where it is empty. It is the opposite of a boolean, true for
/// `null` and false for a regular expression.
pub proof fn law_not_of_a_literal(e: Unary, evaluate: bool, ctx: &TraverseCtx)
    requires
        e.operator is LogicalNot,
    ensures
        ({
            let folded = Expr::Unary(e).folded(evaluate, ctx);
            let answer = |b: bool| Expr::Boolean { span: Span::unspanned(), value: b };
            match *e.argument {
                Expr::BigInt { raw, .. } => folded == answer(raw == "0n"@),
                Expr::Numeric { value, .. } => folded == answer(
                    value.finite() && value.units() == 0,
                ),
                Expr::Str { value, .. } => folded == answer(value.len() == 0),
                Expr::Boolean { value, .. } => folded == answer(!value),
                Expr::Null { .. } => folded == answer(true),
                Expr::RegExp(_) => folded == answer(false),
                _ => folded == Expr::Unary(e),
            }
        }),
{
    number::law_fields_of_numbers(Number { bits: 0 });
    lemma2_to64();
    match *e.argument {
        Expr::Numeric { value, .. } => number::law_numbers_are_ordered(
            value,
            Number { bits: 0 },
            value,
        ),
        _ => {},
    }
}

/// A sum that is a NaN is not folded.
pub proof fn law_sums_are_numbers(e: Binary, evaluate: bool, ctx: &TraverseCtx)
    requires
        e.operator is Addition,
    ensures
        Expr::Binary(e).folded(evaluate, ctx) matches Expr::Numeric { value, .. } ==> !value.nan(),
{
    if e.left.number(ctx) is Some && e.right.number(ctx) is Some {
        number_value::law_known_values_are_numbers(
            e.left.number(ctx)->0.double().sum(e.right.number(ctx)->0.double()),
            e.left.number(ctx)->0,
            e.right.number(ctx)->0,
        );
    }
}

/// An `if` statement whose folded test is known is folded to the branch that it chooses; where it
/// chooses one that is missing or empty, to what is kept of the other. Any other one keeps its place
/// and its branch, gets the folded test, and loses an `else` branch of which nothing is left.
pub proof fn law_if_is_its_branch(s: Stmt, evaluate: bool, ctx: &TraverseCtx)
    requires
        s is If,
    ensures
        ({
            let test = s->If_test.folded(evaluate, ctx);
            let folded = s.folded(evaluate, ctx);
            let alternate = match s->alternate {
                Some(a) => Some(a.folded_if(evaluate, ctx)),
                None => None,
            };
            match test.boolean(ctx) {
                Tri::True => folded == *s->consequent,
                Tri::False => match alternate {
                    Some(a) => if a is Empty {
                        folded is Empty || folded is Variables
                    } else {
                        folded == a
                    },
                    None => folded is Empty || folded is Variables,
                },
                Tri::Unknown => {
                    &&& folded matches Stmt::If { span, test: t, consequent, alternate: rest }
                    &&& span == s->If_span
                    &&& t == test
                    &&& consequent == s->consequent
                    &&& match alternate {
                        Some(a) => if a is Empty {
                            rest is None
                        } else {
                            rest == Some(Box::new(a))
                        },
                        None => rest is None,
                    }
                },
            }
        }),
{
}

/// A number that holds a NaN or an infinity under no name of its own: the NaN is taken for a zero, a
/// little to the side of its sign, and of the infinity nothing is known.
pub proof fn law_integer_against_unnamed_number(integer: int, n: Number, will_negative: bool)
    requires
        !n.finite(),
    ensures
        ({
            let value = NumberValue::Number(n);
            let below = comparison::integer_less_than_number(
                integer,
                value,
                Tri::False,
                will_negative,
            );
            let above = comparison::integer_less_than_number(
                integer,
                value,
                Tri::True,
                will_negative,
            );
            &&& n.infinite() ==> below is Unknown && above is Unknown
            &&& n.nan() ==> !(below is Unknown) && above == below.negation()
            &&& n.nan() && integer < 0 ==> below is True
            &&& n.nan() && integer > 0 ==> below is False
            &&& n.nan() && integer == 0 ==> (below is True <==> !n.negative())
        }),
{
}

/// What is no `if` statement is left alone as a branch.
pub proof fn law_other_branches_are_left_alone(s: Stmt, evaluate: bool, ctx: &TraverseCtx)
    requires
        !(s is If),
    ensures
        s.folded_if(evaluate, ctx) == s,
{
}

/// An integer is below a number just where it is less, and the number below the integer where that
/// is less. It is below the positive infinity and above the negative one. A NaN gives the answer
/// that is asked for, and a number of `2^53` or more in magnitude none.
pub proof fn law_integer_against_number(
    integer: int,
    n: Number,
    will_negative: bool,
)
    requires
        n.finite(),
    ensures
        ({
            let value = NumberValue::Number(n);
            let below = comparison::integer_less_than_number(
                integer,
                value,
                Tri::False,
                will_negative,
            );
            let above = comparison::integer_less_than_number(
                integer,
                value,
                Tri::True,
                will_negative,
            );
            let large = number::distance(n.units(), 0) >= pow2(53) * number::one();
            &&& below is Unknown <==> large
            &&& above is Unknown <==> large
            &&& below is True <==> !large && integer * number::one() < n.units()
            &&& above is True <==> !large && n.units() < integer * number::one()
        }),
        forall|invert: Tri|
            comparison::integer_less_than_number(
                integer,
                NumberValue::NaN,
                invert,
                will_negative,
            ) == if will_negative {
                Tri::True
            } else {
                Tri::False
            },
        comparison::integer_less_than_number(
            integer,
            NumberValue::PositiveInfinity,
            Tri::False,
            will_negative,
        ) is True,
        comparison::integer_less_than_number(
            integer,
            NumberValue::PositiveInfinity,
            Tri::True,
            will_negative,
        ) is False,
        comparison::integer_less_than_number(
            integer,
            NumberValue::NegativeInfinity,
            Tri::False,
            will_negative,
        ) is False,
        comparison::integer_less_than_number(
            integer,
            NumberValue::NegativeInfinity,
            Tri::True,
            will_negative,
        ) is True,
{
}

/// Folding an AND or OR keeps its truth value, known or not.
pub proof fn law_and_or_keeps_the_truth_value(e: Logical, ctx: &TraverseCtx)
    requires
        !(e.operator is Coalesce),
        e.folded(ctx) is Some,
    ensures
        e.folded(ctx)->0.boolean(ctx) == Expr::Logical(e).boolean(ctx),
{
    if e.left.boolean(ctx) is Unknown {
        let left = (*e.left)->Logical_0;
        assert(*e.left == Expr::Logical(left));
        assert(Expr::Logical(left).boolean(ctx) is Unknown);
    }
}

impl Stmt {
    /// Whether no branch that folding drops, while another one stays, declares a variable.
    pub open spec fn drops_no_variables(self, evaluate: bool, ctx: &TraverseCtx) -> bool
        decreases self,
    {
        match self {
            Stmt::If { test, consequent, alternate, .. } => match alternate {
                Some(a) => a.drops_no_variables(evaluate, ctx) && match test.folded(
                    evaluate,
                    ctx,
                ).boolean(ctx) {
                    Tri::True => forall|name: Binding| !#[trigger] a.declares(name),
                    Tri::False => a.folded_if(evaluate, ctx) is Empty || forall|name: Binding|
                        !#[trigger] consequent.declares(name),
                    Tri::Unknown => true,
                },
                None => true,
            },
            _ => true,
        }
    }
}

/// Folding an `if` statement keeps the variables that it declares in the enclosing function,
/// unless one branch stays and the other, which declares some, is dropped.
pub proof fn law_if_keeps_its_variables(s: Stmt, evaluate: bool, ctx: &TraverseCtx)
    requires
        s.drops_no_variables(evaluate, ctx),
    ensures
        s.folded_if(evaluate, ctx).hoisted() == s.hoisted(),
        forall|name: Binding| #[trigger]
            s.folded_if(evaluate, ctx).declares(name) == s.declares(name),
    decreases s,
{
    match s {
        Stmt::If { test, consequent, alternate, .. } => {
            match alternate {
                Some(a) => {
                    law_if_keeps_its_variables(*a, evaluate, ctx);
                    match test.folded(evaluate, ctx).boolean(ctx) {
                        Tri::True => lemma_no_names(*a),
                        Tri::False => {
                            if !(a.folded_if(evaluate, ctx) is Empty) {
                                lemma_no_names(*consequent);
                            }
                        },
                        Tri::Unknown => {},
                    }
                },
                None => {},
            }
            assert(s.folded_if(evaluate, ctx).hoisted() =~= s.hoisted());
        },
        _ => {},
    }
    assert forall|name: Binding| #[trigger]
        s.folded_if(evaluate, ctx).declares(name) == s.declares(name) by {
        keep_var::law_hoisted_names_are_those_declared(s, name);
        keep_var::law_hoisted_names_are_those_declared(s.folded_if(evaluate, ctx), name);
    }
}

/// A statement that declares nothing binds no name.
proof fn lemma_no_names(s: Stmt)
    requires
        forall|name: Binding| !#[trigger] s.declares(name),
    ensures
        s.hoisted().len() == 0,
{
    if s.hoisted().len() > 0 {
        let name = s.hoisted()[0];
        assert(s.hoisted().contains(name));
        keep_var::law_hoisted_names_are_those_declared(s, name);
    }
}

/// A branch that is dropped, with nothing in its place, leaves a declaration of just the names for
/// which a `var` declaration stands in it, at any depth.
pub proof fn law_dropped_branch_keeps_its_variables(
    s: Stmt,
    name: Binding,
    evaluate: bool,
    ctx: &TraverseCtx,
)
    requires
        s matches Stmt::If { test, alternate, .. } && test.folded(evaluate, ctx).boolean(ctx)
            is False && (alternate matches Some(a) ==> a.folded_if(evaluate, ctx) is Empty),
    ensures
        s.folded_if(evaluate, ctx).declares(name) == s->consequent.declares(name),
{
    keep_var::law_kept_variables_are_those_declared(*s->consequent, name);
}

/// Whether `bits` is the 32-bit integer that a shift takes the integer `n` for: the one that is
/// congruent to it modulo `2^32`. A negative integer whose magnitude exceeds a multiple of `2^32`
/// by more than `2^31` is taken for the least one.
pub open spec fn taken_for(n: int, bits: int) -> bool {
    if n < 0 && (-n) % 0x1_0000_0000 > 0x8000_0000 {
        bits == -0x8000_0000
    } else {
        -0x8000_0000 <= bits < 0x8000_0000 && (n - bits) % 0x1_0000_0000 == 0
    }
}

/// Whether `r` is what a shift by `count` makes of a 32-bit integer. To the left it is the 32-bit
/// integer congruent to the product with `2^count`. To the right it is the integer whose product
/// with `2^count` comes next below, and `>>>` takes the 32 bits for those of an unsigned integer.
pub open spec fn shift_gives(operator: BinaryOperator, bits: int, count: nat, r: int) -> bool {
    let power = pow2(count) as int;
    match operator {
        BinaryOperator::ShiftLeft => -0x8000_0000 <= r < 0x8000_0000 && (bits * power - r)
            % 0x1_0000_0000 == 0,
        BinaryOperator::ShiftRight => r * power <= bits < (r + 1) * power,
        _ => {
            let unsigned = if bits < 0 {
                bits + 0x1_0000_0000
            } else {
                bits
            };
            r * power <= unsigned < (r + 1) * power
        },
    }
}

/// An integer is what a number is where the product with the unit is the number.
proof fn lemma_integer_of_number(n: int, a: Number)
    requires
        a.finite(),
        a.units() == n * number::one(),
    ensures
        a.integral(),
        a.integer_part() == n,
{
    number::lemma_integer_part_order(n, a);
}

/// The 32-bit integer that a shift takes an integer for is the one that it reads.
proof fn lemma_taken_for(n: int, bits: int, a: Number)
    requires
        a.integer_part() == n,
        taken_for(n, bits),
    ensures
        a.int32() == bits,
{
    if n < 0 && (-n) % 0x1_0000_0000 > 0x8000_0000 {
    } else {
        soundness::law_int32_keeps_the_lowest_bits(a);
        let quotient = (n - bits) / 0x1_0000_0000;
        lemma_fundamental_div_mod(n - bits, 0x1_0000_0000);
        lemma_mod_multiples_vanish(quotient, bits + 0x8000_0000, 0x1_0000_0000);
        assert(n + 0x8000_0000 == 0x1_0000_0000 * quotient + (bits + 0x8000_0000));
    }
}

/// What the shift of a 32-bit integer is.
proof fn lemma_shift_gives(operator: BinaryOperator, bits: int, count: nat)
    requires
        operator.shift(),
        -0x8000_0000 <= bits < 0x8000_0000,
        count < 32,
    ensures
        shift_gives(operator, bits, count, arithmetic::shifted(operator, bits, count)),
{
    let power = pow2(count) as int;
    let r = arithmetic::shifted(operator, bits, count);
    lemma_pow2_pos(count);
    match operator {
        BinaryOperator::ShiftLeft => {
            let shifted = bits * power + 0x8000_0000;
            lemma_fundamental_div_mod(shifted, 0x1_0000_0000);
            lemma_mod_multiples_basic(shifted / 0x1_0000_0000, 0x1_0000_0000);
        },
        BinaryOperator::ShiftRight => {
            lemma_fundamental_div_mod(bits, power);
            lemma_mod_bound(bits, power);
            lemma_mul_is_commutative(power, r);
            lemma_mul_is_distributive_add_other_way(power, r, 1);
        },
        _ => {
            let unsigned = bits % 0x1_0000_0000;
            lemma_fundamental_div_mod(unsigned, power);
            lemma_mod_bound(unsigned, power);
            lemma_mul_is_commutative(power, r);
            lemma_mul_is_distributive_add_other_way(power, r, 1);
        },
    }
}

/// A shift of a known integer by a known count below 32 is folded to the literal of the integer
/// that the shift gives.
pub proof fn law_shift_gives_its_integer(
    e: Binary,
    n: int,
    bits: int,
    count: nat,
    a: Number,
    b: Number,
    evaluate: bool,
    ctx: &TraverseCtx,
)
    requires
        e.operator is ShiftLeft || e.operator is ShiftRight || e.operator is ShiftRightZeroFill,
        e.left.side_free_number(ctx) == Some(NumberValue::Number(a)),
        e.right.side_free_number(ctx) == Some(NumberValue::Number(b)),
        a.finite(),
        a.units() == n * number::one(),
        b.finite(),
        b.units() == count * number::one(),
        count < 32,
        taken_for(n, bits),
    ensures
        ({
            &&& Expr::Binary(e).folded(evaluate, ctx) matches Expr::Numeric {
                span,
                value,
                raw,
                base,
            }
            &&& span == e.span
            &&& base is Decimal
            &&& value.finite()
            &&& exists|r: int| #[trigger]
                shift_gives(e.operator, bits, count, r) && value.units() == r * number::one() && raw
                    == text::decimal_text(r)
        }),
{
    lemma_integer_of_number(n, a);
    lemma_integer_of_number(count as int, b);
    lemma_taken_for(n, bits, a);
    lemma_shift_gives(e.operator, bits, count);
    let r = arithmetic::shifted(e.operator, bits, count);
    arithmetic::law_shift_stays_in_range(e.operator, bits, count);
    number::law_small_integers_are_exact(r);
    assert(shift_gives(e.operator, bits, count, r));
}

/// Two shifts of one integer by one count give the same, so that the integer is fixed.
pub proof fn law_shift_gives_one_integer(
    operator: BinaryOperator,
    bits: int,
    count: nat,
    r: int,
    other: int,
)
    requires
        shift_gives(operator, bits, count, r),
        shift_gives(operator, bits, count, other),
    ensures
        r == other,
{
    let power = pow2(count) as int;
    lemma_pow2_pos(count);
    if operator is ShiftLeft {
        let product = bits * power;
        lemma_fundamental_div_mod(product - r, 0x1_0000_0000);
        lemma_fundamental_div_mod(product - other, 0x1_0000_0000);
    } else if r < other {
        lemma_mul_inequality(r + 1, other, power);
    } else if other < r {
        lemma_mul_inequality(other + 1, r, power);
    }
}

/// A shift is left alone where an operand is not a known whole number, or the count is negative or
/// 32 or more.
pub proof fn law_other_shifts_are_left_alone(e: Binary, evaluate: bool, ctx: &TraverseCtx)
    requires
        e.operator is ShiftLeft || e.operator is ShiftRight || e.operator is ShiftRightZeroFill,
        Expr::Binary(e).folded(evaluate, ctx) != Expr::Binary(e),
    ensures
        e.left.side_free_number(ctx) matches Some(NumberValue::Number(a)) && a.finite() && exists|
            n: int,
        | a.units() == #[trigger] (n * number::one()),
        e.right.side_free_number(ctx) matches Some(NumberValue::Number(b)) && b.finite() && exists|
            n: int,
        | b.units() == #[trigger] (n * number::one()) && 0 <= n < 32,
{
    let a = e.left.side_free_number(ctx)->0->Number_0;
    let b = e.right.side_free_number(ctx)->0->Number_0;
    number::lemma_integer_part_order(a.integer_part(), a);
    number::lemma_integer_part_order(b.integer_part(), b);
    assert(a.units() == a.integer_part() * number::one());
    assert(b.units() == b.integer_part() * number::one());
}

/// The sum of two numbers does not depend on their order.
pub proof fn law_sum_is_commutative(a: Number, b: Number)
    ensures
        a.sum(b) == b.sum(a),
{
}

/// An addition of numbers or booleans does not depend on the order of its operands.
pub proof fn law_number_addition_is_commutative(
    span: Span,
    left: Expr,
    right: Expr,
    ctx: &TraverseCtx,
)
    requires
        !(left.ty() is Str),
        !(right.ty() is Str),
    ensures
        arithmetic::folded_addition(span, left, right, ctx) == arithmetic::folded_addition(
            span,
            right,
            left,
            ctx,
        ),
{
    if left.number(ctx) is Some && right.number(ctx) is Some {
        match (left.number(ctx)->0, right.number(ctx)->0) {
            (NumberValue::Number(a), NumberValue::Number(b)) => law_sum_is_commutative(a, b),
            _ => {},
        }
    }
}

} // verus!
