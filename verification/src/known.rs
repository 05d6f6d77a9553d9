//! What the form of an expression is enough to know.
//!
//! The laws on values say that what is known is right. These say what is known: the values of
//! literals and global names, what operators make of them, and the comparisons of such operands.
use vstd::arithmetic::mul::*;
use vstd::arithmetic::power2::*;
use vstd::prelude::*;

use crate::ast::{NodeRef, Span};
use crate::bigint;
use crate::comparison;
use crate::context::TraverseCtx;
use crate::model::{Element, Expr, Property};
use crate::number;
use crate::number_value::NumberValue;
use crate::operator::{BinaryOperator, LogicalOperator, UnaryOperator};
use crate::parts;
use crate::tri::Tri;

verus! {

/// Whether the expression reads a global name.
pub open spec fn global_name(e: Expr, name: Seq<char>) -> bool {
    e matches Expr::Identifier(i) && i.global && i.name == name
}

/// The text of a template in which nothing is inserted.
pub open spec fn plain_template(e: Expr) -> Option<Seq<char>> {
    match e {
        Expr::Template { cooked, expressions, .. } => if expressions.len() == 0 {
            cooked
        } else {
            None
        },
        _ => None,
    }
}

proof fn lemma_names()
    ensures
        "undefined"@ != "NaN"@,
        "undefined"@ != "Infinity"@,
        "NaN"@ != "Infinity"@,
{
    reveal_strlit("undefined");
    reveal_strlit("NaN");
    reveal_strlit("Infinity");
    assert("undefined"@.len() == 9 && "NaN"@.len() == 3 && "Infinity"@.len() == 8);
}

/// The truth values that are known: those of literals, functions, classes and new objects, of the
/// global names, and of operators on operands of which enough is known.
pub proof fn law_truth_is_known(e: Expr, ctx: &TraverseCtx)
    ensures
        e is RegExp || e is Array || e is ArrowFunction || e is Class || e is Function || e is New
            || e is Object || e is Null || e is Boolean || e is Numeric || e is Str ==> !(e.boolean(
            ctx,
        ) is Unknown),
        e matches Expr::BigInt { raw, .. } && bigint::literal_value(raw) is Some ==> !(e.boolean(
            ctx,
        ) is Unknown),
        plain_template(e) is Some ==> !(e.boolean(ctx) is Unknown),
        global_name(e, "undefined"@) || global_name(e, "NaN"@) || global_name(e, "Infinity"@)
            ==> !(e.boolean(ctx) is Unknown),
        match e {
            Expr::Assignment { operator, right, .. } => operator is Assign ==> e.boolean(ctx)
                == right.boolean(ctx),
            Expr::Sequence { expressions, .. } => expressions.len() > 0 ==> e.boolean(ctx)
                == expressions.last().boolean(ctx),
            Expr::Logical(l) => match l.operator {
                LogicalOperator::And => {
                    &&& e.boolean(ctx) is False <==> l.left.boolean(ctx) is False
                        || l.right.boolean(ctx) is False
                    &&& e.boolean(ctx) is True <==> l.left.boolean(ctx) is True && l.right.boolean(
                        ctx,
                    ) is True
                },
                LogicalOperator::Or => {
                    &&& e.boolean(ctx) is True <==> l.left.boolean(ctx) is True || l.right.boolean(
                        ctx,
                    ) is True
                    &&& e.boolean(ctx) is False <==> l.left.boolean(ctx) is False
                        && l.right.boolean(ctx) is False
                },
                LogicalOperator::Coalesce => e.boolean(ctx) is Unknown,
            },
            Expr::Unary(u) => match u.operator {
                UnaryOperator::Void => !(e.boolean(ctx) is Unknown),
                UnaryOperator::LogicalNot => {
                    &&& e.boolean(ctx) is True <==> u.argument.boolean(ctx) is False
                    &&& e.boolean(ctx) is False <==> u.argument.boolean(ctx) is True
                },
                UnaryOperator::UnaryPlus
                | UnaryOperator::UnaryNegation
                | UnaryOperator::BitwiseNot => u.argument.number(ctx) is Some <==> !(e.boolean(ctx)
                    is Unknown),
                _ => e.boolean(ctx) is Unknown,
            },
            Expr::Identifier(_) => e.boolean(ctx) is Unknown <==> !(global_name(e, "undefined"@)
                || global_name(e, "NaN"@) || global_name(e, "Infinity"@)),
            _ => true,
        },
{
    lemma_names();
    law_number_is_known(e, ctx);
}

/// The numbers that are known: those of literals that are converted to one, of the global names, of
/// listed strings, and of operators on operands of which enough is known.
pub proof fn law_number_is_known(e: Expr, ctx: &TraverseCtx)
    ensures
        e is Numeric || e is Boolean || e is Null ==> e.number(ctx) is Some,
        global_name(e, "undefined"@) || global_name(e, "NaN"@) || global_name(e, "Infinity"@)
            ==> e.number(ctx) is Some,
        match e {
            Expr::Str { value, .. } => e.number(ctx) is Some <==> ctx.number_of(value) is Some,
            Expr::Template { .. } => e.number(ctx) is Some <==> plain_template(e) is Some
                && ctx.number_of(plain_template(e)->0) is Some,
            Expr::Unary(u) => match u.operator {
                UnaryOperator::UnaryPlus
                | UnaryOperator::UnaryNegation
                | UnaryOperator::BitwiseNot => e.number(ctx) is Some <==> u.argument.number(ctx)
                    is Some,
                UnaryOperator::LogicalNot => e.number(ctx) is Some <==> !(u.argument.boolean(ctx)
                    is Unknown),
                UnaryOperator::Void => e.number(ctx) is Some,
                _ => e.number(ctx) is None,
            },
            _ => true,
        },
{
    lemma_names();
}

/// The integers that are known: those of BigInt literals, of whole numbers, of booleans and of
/// strings that denote one, and those that `-`, `~` and `!` make of them.
pub proof fn law_integer_is_known(e: Expr, ctx: &TraverseCtx)
    ensures
        match e {
            Expr::BigInt { raw, .. } => e.bigint(ctx) == bigint::literal_value(raw),
            Expr::Boolean { .. } => e.bigint(ctx) is Some,
            Expr::Str { value, .. } => e.bigint(ctx) == bigint::string_value(value),
            Expr::Template { .. } => e.bigint(ctx) == match plain_template(e) {
                Some(s) => bigint::string_value(s),
                None => None,
            },
            Expr::Unary(u) => match u.operator {
                UnaryOperator::LogicalNot => e.bigint(ctx) is Some <==> !(u.argument.boolean(ctx)
                    is Unknown),
                UnaryOperator::UnaryNegation | UnaryOperator::BitwiseNot => u.argument.ty()
                    is BigInt ==> (e.bigint(ctx) is Some <==> u.argument.bigint(ctx) is Some),
                _ => true,
            },
            _ => true,
        },
{
}

/// A number of which the value is known is known as an integer where it is a whole number below
/// `2^53` in magnitude.
pub proof fn law_whole_numbers_are_known(e: Expr, i: int, ctx: &TraverseCtx)
    requires
        e is Numeric || (e matches Expr::Unary(u) && (u.operator is UnaryPlus || u.operator
            is UnaryNegation) && !(u.argument.ty() is BigInt)),
        e.number(ctx) matches Some(NumberValue::Number(n)) && n.finite() && n.units() == i
            * number::one(),
        -0x20_0000_0000_0000 < i < 0x20_0000_0000_0000,
    ensures
        e.bigint(ctx) == Some(i),
{
    let n = e.number(ctx)->0->Number_0;
    number::lemma_integer_part_order(i, n);
    lemma_pow2_pos(1074);
    lemma2_to64_rest();
    lemma_mul_strict_inequality(i, pow2(53) as int, number::one() as int);
    lemma_mul_strict_inequality(-i, pow2(53) as int, number::one() as int);
    lemma_mul_unary_negation(i, number::one() as int);
}

/// A value is asked for only where nothing acts in the expression.
pub proof fn law_values_are_free_of_effects(e: Expr, ctx: &TraverseCtx)
    ensures
        e.side_free_number(ctx) == if e.active() {
            None
        } else {
            e.number(ctx)
        },
        e.side_free_bigint(ctx) == if e.active() {
            None
        } else {
            e.bigint(ctx)
        },
        e.side_free_string(ctx) == if e.active() {
            None
        } else {
            e.string(ctx)
        },
{
    parts::law_side_effects_are_acts_of_parts(e);
}

/// The strings that are known: those of literals, of the global names, of a literal object without
/// properties, and of `void` and `!`.
pub proof fn law_string_is_known(e: Expr, ctx: &TraverseCtx)
    ensures
        e is Str || e is Null || e is Boolean ==> e.string(ctx) is Some,
        global_name(e, "undefined"@) || global_name(e, "NaN"@) || global_name(e, "Infinity"@)
            ==> e.string(ctx) is Some,
        match e {
            Expr::Template { .. } => e.string(ctx) == plain_template(e),
            Expr::BigInt { raw, .. } => e.string(ctx) is Some <==> bigint::literal_value(raw) is Some,
            Expr::Numeric { value, .. } => e.string(ctx) is Some <==> value.nan() || ctx.text_of(
                value,
            ) is Some,
            Expr::Object { properties, .. } => e.string(ctx) is Some <==> properties.len() == 0,
            Expr::Array { .. } | Expr::RegExp(_) | Expr::Function(_) => e.string(ctx) is None,
            Expr::Unary(u) => match u.operator {
                UnaryOperator::Void => e.string(ctx) is Some,
                UnaryOperator::LogicalNot => e.string(ctx) is Some <==> !(u.argument.boolean(ctx)
                    is Unknown),
                _ => e.string(ctx) is None,
            },
            _ => true,
        },
{
}

/// The types that are told by the form: those of literals and of the global names, of `void`, `+`,
/// `!` and `typeof`, of `-` before an operand whose type is told and no object, and of an addition
/// with a string. No other form tells one.
pub proof fn law_types_are_told_by_the_form(e: Expr)
    ensures
        match e {
            Expr::BigInt { .. } => e.ty() is BigInt,
            Expr::Boolean { .. } => e.ty() is Boolean,
            Expr::Null { .. } => e.ty() is Null,
            Expr::Numeric { .. } => e.ty() is Number,
            Expr::Str { .. } | Expr::Template { .. } => e.ty() is Str,
            Expr::Object { .. } | Expr::Array { .. } | Expr::RegExp(_) | Expr::Function(_) => e.ty()
                is Object,
            Expr::Identifier(_) => {
                &&& e.ty() is Void <==> global_name(e, "undefined"@)
                &&& e.ty() is Number <==> global_name(e, "NaN"@) || global_name(e, "Infinity"@)
                &&& e.ty() is Void || e.ty() is Number || e.ty() is Undetermined
            },
            Expr::Unary(u) => match u.operator {
                UnaryOperator::Void => e.ty() is Void,
                UnaryOperator::UnaryPlus => e.ty() is Number,
                UnaryOperator::LogicalNot => e.ty() is Boolean,
                UnaryOperator::Typeof => e.ty() is Str,
                UnaryOperator::UnaryNegation => {
                    &&& e.ty() is Undetermined <==> u.argument.ty() is Undetermined
                        || u.argument.ty() is Object
                    &&& e.ty() is BigInt <==> u.argument.ty() is BigInt
                    &&& e.ty() is Number || e.ty() is BigInt || e.ty() is Undetermined
                },
                UnaryOperator::BitwiseNot | UnaryOperator::Delete => e.ty() is Undetermined,
            },
            Expr::Binary(b) => {
                &&& e.ty() is Str <==> b.operator is Addition && (b.left.ty() is Str || b.right.ty()
                    is Str)
                &&& e.ty() is Str || e.ty() is Undetermined
            },
            _ => e.ty() is Undetermined,
        },
{
    lemma_names();
}

/// The strict equalities that are known: those of operands whose types are told and differ, of two
/// known numbers, of two known strings without a vertical tab, of `null` and of `undefined`. They
/// are not known of two booleans, two BigInts or two objects.
pub proof fn law_strict_equality_is_known(left: Expr, right: Expr, ctx: &TraverseCtx)
    ensures
        ({
            let (l, r) = (left.ty(), right.ty());
            let answer = comparison::strict_equality(left, right, ctx);
            &&& !(l is Undetermined) && !(r is Undetermined) && l != r ==> answer is False
            &&& l is Null && r is Null || l is Void && r is Void ==> answer is True
            &&& l is Number && r is Number ==> (answer is Unknown <==> left.side_free_number(ctx)
                is None || right.side_free_number(ctx) is None)
            &&& l is Str && r is Str && left.side_free_string(ctx) is Some
                && right.side_free_string(ctx) is Some ==> (answer is Unknown
                <==> left.side_free_string(ctx)->0.contains('\u{b}') || right.side_free_string(
                ctx,
            )->0.contains('\u{b}'))
            &&& l == r && (l is Boolean || l is BigInt || l is Object) ==> answer is Unknown
        }),
{
}

/// The loose equalities that are known: those of `null` and `undefined` among themselves and with
/// any other operand whose type is told, unless that is a boolean; of a BigInt with a known number;
/// and of a known boolean, or a known string and a number, what the number in its place gives.
pub proof fn law_loose_equality_is_known(left: Expr, right: Expr, ctx: &TraverseCtx)
    ensures
        ({
            let (l, r) = (left.ty(), right.ty());
            let answer = comparison::abstract_equality(left, right, ctx);
            let empty = l is Null || l is Void;
            let other = r is Number || r is Str || r is Object || r is BigInt;
            &&& empty && (r is Null || r is Void) ==> answer is True
            &&& empty && other ==> answer is False
            &&& l is Object && (r is Number || r is Str || r is BigInt || r is Object)
                ==> answer is Unknown
            &&& l is BigInt && r is Number && left.side_free_bigint(ctx) is Some
                && right.side_free_number(ctx) is Some ==> !(answer is Unknown)
            &&& l is BigInt && r is Str && left.side_free_bigint(ctx) is Some
                && right.side_free_string(ctx) is Some && !right.side_free_string(ctx)->0.contains(
                '\u{b}',
            ) && (right is Str || right is Template) ==> !(answer is Unknown)
            &&& l is Number && (r is Str || r is Boolean) && left.side_free_number(ctx) is Some && (
            right.side_free_number(ctx) matches Some(NumberValue::Number(n)) && !n.nan())
                ==> !(answer is Unknown)
            &&& (l is Null || l is Void) && r is Boolean && (right.side_free_number(
                ctx,
            ) matches Some(NumberValue::Number(_))) ==> answer is False
            &&& (l is Number && r is Str || r is Boolean) && l != r && !(l is Undetermined)
                && !(right.side_free_number(ctx) matches Some(NumberValue::Number(_)))
                ==> answer is Unknown
        }),
{
    reveal_with_fuel(comparison::abstract_equality, 2);
    if right.side_free_bigint(ctx) is Some {
        assert(comparison::bigint_equality(left, right, ctx) is Unknown ==> left.side_free_bigint(
            ctx,
        ) is None);
    }
}

/// The orders that are known: those of two known strings without a vertical tab, of two known
/// integers, of two known finite numbers, and of a known NaN.
pub proof fn law_order_is_known(
    left: Expr,
    right: Expr,
    will_negative: bool,
    ctx: &TraverseCtx,
)
    ensures
        ({
            let answer = comparison::relational(left, right, will_negative, ctx);
            let strings = left.ty() is Str && right.ty() is Str;
            let (a, b) = (left.side_free_number(ctx), right.side_free_number(ctx));
            let (m, n) = (left.side_free_bigint(ctx), right.side_free_bigint(ctx));
            &&& strings && left.side_free_string(ctx) is Some && right.side_free_string(ctx) is Some
                ==> (answer is Unknown <==> left.side_free_string(ctx)->0.contains('\u{b}')
                || right.side_free_string(ctx)->0.contains('\u{b}'))
            &&& !strings && m is Some && n is Some ==> !(answer is Unknown)
            &&& left is BigInt && m is Some && right is Str && n is None && right.side_free_string(
                ctx,
            ) is Some && !right.side_free_string(ctx)->0.contains('\u{b}') ==> answer
                == Tri::of(will_negative)
            &&& !strings && !(m is Some && n is Some) && a is Some && b is Some ==> (answer
                is Unknown <==> !(a->0 is NaN || b->0 is NaN || (a->0 is Number && b->0 is Number)))
        }),
{
}

/// A comparison asks nothing but the operands in which nothing acts, and each operator asks for one
/// equality or one order.
pub proof fn law_comparisons_ask_for_one_answer(
    operator: BinaryOperator,
    left: Expr,
    right: Expr,
    ctx: &TraverseCtx,
)
    ensures
        left.active() || right.active() ==> comparison::comparison(operator, left, right, ctx)
            is Unknown,
        !left.active() && !right.active() ==> {
            let answer = comparison::comparison(operator, left, right, ctx);
            match operator {
                BinaryOperator::Equality | BinaryOperator::Inequality => answer is Unknown
                    <==> comparison::abstract_equality(left, right, ctx) is Unknown,
                BinaryOperator::StrictEquality | BinaryOperator::StrictInequality => answer
                    is Unknown <==> comparison::strict_equality(left, right, ctx) is Unknown,
                BinaryOperator::LessThan | BinaryOperator::GreaterEqualThan => answer is Unknown
                    <==> comparison::relational(left, right, false, ctx) is Unknown,
                BinaryOperator::GreaterThan | BinaryOperator::LessEqualThan => answer is Unknown
                    <==> comparison::relational(right, left, false, ctx) is Unknown,
                _ => answer is Unknown,
            }
        },
{
    parts::law_side_effects_are_acts_of_parts(left);
    parts::law_side_effects_are_acts_of_parts(right);
}

/// A name is looked for under any parentheses and type annotations, and told by its letters.
pub proof fn law_names_are_found_under_parentheses(
    e: Expr,
    name: Seq<char>,
    span: Span,
    node: NodeRef,
)
    ensures
        (Expr::Parenthesized { span, expression: Box::new(e) }).specific_id(name) == e.specific_id(
            name,
        ),
        (Expr::TypeScript { node, expression: Box::new(e) }).specific_id(name) == e.specific_id(
            name,
        ),
        match e {
            Expr::Identifier(i) => e.specific_id(name) == (i.name == name),
            Expr::Parenthesized { .. } | Expr::TypeScript { .. } => true,
            _ => !e.specific_id(name),
        },
{
}

/// The literals are those of primitive types and of regular expressions, templates in which nothing
/// is inserted, the global names, unary operators before such ones, arrays and objects of literals,
/// and functions where they are asked for.
pub proof fn law_literals_are_told_by_the_form(e: Expr, include_functions: bool)
    ensures
        match e {
            Expr::Boolean { .. }
            | Expr::Null { .. }
            | Expr::Numeric { .. }
            | Expr::BigInt { .. }
            | Expr::RegExp(_)
            | Expr::Str { .. } => e.literal(include_functions) && e.immutable(),
            Expr::Template { expressions, .. } => {
                &&& e.literal(include_functions) <==> expressions.len() == 0
                &&& e.immutable() <==> expressions.len() == 0
            },
            Expr::Identifier(i) => {
                let named = i.name == "undefined"@ || i.name == "NaN"@ || i.name == "Infinity"@;
                &&& e.literal(include_functions) <==> named
                &&& e.immutable() <==> named
            },
            Expr::Unary(u) => {
                &&& e.literal(include_functions) <==> u.argument.immutable()
                &&& e.immutable() <==> u.argument.immutable()
            },
            Expr::Function(_) | Expr::ArrowFunction(_) => e.literal(include_functions)
                <==> include_functions,
            Expr::Array { elements, .. } => e.literal(include_functions) <==> forall|i: int|
                0 <= i < elements.len() ==> !((#[trigger] elements[i]) is Spread) && (
                elements[i] matches Element::Value(x) ==> x.literal(include_functions)),
            Expr::Object { properties, .. } => e.literal(include_functions) <==> forall|i: int|
                0 <= i < properties.len() ==> ((#[trigger] properties[i]) matches Property::Value {
                    key,
                    value,
                    ..
                } && value.literal(include_functions) && (key matches Some(k) ==> k.literal(
                    include_functions,
                ))),
            _ => !e.literal(include_functions) && !e.immutable(),
        },
{
    match e {
        Expr::Array { elements, .. } => {
            if e.literal(include_functions) {
                assert forall|i: int| 0 <= i < elements.len() implies !((#[trigger] elements[i])
                    is Spread) && (elements[i] matches Element::Value(x) ==> x.literal(
                    include_functions,
                )) by {}
            }
        },
        _ => {},
    }
}

/// A vertical tab in a string leaves open whether a BigInt equals it, unless it denotes another
/// integer or none, and how they are ordered.
pub proof fn law_vertical_tabs_leave_it_open(
    big: Expr,
    text: Expr,
    will_negative: bool,
    ctx: &TraverseCtx,
)
    requires
        big is BigInt,
        text matches Expr::Str { value, .. } && value.contains('\u{b}'),
    ensures
        !(comparison::abstract_equality(big, text, ctx) is True),
        big.bigint(ctx) is Some && bigint::denoted(text->Str_value) == big.bigint(ctx)
            ==> comparison::abstract_equality(big, text, ctx) is Unknown,
        big.bigint(ctx) is Some && bigint::denoted(text->Str_value) != big.bigint(ctx)
            ==> comparison::abstract_equality(big, text, ctx) is False,
        comparison::relational(big, text, will_negative, ctx) is Unknown,
        comparison::relational(text, big, will_negative, ctx) is Unknown,
{
}

/// The order of a known BigInt and a known number that is no integer below `2^53` in magnitude is
/// that of the integer and the number, on either side.
pub proof fn law_order_of_a_bigint_and_a_number(
    big: Expr,
    operand: Expr,
    will_negative: bool,
    ctx: &TraverseCtx,
)
    requires
        big is BigInt,
        big.bigint(ctx) is Some,
        operand.ty() is Number,
        !operand.active(),
        operand.bigint(ctx) is None,
        operand.number(ctx) is Some,
    ensures
        comparison::relational(big, operand, will_negative, ctx)
            == comparison::integer_less_than_number(
            big.bigint(ctx)->0,
            operand.number(ctx)->0,
            Tri::False,
            will_negative,
        ),
        comparison::relational(operand, big, will_negative, ctx)
            == comparison::integer_less_than_number(
            big.bigint(ctx)->0,
            operand.number(ctx)->0,
            Tri::True,
            will_negative,
        ),
{
    parts::law_side_effects_are_acts_of_parts(operand);
}

/// A known BigInt and a known string without a vertical tab that denotes no integer are ordered as
/// with a NaN, on either side.
pub proof fn law_order_of_a_bigint_and_a_text(
    big: Expr,
    text: Expr,
    will_negative: bool,
    ctx: &TraverseCtx,
)
    requires
        big is BigInt,
        big.bigint(ctx) is Some,
        text matches Expr::Str { value, .. } && !value.contains('\u{b}') && bigint::denoted(value)
            is None,
    ensures
        comparison::relational(big, text, will_negative, ctx) == Tri::of(will_negative),
        comparison::relational(text, big, will_negative, ctx) == Tri::of(will_negative),
{
}

} // verus!
