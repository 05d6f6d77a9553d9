//! Comparisons of operands whose values are known.
use vstd::arithmetic::power2::*;
use vstd::prelude::*;

use crate::ast::{Expression, NumberBase, Span};
use crate::bigint;
use crate::bigint::{BigInt, Comparison};
use crate::context::TraverseCtx;
use crate::fold_constants::FoldConstants;
use crate::model;
use crate::model::Expr;
use crate::number;
use crate::number::Number;
use crate::number_value::NumberValue;
use crate::operator::{BinaryOperator, UnaryOperator};
use crate::text;
use crate::tri::Tri;
use crate::ty::Ty;

verus! {

/// Whether both operands are `typeof` of one variable.
pub open spec fn typeof_same_name(left: Expr, right: Expr) -> bool {
    &&& left matches Expr::Unary(l)
    &&& right matches Expr::Unary(r)
    &&& l.operator is Typeof
    &&& r.operator is Typeof
    &&& *l.argument matches Expr::Identifier(a)
    &&& *r.argument matches Expr::Identifier(b)
    &&& a.name == b.name
}

/// `left === right`.
pub open spec fn strict_equality(left: Expr, right: Expr, ctx: &TraverseCtx) -> Tri {
    let (l, r) = (left.ty(), right.ty());
    if l is Undetermined || r is Undetermined {
        // Nothing is strictly equal to NaN.
        if left.named_nan() || right.named_nan() {
            Tri::False
        } else {
            Tri::Unknown
        }
    } else if l != r {
        Tri::False
    } else {
        match l {
            Ty::Number => match (left.side_free_number(ctx), right.side_free_number(ctx)) {
                (Some(a), Some(b)) => Tri::of(a.same(b)),
                _ => Tri::Unknown,
            },
            Ty::Str => match (left.side_free_string(ctx), right.side_free_string(ctx)) {
                // A vertical tab is read differently by different engines.
                (Some(a), Some(b)) => if a.contains('\u{b}') || b.contains('\u{b}') {
                    Tri::Unknown
                } else {
                    Tri::of(a == b)
                },
                _ => if typeof_same_name(left, right) {
                    Tri::True
                } else {
                    Tri::Unknown
                },
            },
            Ty::Void | Ty::Null => Tri::True,
            _ => Tri::Unknown,
        }
    }
}

/// How many of a pair of operands a loose equality may convert to numbers: strings and booleans.
pub open spec fn convertible(e: Expr) -> nat {
    if e.ty() is Str || e.ty() is Boolean {
        1
    } else {
        0
    }
}

/// The literal that stands for an operand once it is converted to a number.
pub open spec fn converted(operand: Expr, value: Number) -> Expr {
    Expr::Numeric {
        span: operand.span(),
        value,
        raw: Seq::empty(),
        base: if value.integral() {
            NumberBase::Decimal
        } else {
            NumberBase::Float
        },
    }
}

/// Whether a BigInt equals an operand of which no integer is read: a known number by its value, and
/// neither `null` nor `undefined`. A string is left open where it denotes the integer but has a
/// vertical tab, which engines do not agree on.
pub open spec fn integer_equality(integer: int, operand: Expr, ctx: &TraverseCtx) -> Tri {
    match operand.ty() {
        Ty::Number => match operand.side_free_number(ctx) {
            Some(value) => Tri::of(
                value.double().finite() && integer * number::one() == value.double().units(),
            ),
            None => Tri::Unknown,
        },
        // The name of a type denotes no integer.
        Ty::Str => if operand is Unary {
            Tri::False
        } else {
            match operand.side_free_string(ctx) {
                Some(s) => if bigint::denoted(s) == Some(integer) {
                    Tri::Unknown
                } else {
                    Tri::False
                },
                None => Tri::Unknown,
            }
        },
        Ty::Object | Ty::Undetermined => Tri::Unknown,
        _ => Tri::False,
    }
}

/// Whether a BigInt equals an operand of another type: by their integers, where both are read.
pub open spec fn bigint_equality(big: Expr, operand: Expr, ctx: &TraverseCtx) -> Tri {
    match (big.side_free_bigint(ctx), operand.side_free_bigint(ctx)) {
        (Some(a), Some(b)) => Tri::of(a == b),
        (Some(a), None) => integer_equality(a, operand, ctx),
        _ => if operand.ty() is Null || operand.ty() is Void {
            Tri::False
        } else {
            Tri::Unknown
        },
    }
}

/// `left == right`.
pub open spec fn abstract_equality(left: Expr, right: Expr, ctx: &TraverseCtx) -> Tri
    decreases convertible(left) + convertible(right),
{
    let (l, r) = (left.ty(), right.ty());
    if l is Undetermined || r is Undetermined {
        Tri::Unknown
    } else if l == r {
        strict_equality(left, right, ctx)
    } else if (l is Null && r is Void) || (l is Void && r is Null) {
        Tri::True
    } else if (l is Number && r is Str) || r is Boolean {
        match right.side_free_number(ctx) {
            Some(NumberValue::Number(n)) => abstract_equality(left, converted(right, n), ctx),
            _ => Tri::Unknown,
        }
    } else if (l is Str && r is Number) || l is Boolean {
        match left.side_free_number(ctx) {
            Some(NumberValue::Number(n)) => abstract_equality(converted(left, n), right, ctx),
            _ => Tri::Unknown,
        }
    } else if l is BigInt {
        bigint_equality(left, right, ctx)
    } else if r is BigInt {
        bigint_equality(right, left, ctx)
    } else if ((l is Str || l is Number) && r is Object) || (l is Object && (r is Str
        || r is Number)) {
        Tri::Unknown
    } else {
        Tri::False
    }
}

/// Whether an integer is below a number, or, inverted, the number below the integer. A NaN gives
/// `will_negative`, and a number of `2^53` or more in magnitude leaves the answer open.
pub open spec fn integer_less_than_number(
    integer: int,
    value: NumberValue,
    invert: Tri,
    will_negative: bool,
) -> Tri {
    match value {
        NumberValue::NaN => Tri::of(will_negative),
        NumberValue::PositiveInfinity => Tri::True.differs(invert),
        NumberValue::NegativeInfinity => Tri::False.differs(invert),
        NumberValue::Number(n) => if n.nan() {
            // A literal that holds a NaN is taken for a zero, a little to the side of its sign.
            Tri::of(integer < 0 || (integer == 0 && !n.negative())).differs(invert)
        } else if n.infinite() || number::magnitude(n.magnitude_bits()) >= pow2(53)
            * number::one() {
            Tri::Unknown
        } else if integer * number::one() == n.units() {
            Tri::False
        } else {
            Tri::of(integer * number::one() < n.units()).differs(invert)
        },
    }
}

/// The order of two operands by their values as integers and numbers.
pub open spec fn numeric_less(
    left: Expr,
    right: Expr,
    will_negative: bool,
    ctx: &TraverseCtx,
) -> Tri {
    let (left_int, right_int) = (left.side_free_bigint(ctx), right.side_free_bigint(ctx));
    let (left_num, right_num) = (left.side_free_number(ctx), right.side_free_number(ctx));
    if left_int is Some && right_int is Some {
        Tri::of(left_int->0 < right_int->0)
    } else if left_num is Some && right_num is Some {
        match (left_num->0, right_num->0) {
            (NumberValue::NaN, _) | (_, NumberValue::NaN) => Tri::of(will_negative),
            (NumberValue::Number(a), NumberValue::Number(b)) => Tri::of(a.less(b)),
            _ => Tri::Unknown,
        }
    } else if bigint_against_text(left, right, ctx) {
        text_without_integer(right, will_negative, ctx)
    } else if bigint_against_text(right, left, ctx) {
        text_without_integer(left, will_negative, ctx)
    } else if left_int is Some && right_num is Some {
        if left.ty() is Str && (right_num->0 is PositiveInfinity || right_num->0
            is NegativeInfinity) {
            Tri::Unknown
        } else {
            integer_less_than_number(left_int->0, right_num->0, Tri::False, will_negative)
        }
    } else if right_int is Some && left_num is Some {
        if right.ty() is Str && (left_num->0 is PositiveInfinity || left_num->0
            is NegativeInfinity) {
            Tri::Unknown
        } else {
            integer_less_than_number(right_int->0, left_num->0, Tri::True, will_negative)
        }
    } else {
        Tri::Unknown
    }
}

/// Whether one operand is a BigInt, which has an integer and no number, and the other a string of
/// which no integer is read.
pub open spec fn bigint_against_text(big: Expr, text: Expr, ctx: &TraverseCtx) -> bool {
    big.side_free_bigint(ctx) is Some && big.side_free_number(ctx) is None && !(big.ty() is Str)
        && text.ty() is Str && text.side_free_bigint(ctx) is None
}

/// The order of a BigInt and a string of which no integer is read: one that denotes none is like a
/// NaN.
pub open spec fn text_without_integer(text: Expr, will_negative: bool, ctx: &TraverseCtx) -> Tri {
    if text.text_is_read(ctx) {
        Tri::of(will_negative)
    } else {
        Tri::Unknown
    }
}

/// `left < right`. A NaN among the operands gives `will_negative`.
pub open spec fn relational(
    left: Expr,
    right: Expr,
    will_negative: bool,
    ctx: &TraverseCtx,
) -> Tri {
    if left.ty() is Str && right.ty() is Str {
        match (left.side_free_string(ctx), right.side_free_string(ctx)) {
            // A vertical tab is read differently by different engines.
            (Some(a), Some(b)) => if a.contains('\u{b}') || b.contains('\u{b}') {
                Tri::Unknown
            } else {
                Tri::of(text::precedes(a, b))
            },
            _ => if typeof_same_name(left, right) {
                Tri::False
            } else {
                numeric_less(left, right, will_negative, ctx)
            },
        }
    } else {
        numeric_less(left, right, will_negative, ctx)
    }
}

/// The value of a comparison, where it is known and evaluating the operands has no effect.
pub open spec fn comparison(
    operator: BinaryOperator,
    left: Expr,
    right: Expr,
    ctx: &TraverseCtx,
) -> Tri {
    if left.side_effects() || right.side_effects() {
        Tri::Unknown
    } else {
        match operator {
            BinaryOperator::Equality => abstract_equality(left, right, ctx),
            BinaryOperator::Inequality => abstract_equality(left, right, ctx).negation(),
            BinaryOperator::StrictEquality => strict_equality(left, right, ctx),
            BinaryOperator::StrictInequality => strict_equality(left, right, ctx).negation(),
            BinaryOperator::LessThan => relational(left, right, false, ctx),
            BinaryOperator::GreaterThan => relational(right, left, false, ctx),
            BinaryOperator::LessEqualThan => relational(right, left, true, ctx).negation(),
            BinaryOperator::GreaterEqualThan => relational(left, right, true, ctx).negation(),
            _ => Tri::Unknown,
        }
    }
}

impl FoldConstants {
    /// <https://tc39.es/ecma262/#sec-strict-equality-comparison>
    pub fn try_strict_equality_comparison(
        left_expr: &Expression,
        right_expr: &Expression,
        ctx: &TraverseCtx,
    ) -> (r: Tri)
        ensures
            r == strict_equality(left_expr@, right_expr@, ctx),
    {
        let left: Ty = Ty::from(left_expr);
        let right: Ty = Ty::from(right_expr);
        if left != Ty::Undetermined && right != Ty::Undetermined {
            // Strict equality can only be true for values of the same type.
            if left != right {
                return Tri::False;
            }
            return match left {
                Ty::Number => {
                    let left_number = ctx.get_side_free_number_value(left_expr);
                    let right_number = ctx.get_side_free_number_value(right_expr);
                    if let (Some(l_num), Some(r_num)) = (left_number, right_number) {
                        if l_num.is_nan() || r_num.is_nan() {
                            return Tri::False;
                        }
                        return Tri::from(l_num.is_same(r_num));
                    }
                    Tri::Unknown
                },
                Ty::Str => {
                    let left_string = ctx.get_side_free_string_value(left_expr);
                    let right_string = ctx.get_side_free_string_value(right_expr);
                    if let (Some(left_string), Some(right_string)) = (left_string, right_string) {
                        if text::contains(left_string.as_str(), '\u{b}') || text::contains(
                            right_string.as_str(),
                            '\u{b}',
                        ) {
                            return Tri::Unknown;
                        }
                        return Tri::from(left_string == right_string);
                    }
                    if Self::is_typeof_same_name(left_expr, right_expr) {
                        return Tri::True;
                    }
                    Tri::Unknown
                },
                Ty::Void | Ty::Null => Tri::True,
                _ => Tri::Unknown,
            };
        }
        // Any strict equality comparison against NaN is false.
        if left_expr.is_nan() || right_expr.is_nan() {
            return Tri::False;
        }
        Tri::Unknown
    }

    /// Whether both operands are `typeof` of one variable.
    fn is_typeof_same_name(left: &Expression, right: &Expression) -> (r: bool)
        ensures
            r == typeof_same_name(left@, right@),
    {
        proof {
            reveal_with_fuel(Expression::view, 2);
        }
        match (left, right) {
            (Expression::UnaryExpression(l), Expression::UnaryExpression(r)) => {
                if l.operator == UnaryOperator::Typeof && r.operator == UnaryOperator::Typeof {
                    match (&l.argument, &r.argument) {
                        (Expression::Identifier(a), Expression::Identifier(b)) => a.name == b.name,
                        _ => false,
                    }
                } else {
                    false
                }
            },
            _ => false,
        }
    }

    /// <https://tc39.es/ecma262/#sec-abstract-equality-comparison>
    pub fn try_abstract_equality_comparison(
        &self,
        left_expr: &Expression,
        right_expr: &Expression,
        ctx: &TraverseCtx,
    ) -> (r: Tri)
        ensures
            r == abstract_equality(left_expr@, right_expr@, ctx),
        decreases convertible(left_expr@) + convertible(right_expr@),
    {
        let left: Ty = Ty::from(left_expr);
        let right: Ty = Ty::from(right_expr);
        if left != Ty::Undetermined && right != Ty::Undetermined {
            if left == right {
                return Self::try_strict_equality_comparison(left_expr, right_expr, ctx);
            }
            if matches!((left, right), (Ty::Null, Ty::Void) | (Ty::Void, Ty::Null)) {
                return Tri::True;
            }
            if matches!((left, right), (Ty::Number, Ty::Str)) || matches!(right, Ty::Boolean) {
                let right_number = ctx.get_side_free_number_value(right_expr);
                if let Some(NumberValue::Number(num)) = right_number {
                    let number_literal_expr: Expression = self.ast.expression_numeric_literal(
                        right_expr.span(),
                        num,
                        String::new(),
                        if num.is_integral() {
                            NumberBase::Decimal
                        } else {
                            NumberBase::Float
                        },
                    );
                    return self.try_abstract_equality_comparison(
                        left_expr,
                        &number_literal_expr,
                        ctx,
                    );
                }
                return Tri::Unknown;
            }
            if matches!((left, right), (Ty::Str, Ty::Number)) || matches!(left, Ty::Boolean) {
                let left_number = ctx.get_side_free_number_value(left_expr);
                if let Some(NumberValue::Number(num)) = left_number {
                    let number_literal_expr: Expression = self.ast.expression_numeric_literal(
                        left_expr.span(),
                        num,
                        String::new(),
                        if num.is_integral() {
                            NumberBase::Decimal
                        } else {
                            NumberBase::Float
                        },
                    );
                    return self.try_abstract_equality_comparison(
                        &number_literal_expr,
                        right_expr,
                        ctx,
                    );
                }
                return Tri::Unknown;
            }
            if matches!(left, Ty::BigInt) {
                return Self::try_bigint_equality(left_expr, right_expr, ctx);
            }
            if matches!(right, Ty::BigInt) {
                return Self::try_bigint_equality(right_expr, left_expr, ctx);
            }
            if matches!(left, Ty::Str | Ty::Number) && matches!(right, Ty::Object) {
                return Tri::Unknown;
            }
            if matches!(left, Ty::Object) && matches!(right, Ty::Str | Ty::Number) {
                return Tri::Unknown;
            }
            return Tri::False;
        }
        Tri::Unknown
    }

    /// Whether a BigInt equals an operand of another type.
    fn try_bigint_equality(big: &Expression, operand: &Expression, ctx: &TraverseCtx) -> (r: Tri)
        ensures
            r == bigint_equality(big@, operand@, ctx),
    {
        match (ctx.get_side_free_bigint_value(big), ctx.get_side_free_bigint_value(operand)) {
            (Some(l_big), Some(r_big)) => Tri::from(l_big.is_equal(&r_big)),
            (Some(l_big), None) => Self::compare_integer(&l_big, operand, ctx),
            _ => match Ty::from(operand) {
                Ty::Null | Ty::Void => Tri::False,
                _ => Tri::Unknown,
            },
        }
    }

    /// Whether a BigInt equals an operand of which no integer is read.
    fn compare_integer(integer: &BigInt, operand: &Expression, ctx: &TraverseCtx) -> (r: Tri)
        ensures
            r == integer_equality(integer@, operand@, ctx),
    {
        match Ty::from(operand) {
            Ty::Number => match ctx.get_side_free_number_value(operand) {
                Some(value) => Tri::from(integer.is_number(value.to_double())),
                None => Tri::Unknown,
            },
            Ty::Str => {
                if let Expression::UnaryExpression(_) = operand {
                    return Tri::False;
                }
                match ctx.get_side_free_string_value(operand) {
                    Some(s) => match bigint::read_denoted(s.as_str()) {
                        Some(denoted) => {
                            if denoted.is_equal(integer) {
                                Tri::Unknown
                            } else {
                                Tri::False
                            }
                        },
                        None => Tri::False,
                    },
                    None => Tri::Unknown,
                }
            },
            Ty::Object | Ty::Undetermined => Tri::Unknown,
            _ => Tri::False,
        }
    }

    /// <https://tc39.es/ecma262/#sec-abstract-relational-comparison>
    pub fn try_abstract_relational_comparison(
        left_expr: &Expression,
        right_expr: &Expression,
        will_negative: bool,
        ctx: &TraverseCtx,
    ) -> (r: Tri)
        ensures
            r == relational(left_expr@, right_expr@, will_negative, ctx),
    {
        let left: Ty = Ty::from(left_expr);
        let right: Ty = Ty::from(right_expr);
        // First, check for a string comparison.
        if left == Ty::Str && right == Ty::Str {
            let left_string = ctx.get_side_free_string_value(left_expr);
            let right_string = ctx.get_side_free_string_value(right_expr);
            if let (Some(left_string), Some(right_string)) = (left_string, right_string) {
                if text::contains(left_string.as_str(), '\u{b}') || text::contains(
                    right_string.as_str(),
                    '\u{b}',
                ) {
                    return Tri::Unknown;
                }
                return Tri::from(text::is_before(left_string.as_str(), right_string.as_str()));
            }
            if Self::is_typeof_same_name(left_expr, right_expr) {
                return Tri::False;
            }
        }
        let left_bigint = ctx.get_side_free_bigint_value(left_expr);
        let right_bigint = ctx.get_side_free_bigint_value(right_expr);
        let left_num = ctx.get_side_free_number_value(left_expr);
        let right_num = ctx.get_side_free_number_value(right_expr);
        // A BigInt is compared with a string by the integer that the string denotes.
        if left_num.is_none() && left_bigint.is_some() && right_bigint.is_none() && left != Ty::Str
            && right == Ty::Str {
            return Self::compare_text_without_integer(right_expr, will_negative, ctx);
        }
        if right_num.is_none() && right_bigint.is_some() && left_bigint.is_none() && right
            != Ty::Str && left == Ty::Str {
            return Self::compare_text_without_integer(left_expr, will_negative, ctx);
        }
        match (left_bigint, right_bigint, left_num, right_num) {
            // Next, try to evaluate based on the value of the node. Try comparing as BigInts first.
            (Some(l_big), Some(r_big), _, _) => Tri::from(
                l_big.compare(&r_big) == Comparison::Less,
            ),
            // Try comparing as Numbers.
            (_, _, Some(l_num), Some(r_num)) => match (l_num, r_num) {
                (NumberValue::NaN, _) | (_, NumberValue::NaN) => Tri::from(will_negative),
                (NumberValue::Number(l), NumberValue::Number(r)) => Tri::from(l.is_less(r)),
                _ => Tri::Unknown,
            },
            // Finally, try comparisons between BigInt and Number.
            (Some(l_big), _, _, Some(r_num)) => {
                if left == Ty::Str && Self::is_infinity(r_num) {
                    Tri::Unknown
                } else {
                    Self::bigint_less_than_number(&l_big, &r_num, Tri::False, will_negative)
                }
            },
            (_, Some(r_big), Some(l_num), _) => {
                if right == Ty::Str && Self::is_infinity(l_num) {
                    Tri::Unknown
                } else {
                    Self::bigint_less_than_number(&r_big, &l_num, Tri::True, will_negative)
                }
            },
            _ => Tri::Unknown,
        }
    }

    fn is_infinity(value: NumberValue) -> (r: bool)
        ensures
            r == (value is PositiveInfinity || value is NegativeInfinity),
    {
        match value {
            NumberValue::PositiveInfinity | NumberValue::NegativeInfinity => true,
            _ => false,
        }
    }

    /// The order of a BigInt and a string of which no integer is read.
    fn compare_text_without_integer(
        text: &Expression,
        will_negative: bool,
        ctx: &TraverseCtx,
    ) -> (r: Tri)
        ensures
            r == text_without_integer(text@, will_negative, ctx),
    {
        if ctx.is_text_read(text) {
            Tri::from(will_negative)
        } else {
            Tri::Unknown
        }
    }

    /// Whether `bigint_value` is below `number_value`. If `invert` is false, the number is on the
    /// right; if it is true, the number is on the left, and the answer is whether the number is
    /// below the integer.
    pub fn bigint_less_than_number(
        bigint_value: &BigInt,
        number_value: &NumberValue,
        invert: Tri,
        will_negative: bool,
    ) -> (r: Tri)
        ensures
            r == integer_less_than_number(bigint_value@, *number_value, invert, will_negative),
    {
        match number_value {
            NumberValue::NaN => Tri::from(will_negative),
            NumberValue::PositiveInfinity => Tri::True.xor(invert),
            NumberValue::NegativeInfinity => Tri::False.xor(invert),
            NumberValue::Number(num) => {
                if num.is_at_least_2_53() {
                    return Tri::Unknown;
                }
                let number_as_bigint: BigInt = BigInt::from_i64(num.to_i64());
                proof {
                    if num.finite() {
                        number::lemma_integer_part_order(bigint_value@, *num);
                    }
                }
                match bigint_value.compare(&number_as_bigint) {
                    Comparison::Less => Tri::True.xor(invert),
                    Comparison::Greater => Tri::False.xor(invert),
                    Comparison::Equal => {
                        if num.is_integral() {
                            Tri::False
                        } else {
                            Tri::from(num.is_sign_positive()).xor(invert)
                        }
                    },
                }
            },
        }
    }

    /// The value of a comparison, where it is known and evaluating the operands has no effect.
    pub fn evaluate_comparison(
        &self,
        op: BinaryOperator,
        left: &Expression,
        right: &Expression,
        ctx: &TraverseCtx,
    ) -> (r: Tri)
        ensures
            r == comparison(op, left@, right@, ctx),
    {
        if left.may_have_side_effects() || right.may_have_side_effects() {
            return Tri::Unknown;
        }
        match op {
            BinaryOperator::Equality => self.try_abstract_equality_comparison(left, right, ctx),
            BinaryOperator::Inequality => self.try_abstract_equality_comparison(
                left,
                right,
                ctx,
            ).not(),
            BinaryOperator::StrictEquality => Self::try_strict_equality_comparison(
                left,
                right,
                ctx,
            ),
            BinaryOperator::StrictInequality => Self::try_strict_equality_comparison(
                left,
                right,
                ctx,
            ).not(),
            BinaryOperator::LessThan => Self::try_abstract_relational_comparison(
                left,
                right,
                false,
                ctx,
            ),
            BinaryOperator::GreaterThan => Self::try_abstract_relational_comparison(
                right,
                left,
                false,
                ctx,
            ),
            BinaryOperator::LessEqualThan => Self::try_abstract_relational_comparison(
                right,
                left,
                true,
                ctx,
            ).not(),
            BinaryOperator::GreaterEqualThan => Self::try_abstract_relational_comparison(
                left,
                right,
                true,
                ctx,
            ).not(),
            _ => Tri::Unknown,
        }
    }

    /// Folds a comparison to its value.
    pub fn try_fold_comparison(
        &self,
        span: Span,
        op: BinaryOperator,
        left: &Expression,
        right: &Expression,
        ctx: &TraverseCtx,
    ) -> (r: Option<Expression>)
        ensures
            model::optional_expr(r) == folded_comparison(span, op, left@, right@, ctx),
    {
        let value: bool = match self.evaluate_comparison(op, left, right, ctx) {
            Tri::True => true,
            Tri::False => false,
            Tri::Unknown => return None,
        };
        Some(self.ast.expression_boolean_literal(span, value))
    }
}

/// The literal that a comparison is folded to.
pub open spec fn folded_comparison(
    span: Span,
    operator: BinaryOperator,
    left: Expr,
    right: Expr,
    ctx: &TraverseCtx,
) -> Option<Expr> {
    match comparison(operator, left, right, ctx).known() {
        Some(value) => Some(Expr::Boolean { span, value }),
        None => None,
    }
}

} // verus!
