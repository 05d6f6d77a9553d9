//! Additions and shifts of operands whose values are known.
use vstd::arithmetic::div_mod::*;
use vstd::arithmetic::mul::*;
use vstd::arithmetic::power2::*;
use vstd::prelude::*;

use crate::ast::{Expression, NumberBase, Span};
use crate::context::TraverseCtx;
use crate::fold_constants::FoldConstants;
use crate::model;
use crate::model::Expr;
use crate::number;
use crate::number::Number;
use crate::number_value::NumberValue;
use crate::operator::BinaryOperator;
use crate::text;
use crate::ty::Ty;

verus! {

/// The literal that an addition is folded to: a string where either operand is one, a number
/// where either is one or both are booleans.
pub open spec fn folded_addition(span: Span, left: Expr, right: Expr, ctx: &TraverseCtx) -> Option<
    Expr,
> {
    let (l, r) = (left.ty(), right.ty());
    if left.side_effects() || right.side_effects() || l is Undetermined || r is Undetermined {
        None
    } else if l is Str || r is Str {
        match (left.string(ctx), right.string(ctx)) {
            (Some(a), Some(b)) => Some(Expr::Str { span, value: a + b }),
            _ => None,
        }
    } else if l is Number || r is Number || (l is Boolean && r is Boolean) {
        match (left.number(ctx), right.number(ctx)) {
            (Some(a), Some(b)) => match a.sum(b).number() {
                Some(value) => Some(
                    Expr::Numeric {
                        span,
                        value,
                        raw: Seq::empty(),
                        base: if value.integral() {
                            NumberBase::Decimal
                        } else {
                            NumberBase::Float
                        },
                    },
                ),
                None => None,
            },
            _ => None,
        }
    } else {
        None
    }
}

/// What a shift makes of a 32-bit integer: to the left its bits above the lowest 32 are lost, to
/// the right the quotient is rounded down, and with zeros filled in the integer is first taken
/// for an unsigned one.
pub open spec fn shifted(operator: BinaryOperator, bits: int, count: nat) -> int {
    match operator {
        BinaryOperator::ShiftLeft => number::wrapped_int32(bits * pow2(count)),
        BinaryOperator::ShiftRight => bits / pow2(count) as int,
        _ => (bits % 0x1_0000_0000) / pow2(count) as int,
    }
}

/// The literal that a shift is folded to, where both operands are known whole numbers and the
/// count is at least 0 and below 32.
pub open spec fn folded_shift(
    span: Span,
    operator: BinaryOperator,
    left: Expr,
    right: Expr,
    ctx: &TraverseCtx,
) -> Option<Expr> {
    match (left.side_free_number(ctx), right.side_free_number(ctx)) {
        (Some(NumberValue::Number(a)), Some(NumberValue::Number(b))) => if a.integral()
            && b.integral() && 0 <= b.integer_part() < 32 {
            let result = shifted(operator, a.int32(), b.integer_part() as nat);
            Some(
                Expr::Numeric {
                    span,
                    value: Number::of_int(result),
                    raw: text::decimal_text(result),
                    base: NumberBase::Decimal,
                },
            )
        } else {
            None
        },
        _ => None,
    }
}

/// A shift of a 32-bit integer by less than 32 gives a 32-bit integer: signed, or, where zeros are
/// filled in, unsigned.
pub proof fn law_shift_stays_in_range(operator: BinaryOperator, bits: int, count: nat)
    requires
        operator.shift(),
        -0x8000_0000 <= bits < 0x8000_0000,
        count < 32,
    ensures
        if operator is ShiftRightZeroFill {
            0 <= shifted(operator, bits, count) < 0x1_0000_0000
        } else {
            -0x8000_0000 <= shifted(operator, bits, count) < 0x8000_0000
        },
{
    let power = pow2(count) as int;
    lemma_pow2_pos(count);
    match operator {
        BinaryOperator::ShiftLeft => {},
        BinaryOperator::ShiftRight => {
            lemma_fundamental_div_mod(bits, power);
            lemma_mod_bound(bits, power);
            let q = bits / power;
            assert(-0x8000_0000 <= q < 0x8000_0000) by (nonlinear_arith)
                requires
                    bits == power * q + bits % power,
                    0 <= bits % power < power,
                    power >= 1,
                    -0x8000_0000 <= bits < 0x8000_0000,
            ;
        },
        _ => {
            let unsigned = bits % 0x1_0000_0000;
            lemma_div_pos_is_pos(unsigned, power);
            lemma_div_is_ordered_by_denominator(unsigned, 1, power);
        },
    }
}

/// What a shift makes of a 32-bit integer.
fn shift(op: BinaryOperator, bits: i32, count: u32) -> (r: i64)
    requires
        op.shift(),
        count < 32,
    ensures
        r == shifted(op, bits as int, count as nat),
        -0x8000_0000 <= r < 0x1_0000_0000,
{
    let mut power: i64 = 1;
    let mut i: u32 = 0;
    proof {
        lemma2_to64();
    }
    while i < count
        invariant
            i <= count < 32,
            power == pow2(i as nat),
            1 <= power <= 0x8000_0000,
        decreases count - i,
    {
        proof {
            lemma_pow2_unfold((i + 1) as nat);
            lemma2_to64();
            if i + 1 < 31 {
                lemma_pow2_strictly_increases((i + 1) as nat, 31);
            }
        }
        power = power * 2;
        i = i + 1;
    }
    let wide: i64 = bits as i64;
    match op {
        BinaryOperator::ShiftLeft => {
            proof {
                assert(-0x4000_0000_0000_0000 <= wide * power <= 0x4000_0000_0000_0000)
                    by (nonlinear_arith)
                    requires
                        -0x8000_0000 <= wide < 0x8000_0000,
                        1 <= power <= 0x8000_0000,
                ;
                lemma_mod_multiples_vanish(
                    0x4000_0000,
                    wide * power + 0x8000_0000,
                    0x1_0000_0000,
                );
            }
            ((wide as i128 * power as i128 + 0x4000_0000_8000_0000) % 0x1_0000_0000 - 0x8000_0000) as i64
        },
        BinaryOperator::ShiftRight => {
            proof {
                lemma_pow2_adds((31 - count) as nat, count as nat);
                lemma2_to64();
                let up = pow2((31 - count) as nat) as int;
                lemma_mul_is_commutative(up, power as int);
                lemma_hoist_over_denominator(wide as int, up, power as nat);
                lemma_div_by_multiple(up, power as int);
                lemma_div_pos_is_pos(wide + 0x8000_0000, power as int);
                lemma_div_is_ordered_by_denominator(wide + 0x8000_0000, 1, power as int);
            }
            (wide + 0x8000_0000) / power - 0x8000_0000 / power
        },
        _ => {
            let unsigned: i64 = if wide < 0 { wide + 0x1_0000_0000 } else { wide };
            proof {
                lemma_div_pos_is_pos(unsigned as int, power as int);
                lemma_div_is_ordered_by_denominator(unsigned as int, 1, power as int);
                lemma_mod_multiples_vanish(-1, unsigned as int, 0x1_0000_0000);
            }
            unsigned / power
        },
    }
}

impl FoldConstants {
    /// Folds an addition to its value. Booleans are treated as the numbers 1 and 0.
    pub fn try_fold_addition(
        &self,
        span: Span,
        left: &Expression,
        right: &Expression,
        ctx: &TraverseCtx,
    ) -> (r: Option<Expression>)
        ensures
            model::optional_expr(r) == folded_addition(span, left@, right@, ctx),
    {
        // skip any potentially dangerous compressions
        if left.may_have_side_effects() || right.may_have_side_effects() {
            return None;
        }
        let left_type: Ty = Ty::from(left);
        let right_type: Ty = Ty::from(right);
        match (left_type, right_type) {
            (Ty::Undetermined, _) | (_, Ty::Undetermined) => None,
            // string concatenation
            (Ty::Str, _) | (_, Ty::Str) => {
                // the operands have no side effects, as checked at the beginning
                let left_string: String = ctx.get_string_value(left)?;
                let right_string: String = ctx.get_string_value(right)?;
                Some(
                    self.ast.expression_string_literal(
                        span,
                        left_string.concat(right_string.as_str()),
                    ),
                )
            },
            // number addition
            (Ty::Number, _) | (_, Ty::Number) | (Ty::Boolean, Ty::Boolean) => {
                let left_number: NumberValue = ctx.get_number_value(left)?;
                let right_number: NumberValue = ctx.get_number_value(right)?;
                let value: Number = left_number.plus(right_number).to_number()?;
                // Float if value has a fractional part, otherwise Decimal
                let number_base: NumberBase = if value.is_integral() {
                    NumberBase::Decimal
                } else {
                    NumberBase::Float
                };
                Some(
                    self.ast.expression_numeric_literal(span, value, String::new(), number_base),
                )
            },
            _ => None,
        }
    }

    /// Folds a shift to its value.
    pub fn try_fold_shift(
        &self,
        span: Span,
        op: BinaryOperator,
        left: &Expression,
        right: &Expression,
        ctx: &TraverseCtx,
    ) -> (r: Option<Expression>)
        requires
            op.shift(),
        ensures
            model::optional_expr(r) == folded_shift(span, op, left@, right@, ctx),
    {
        let left_num = ctx.get_side_free_number_value(left);
        let right_num = ctx.get_side_free_number_value(right);
        if let (Some(NumberValue::Number(left_val)), Some(NumberValue::Number(right_val))) = (
            left_num,
            right_num,
        ) {
            if !left_val.is_integral() || !right_val.is_integral() {
                return None;
            }
            // only the lower 5 bits are used when shifting, so don't do anything
            // if the shift amount is outside [0,32)
            if right_val.is_at_least_2_53() {
                proof {
                    lemma_large_integer_part(right_val);
                }
                return None;
            }
            let count: i64 = right_val.to_i64();
            if !(0 <= count && count < 32) {
                return None;
            }
            let bits: i32 = left_val.to_int32();
            let result_val: i64 = shift(op, bits, count as u32);
            return Some(
                self.ast.expression_numeric_literal(
                    span,
                    Number::from_i64(result_val),
                    text::decimal_text_of(result_val),
                    NumberBase::Decimal,
                ),
            );
        }
        None
    }
}

/// The integer part of a number of `2^53` or more in magnitude is as large.
proof fn lemma_large_integer_part(n: Number)
    requires
        n.finite(),
        number::magnitude(n.magnitude_bits()) >= pow2(53) * number::one(),
    ensures
        n.integer_part() >= 32 || n.integer_part() < 0,
{
    let m = number::magnitude(n.magnitude_bits()) as int;
    let one = number::one() as int;
    lemma_pow2_pos(1074);
    lemma2_to64_rest();
    lemma_div_is_ordered(pow2(53) * one, m, one);
    lemma_div_by_multiple(pow2(53) as int, one);
}

} // verus!
