//! Folding keeps the value of an expression, whatever values an environment gives to what the text
//! does not fix.
use vstd::arithmetic::div_mod::*;
use vstd::arithmetic::mul::*;
use vstd::arithmetic::power2::*;
use vstd::prelude::*;

use crate::arithmetic;
use crate::bigint;
use crate::comparison;
use crate::context::TraverseCtx;
use crate::model::{Binary, Element, Expr, Logical, Property, Stmt, Unary};
use crate::number;
use crate::number::{Number, INFINITY_BITS, NAN_BITS};
use crate::number_value::NumberValue;
use crate::operator::{BinaryOperator, UnaryOperator};
use crate::parts;
use crate::text;
use crate::tri::Tri;
use crate::value;
use crate::value::{Environment, Order, Value};

verus! {

/// `0n` denotes zero.
proof fn lemma_plain_zero()
    ensures
        bigint::literal_value("0n"@) == Some(0int),
{
    reveal_strlit("0n");
    let s = bigint::without_suffix("0n"@);
    assert(s =~= seq!['0']);
    let bytes = bigint::bytes_of(s);
    assert(bytes =~= seq![0x30u8]);
    reveal_with_fuel(bigint::digits_value, 2);
    assert(bytes.drop_last() =~= Seq::<u8>::empty());
}

/// The global names are different.
proof fn lemma_global_names()
    ensures
        "undefined"@ != "NaN"@,
        "undefined"@ != "Infinity"@,
        "NaN"@ != "Infinity"@,
{
    reveal_strlit("undefined");
    reveal_strlit("NaN");
    reveal_strlit("Infinity");
    assert("undefined"@.len() == 9 && "NaN"@.len() == 3 && "Infinity"@.len() == 8);
}

/// An expression that may have no effect has a value.
#[verifier::spinoff_prover]
#[verifier::rlimit(40)]
pub proof fn law_effect_free_expressions_have_values(e: Expr, env: Environment)
    requires
        env.standard(),
        !e.side_effects(),
    ensures
        e.value(env) is Some,
    decreases e,
{
    parts::law_side_effects_are_acts_of_parts(e);
    assert((env.node)(e) is Some);
    match e {
        Expr::Parenthesized { expression, .. } => law_effect_free_expressions_have_values(
            *expression,
            env,
        ),
        Expr::Sequence { expressions, .. } => {
            assert forall|i: int| 0 <= i < expressions.len() implies (
            #[trigger] expressions[i]).value(env) is Some by {
                law_effect_free_expressions_have_values(expressions[i], env);
            }
        },
        Expr::Conditional(x) => {
            law_effect_free_expressions_have_values(*x.test, env);
            law_effect_free_expressions_have_values(*x.consequent, env);
            law_effect_free_expressions_have_values(*x.alternate, env);
        },
        Expr::Logical(x) => {
            law_effect_free_expressions_have_values(*x.left, env);
            law_effect_free_expressions_have_values(*x.right, env);
        },
        Expr::Unary(x) => law_effect_free_expressions_have_values(*x.argument, env),
        Expr::Binary(x) => {
            law_effect_free_expressions_have_values(*x.left, env);
            law_effect_free_expressions_have_values(*x.right, env);
            let equal = Expr::Binary(Binary { operator: BinaryOperator::Equality, ..x });
            let same = Expr::Binary(Binary { operator: BinaryOperator::StrictEquality, ..x });
            parts::law_side_effects_are_acts_of_parts(equal);
            parts::law_side_effects_are_acts_of_parts(same);
            assert((env.node)(equal) is Some);
            assert((env.node)(same) is Some);
        },
        _ => {},
    }
}

/// The type that the form of an expression tells is the type of its value.
pub proof fn law_type_is_that_of_the_value(e: Expr, env: Environment)
    requires
        env.standard(),
        !(e.ty() is Undetermined),
        e.value(env) is Some,
    ensures
        e.value(env)->0.ty() == e.ty(),
    decreases e,
{
    match e {
        Expr::Unary(u) => {
            if u.operator is UnaryNegation {
                law_type_is_that_of_the_value(*u.argument, env);
            }
        },
        Expr::Binary(b) => {
            if b.left.ty() is Str {
                law_type_is_that_of_the_value(*b.left, env);
            }
            if b.right.ty() is Str {
                law_type_is_that_of_the_value(*b.right, env);
            }
        },
        _ => {},
    }
}

/// The numbers of truth values.
proof fn lemma_unit_numbers()
    ensures
        Number::of_int(0) == (Number { bits: 0 }),
        Number::of_int(1).finite(),
        !Number::of_int(1).same(Number::of_int(0)),
        Number::of_int(0).finite(),
        Number::of_int(0).units() == 0,
        Number::of_int(0).same(Number::of_int(0)),
{
    number::law_small_integers_are_exact(0);
    number::law_small_integers_are_exact(1);
    lemma_pow2_pos(1074);
    lemma_mul_basics(number::one() as int);
    lemma_mul_basics(pow2(0) as int);
}

/// The sign operators on a number value and on the number that it denotes.
proof fn lemma_signed_number(argument: Value, n: NumberValue, env: Environment)
    requires
        argument.to_number(env) is Some,
        n.denotes(argument.to_number(env)->0),
    ensures
        argument.unary(UnaryOperator::UnaryPlus, env) is Some,
        n.denotes(argument.unary(UnaryOperator::UnaryPlus, env)->0.to_number(env)->0),
        argument.unary(UnaryOperator::UnaryNegation, env) is Some,
        n.opposite().denotes(
            argument.unary(UnaryOperator::UnaryNegation, env)->0.to_number(env)->0,
        ),
{
    let infinity = Number { bits: INFINITY_BITS };
    assert(infinity.opposite().opposite() == infinity);
}

/// The number that an expression is known to have is the number that its value is converted to.
#[verifier::spinoff_prover]
#[verifier::rlimit(40)]
pub proof fn law_number_is_that_of_the_value(e: Expr, ctx: &TraverseCtx, env: Environment)
    requires
        ctx.lists(env),
        env.standard(),
        e.value(env) is Some,
        e.number(ctx) is Some,
    ensures
        e.value(env)->0.to_number(env) is Some,
        e.number(ctx)->0.denotes(e.value(env)->0.to_number(env)->0),
    decreases e, 0nat,
{
    match e {
        Expr::Boolean { .. } | Expr::Null { .. } => lemma_unit_numbers(),
        Expr::Identifier(_) => lemma_global_names(),
        Expr::Unary(u) => match u.operator {
            UnaryOperator::UnaryPlus | UnaryOperator::UnaryNegation => {
                law_number_is_that_of_the_value(*u.argument, ctx, env);
                lemma_signed_number(u.argument.value(env)->0, u.argument.number(ctx)->0, env);
            },
            UnaryOperator::BitwiseNot => {
                law_number_is_that_of_the_value(*u.argument, ctx, env);
                let n = u.argument.value(env)->0.to_number(env)->0;
                number::law_small_integers_are_exact(-n.low_int32() - 1);
            },
            UnaryOperator::LogicalNot => {
                lemma_unit_numbers();
                law_truth_is_that_of_the_value(*u.argument, ctx, env);
            },
            _ => {},
        },
        _ => {},
    }
}

/// A number value is true as the number that it denotes is.
proof fn lemma_truth_of_number(n: NumberValue, v: Value, env: Environment)
    requires
        v is Number,
        n.denotes(v.to_number(env)->0),
    ensures
        n.truthy() == v.truthy(),
{
    lemma_unit_numbers();
}

/// The truth value that an expression is known to have is that of its value.
#[verifier::spinoff_prover]
#[verifier::rlimit(40)]
pub proof fn law_truth_is_that_of_the_value(e: Expr, ctx: &TraverseCtx, env: Environment)
    requires
        ctx.lists(env),
        env.standard(),
        e.value(env) is Some,
        !(e.boolean(ctx) is Unknown),
    ensures
        e.boolean(ctx) == Tri::of(e.value(env)->0.truthy()),
    decreases e, 1nat,
{
    match e {
        Expr::Numeric { .. } => lemma_unit_numbers(),
        Expr::Identifier(_) => {
            lemma_global_names();
            lemma_unit_numbers();
        },
        Expr::Assignment { right, .. } => law_truth_is_that_of_the_value(*right, ctx, env),
        Expr::Sequence { expressions, .. } => law_truth_is_that_of_the_value(
            expressions[expressions.len() - 1],
            ctx,
            env,
        ),
        Expr::Logical(l) => {
            if !(l.left.boolean(ctx) is Unknown) {
                law_truth_is_that_of_the_value(*l.left, ctx, env);
            }
            if !(l.right.boolean(ctx) is Unknown) && l.right.value(env) is Some {
                law_truth_is_that_of_the_value(*l.right, ctx, env);
            }
        },
        Expr::Unary(u) => match u.operator {
            UnaryOperator::LogicalNot => law_truth_is_that_of_the_value(*u.argument, ctx, env),
            UnaryOperator::BitwiseNot
            | UnaryOperator::UnaryPlus
            | UnaryOperator::UnaryNegation => {
                law_number_is_that_of_the_value(*u.argument, ctx, env);
                law_number_is_that_of_the_value(e, ctx, env);
                lemma_truth_of_number(e.number(ctx)->0, e.value(env)->0, env);
            },
            _ => {},
        },
        _ => {},
    }
}

/// A number that is an integer below `2^53` in magnitude is that integer exactly.
proof fn lemma_small_integer(n: Number)
    requires
        n.small_integer() is Some,
    ensures
        n.finite(),
        n.units() == n.small_integer()->0 * number::one(),
        -0x20_0000_0000_0000 < n.small_integer()->0 < 0x20_0000_0000_0000,
{
    let m = number::magnitude(n.magnitude_bits()) as int;
    let one = number::one() as int;
    number::lemma_integer_part_order(n.integer_part(), n);
    lemma_pow2_pos(1074);
    lemma2_to64_rest();
    lemma_multiply_divide_lt(m, one, 0x20_0000_0000_0000);
    lemma_div_pos_is_pos(m, one);
}

/// Whether a value is an integer: a BigInt, a string that denotes it, or a number below `2^53` in
/// magnitude.
pub open spec fn denotes_integer(v: Value, i: int, env: Environment) -> bool {
    match v {
        Value::BigInt(n) => n == i,
        Value::Str(s) => value::string_integer(s) == Some(i),
        Value::Boolean(_) | Value::Number(_) => {
            let n = v.to_number(env)->0;
            &&& n.finite()
            &&& n.units() == i * number::one()
            &&& -0x20_0000_0000_0000 < i < 0x20_0000_0000_0000
        },
        _ => false,
    }
}

/// The integer that an expression is known to have is the integer that its value denotes.
#[verifier::spinoff_prover]
#[verifier::rlimit(40)]
pub proof fn law_integer_is_that_of_the_value(e: Expr, ctx: &TraverseCtx, env: Environment)
    requires
        ctx.lists(env),
        env.standard(),
        e.value(env) is Some,
        e.bigint(ctx) is Some,
    ensures
        denotes_integer(e.value(env)->0, e.bigint(ctx)->0, env),
    decreases e,
{
    number::law_small_integers_are_exact(0);
    number::law_small_integers_are_exact(1);
    match e {
        Expr::Numeric { value, .. } => lemma_small_integer(value),
        Expr::Unary(u) => match u.operator {
            UnaryOperator::LogicalNot => law_truth_is_that_of_the_value(*u.argument, ctx, env),
            UnaryOperator::UnaryNegation | UnaryOperator::UnaryPlus => {
                if u.argument.ty() is BigInt {
                    law_type_is_that_of_the_value(*u.argument, env);
                    law_integer_is_that_of_the_value(*u.argument, ctx, env);
                } else {
                    law_number_is_that_of_the_value(*u.argument, ctx, env);
                    law_number_is_that_of_the_value(e, ctx, env);
                    lemma_small_integer(e.number(ctx)->0->Number_0);
                }
            },
            UnaryOperator::BitwiseNot => {
                law_type_is_that_of_the_value(*u.argument, env);
                law_integer_is_that_of_the_value(*u.argument, ctx, env);
            },
            _ => {},
        },
        _ => {},
    }
}

/// The string that an expression is known to have is the string that its value is converted to. An
/// object of which it is known is one without methods of its own.
#[verifier::spinoff_prover]
#[verifier::rlimit(40)]
pub proof fn law_string_is_that_of_the_value(e: Expr, ctx: &TraverseCtx, env: Environment)
    requires
        ctx.lists(env),
        env.standard(),
        e.value(env) is Some,
        e.string(ctx) is Some,
    ensures
        e.value(env)->0 is Object || e.value(env)->0.to_text(env) == e.string(ctx),
        e.string(ctx)->0 == plain_text(e.value(env)->0, env),
{
    lemma_global_names();
    match e {
        Expr::Unary(u) => {
            if u.operator is LogicalNot {
                law_truth_is_that_of_the_value(*u.argument, ctx, env);
            }
        },
        _ => {},
    }
}

/// Number values are equal as the numbers that they denote are.
proof fn lemma_same_numbers(a: NumberValue, b: NumberValue, m: Number, n: Number)
    requires
        a.denotes(m),
        b.denotes(n),
    ensures
        a.same(b) == m.same(n),
{
}

/// Whether an expression that is taken for NaN by its name is one. It is not where a variable of
/// the program has that name.
pub open spec fn nan_by_name(e: Expr, env: Environment) -> bool {
    (e matches Expr::Identifier(i) && i.name == "NaN"@) ==> e.value(env) == Some(
        Value::Number(Number { bits: NAN_BITS }),
    )
}

/// The name of the variable of which an expression is the `typeof`.
pub open spec fn typeof_variable(e: Expr) -> Option<Seq<char>> {
    match e {
        Expr::Unary(u) => match *u.argument {
            Expr::Identifier(i) => if u.operator is Typeof {
                Some(i.name)
            } else {
                None
            },
            _ => None,
        },
        _ => None,
    }
}

/// Whether two operands that are `typeof` of one variable find one type of value in it. They do
/// where nothing happens between them.
pub open spec fn variable_is_steady(left: Expr, right: Expr, env: Environment) -> bool {
    typeof_variable(left) is Some && typeof_variable(left) == typeof_variable(right) ==> left.value(
        env,
    ) == right.value(env)
}

/// A known strict equality is that of the values.
#[verifier::spinoff_prover]
#[verifier::rlimit(40)]
pub proof fn law_strict_equality_is_that_of_the_values(
    left: Expr,
    right: Expr,
    ctx: &TraverseCtx,
    env: Environment,
)
    requires
        ctx.lists(env),
        env.standard(),
        left.value(env) is Some,
        right.value(env) is Some,
        left.ty() is Undetermined || right.ty() is Undetermined ==> nan_by_name(left, env)
            && nan_by_name(right, env),
        variable_is_steady(left, right, env),
        !(comparison::strict_equality(left, right, ctx) is Unknown),
    ensures
        left.value(env)->0.strictly_equals(right.value(env)->0)
            == comparison::strict_equality(left, right, ctx).known(),
{
    let (l, r) = (left.ty(), right.ty());
    if !(l is Undetermined || r is Undetermined) {
        law_type_is_that_of_the_value(left, env);
        law_type_is_that_of_the_value(right, env);
        if l == r && l is Number {
            lemma_strict_numbers(left, right, ctx, env);
        } else if l == r && l is Str {
            lemma_strict_strings(left, right, ctx, env);
        }
    }
}

/// A known strict equality of numbers is that of the values.
#[verifier::spinoff_prover]
proof fn lemma_strict_numbers(left: Expr, right: Expr, ctx: &TraverseCtx, env: Environment)
    requires
        ctx.lists(env),
        env.standard(),
        left.value(env) is Some,
        right.value(env) is Some,
        left.value(env)->0 is Number,
        right.value(env)->0 is Number,
        left.ty() is Number,
        right.ty() is Number,
        !(comparison::strict_equality(left, right, ctx) is Unknown),
    ensures
        left.value(env)->0.strictly_equals(right.value(env)->0)
            == comparison::strict_equality(left, right, ctx).known(),
{
    law_number_is_that_of_the_value(left, ctx, env);
    law_number_is_that_of_the_value(right, ctx, env);
    lemma_same_numbers(
        left.number(ctx)->0,
        right.number(ctx)->0,
        left.value(env)->0->Number_0,
        right.value(env)->0->Number_0,
    );
}

/// A known strict equality of strings is that of the values.
#[verifier::spinoff_prover]
proof fn lemma_strict_strings(left: Expr, right: Expr, ctx: &TraverseCtx, env: Environment)
    requires
        ctx.lists(env),
        env.standard(),
        left.value(env) is Some,
        right.value(env) is Some,
        left.value(env)->0 is Str,
        right.value(env)->0 is Str,
        left.ty() is Str,
        right.ty() is Str,
        variable_is_steady(left, right, env),
        !(comparison::strict_equality(left, right, ctx) is Unknown),
    ensures
        left.value(env)->0.strictly_equals(right.value(env)->0)
            == comparison::strict_equality(left, right, ctx).known(),
{
    if left.side_free_string(ctx) is Some && right.side_free_string(ctx) is Some {
        law_string_is_that_of_the_value(left, ctx, env);
        law_string_is_that_of_the_value(right, ctx, env);
    }
}

/// A text of letters denotes no integer.
proof fn lemma_letters_denote_no_integer(s: Seq<char>)
    requires
        s.len() > 0,
        'a' <= s[0] <= 'z',
        'a' <= s.last() <= 'z',
    ensures
        value::string_integer(s) is None,
{
    assert(bigint::trimmed_start(s) == s);
    assert(bigint::trimmed_end(s) == s);
    assert(bigint::bytes_of(s)[0] == s[0] as u8);
}

/// The names of types denote no integer.
proof fn lemma_typeof_name_denotes_no_integer(v: Value)
    ensures
        value::string_integer(v.typeof_name()) is None,
{
    reveal_strlit("undefined");
    reveal_strlit("object");
    reveal_strlit("boolean");
    reveal_strlit("number");
    reveal_strlit("bigint");
    reveal_strlit("string");
    reveal_strlit("function");
    lemma_letters_denote_no_integer(v.typeof_name());
}

/// The literal that stands for a boolean or a string in a loose equality has the number of it.
#[verifier::spinoff_prover]
#[verifier::rlimit(40)]
proof fn lemma_converted(operand: Expr, ctx: &TraverseCtx, env: Environment)
    requires
        ctx.lists(env),
        env.standard(),
        operand.value(env) is Some,
        operand.number(ctx) matches Some(NumberValue::Number(_)),
    ensures
        ({
            let n = operand.number(ctx)->0->Number_0;
            let literal = comparison::converted(operand, n);
            &&& literal.value(env) == Some(Value::Number(n))
            &&& operand.value(env)->0.to_number(env) == Some(n)
        }),
{
    law_number_is_that_of_the_value(operand, ctx, env);
}

/// A positive factor keeps different integers different and in their order.
proof fn lemma_scaled_equal(a: int, b: int, factor: nat)
    by (nonlinear_arith)
    requires
        factor > 0,
    ensures
        a * factor == b * factor <==> a == b,
        a * factor < b * factor <==> a < b,
{
}

/// A known equality of a BigInt and an operand of another type is that of the values.
#[verifier::spinoff_prover]
#[verifier::rlimit(40)]
proof fn lemma_bigint_equality(big: Expr, operand: Expr, ctx: &TraverseCtx, env: Environment)
    requires
        ctx.lists(env),
        env.standard(),
        big.ty() is BigInt,
        !(operand.ty() is Undetermined || operand.ty() is BigInt || operand.ty() is Boolean),
        big.value(env) is Some,
        operand.value(env) is Some,
        !(comparison::bigint_equality(big, operand, ctx) is Unknown),
    ensures
        big.value(env)->0.equals(operand.value(env)->0, env) == comparison::bigint_equality(
            big,
            operand,
            ctx,
        ).known(),
        operand.value(env)->0.equals(big.value(env)->0, env) == comparison::bigint_equality(
            big,
            operand,
            ctx,
        ).known(),
{
    law_type_is_that_of_the_value(big, env);
    law_type_is_that_of_the_value(operand, env);
    if big.side_free_bigint(ctx) is Some {
        law_integer_is_that_of_the_value(big, ctx, env);
    }
    let k = big.value(env)->0->BigInt_0;
    if operand.side_free_bigint(ctx) is Some {
        law_integer_is_that_of_the_value(operand, ctx, env);
        if operand.ty() is Number {
            lemma_pow2_pos(1074);
            lemma_scaled_equal(k, operand.bigint(ctx)->0, number::one());
        }
    } else if operand.ty() is Number {
        if operand.number(ctx) is Some {
            law_number_is_that_of_the_value(operand, ctx, env);
        }
    } else if operand.ty() is Str {
        if operand.text_is_read(ctx) {
            lemma_unread_text(operand, ctx, env);
        }
    }
}

/// An expression of type BigInt has no number.
proof fn lemma_bigint_has_no_number(e: Expr, ctx: &TraverseCtx)
    requires
        e.ty() is BigInt,
    ensures
        e.number(ctx) is None,
    decreases e,
{
    match e {
        Expr::Unary(u) => lemma_bigint_has_no_number(*u.argument, ctx),
        _ => {},
    }
}

/// A string of which every integer is read, and none was, denotes none.
proof fn lemma_unread_text(operand: Expr, ctx: &TraverseCtx, env: Environment)
    requires
        operand.ty() is Str,
        operand.value(env) is Some,
        operand.value(env)->0 is Str,
        operand.side_free_bigint(ctx) is None,
        operand.text_is_read(ctx),
    ensures
        value::string_integer(operand.value(env)->0->Str_0) is None,
{
    match operand {
        Expr::Unary(u) => {
            lemma_typeof_name_denotes_no_integer(u.argument.value(env)->0);
        },
        _ => {},
    }
}

/// A boolean, or a string in front of a number, is loosely equal to what its number is.
proof fn lemma_equals_converted(v: Value, other: Value, n: Number, env: Environment)
    requires
        v.to_number(env) == Some(n),
        v is Boolean || (v is Str && other is Number),
    ensures
        v.equals(other, env) == Value::Number(n).equals(other, env),
        other.equals(v, env) == other.equals(Value::Number(n), env),
{
}

/// A known loose equality is that of the values.
#[verifier::spinoff_prover]
#[verifier::rlimit(40)]
pub proof fn law_loose_equality_is_that_of_the_values(
    left: Expr,
    right: Expr,
    ctx: &TraverseCtx,
    env: Environment,
)
    requires
        ctx.lists(env),
        env.standard(),
        left.value(env) is Some,
        right.value(env) is Some,
        variable_is_steady(left, right, env),
        !(comparison::abstract_equality(left, right, ctx) is Unknown),
    ensures
        left.value(env)->0.equals(right.value(env)->0, env)
            == comparison::abstract_equality(left, right, ctx).known(),
    decreases comparison::convertible(left) + comparison::convertible(right),
{
    let (l, r) = (left.ty(), right.ty());
    law_type_is_that_of_the_value(left, env);
    law_type_is_that_of_the_value(right, env);
    if l == r {
        law_strict_equality_is_that_of_the_values(left, right, ctx, env);
    } else if (l is Null && r is Void) || (l is Void && r is Null) {
    } else if (l is Number && r is Str) || r is Boolean {
        let n = right.number(ctx)->0->Number_0;
        lemma_converted(right, ctx, env);
        lemma_equals_converted(right.value(env)->0, left.value(env)->0, n, env);
        law_loose_equality_is_that_of_the_values(left, comparison::converted(right, n), ctx, env);
    } else if (l is Str && r is Number) || l is Boolean {
        let n = left.number(ctx)->0->Number_0;
        lemma_converted(left, ctx, env);
        lemma_equals_converted(left.value(env)->0, right.value(env)->0, n, env);
        law_loose_equality_is_that_of_the_values(comparison::converted(left, n), right, ctx, env);
    } else if l is BigInt {
        lemma_bigint_equality(left, right, ctx, env);
    } else if r is BigInt {
        lemma_bigint_equality(right, left, ctx, env);
    }
}

/// The magnitude of a number is that of its units.
proof fn lemma_small_units(n: Number, i: int)
    requires
        n.finite(),
        n.units() == i * number::one(),
        -0x20_0000_0000_0000 < i < 0x20_0000_0000_0000,
    ensures
        number::magnitude(n.magnitude_bits()) < pow2(53) * number::one(),
{
    lemma_pow2_pos(1074);
    lemma2_to64_rest();
    lemma_mul_strict_inequality(i, pow2(53) as int, number::one() as int);
    lemma_mul_strict_inequality(-i, pow2(53) as int, number::one() as int);
    lemma_mul_unary_negation(i, number::one() as int);
}

/// A number compares as another that is the same.
proof fn lemma_same_order(a: Number, b: Number, n: Number)
    requires
        a.same(b),
    ensures
        !a.nan(),
        !b.nan(),
        a.less(n) == b.less(n),
        n.less(a) == n.less(b),
{
}

/// Values that are integers are ordered as the integers are, unless both are strings.
#[verifier::spinoff_prover]
#[verifier::rlimit(40)]
proof fn lemma_order_of_integers(a: Value, i: int, b: Value, j: int, env: Environment)
    requires
        env.standard(),
        denotes_integer(a, i, env),
        denotes_integer(b, j, env),
        !(a is Str && b is Str),
    ensures
        a.order(b, env) == Some(Order::of(i < j)),
{
    lemma_pow2_pos(1074);
    lemma_scaled_equal(i, j, number::one());
    match (a, b) {
        (Value::Str(s), Value::Boolean(_) | Value::Number(_)) => {
            let n = b.to_number(env)->0;
            lemma_small_units(n, j);
            number::law_nearest_number_keeps_order(i, n);
            lemma_same_order((env.number)(s), Number::of_int(i), n);
        },
        (Value::Boolean(_) | Value::Number(_), Value::Str(s)) => {
            let n = a.to_number(env)->0;
            lemma_small_units(n, i);
            number::law_nearest_number_keeps_order(j, n);
            lemma_same_order((env.number)(s), Number::of_int(j), n);
        },
        _ => {},
    }
}

/// What is known of an order of which the answer for a NaN is given.
pub open spec fn order_answer(order: Option<Order>, incomparable: bool) -> Tri {
    match order {
        Some(Order::Below) => Tri::True,
        Some(Order::NotBelow) => Tri::False,
        Some(Order::Incomparable) => Tri::of(incomparable),
        None => Tri::Unknown,
    }
}

/// An integer, as a BigInt or as a string, compares with a number that is neither as the rules
/// say, on either side of it.
#[verifier::spinoff_prover]
#[verifier::rlimit(40)]
proof fn lemma_order_of_integer_and_number(
    a: Value,
    i: int,
    b: Value,
    n: NumberValue,
    incomparable: bool,
    env: Environment,
)
    requires
        env.standard(),
        a is BigInt || a is Str,
        denotes_integer(a, i, env),
        !(b is Str),
        b.to_number(env) is Some,
        n.denotes(b.to_number(env)->0),
        a is Str ==> !(n is PositiveInfinity || n is NegativeInfinity),
        !(comparison::integer_less_than_number(i, n, Tri::False, incomparable) is Unknown),
    ensures
        comparison::integer_less_than_number(i, n, Tri::False, incomparable) == order_answer(
            a.order(b, env),
            incomparable,
        ),
        comparison::integer_less_than_number(i, n, Tri::True, incomparable) == order_answer(
            b.order(a, env),
            incomparable,
        ),
{
    let m = b.to_number(env)->0;
    match a {
        Value::Str(s) => {
            assert((env.number)(s).same(Number::of_int(i)));
            lemma_same_order((env.number)(s), Number::of_int(i), m);
            if n is Number {
                number::law_nearest_number_keeps_order(i, m);
            }
        },
        _ => {},
    }
}

/// A string of which an integer or a number is known is known itself.
proof fn lemma_string_is_known(e: Expr, ctx: &TraverseCtx, env: Environment)
    requires
        env.standard(),
        e.value(env) is Some,
        e.value(env)->0 is Str,
        e.bigint(ctx) is Some || e.number(ctx) is Some,
        ctx.lists(env),
    ensures
        e.ty() is Str,
        e.string(ctx) == Some(e.value(env)->0->Str_0),
        e.bigint(ctx) == bigint::string_value(e.value(env)->0->Str_0),
        !e.side_effects(),
{
    match e {
        Expr::Unary(u) => {
            if e.number(ctx) is Some {
                if u.argument.number(ctx) is Some {
                    law_number_is_that_of_the_value(*u.argument, ctx, env);
                }
            } else {
                law_integer_is_that_of_the_value(e, ctx, env);
                if u.argument.ty() is BigInt {
                    law_type_is_that_of_the_value(*u.argument, env);
                }
            }
        },
        _ => {},
    }
}

/// Of a number or a boolean of which an integer is known, the number is known.
proof fn lemma_number_is_known(e: Expr, ctx: &TraverseCtx, env: Environment)
    requires
        env.standard(),
        e.value(env) is Some,
        e.value(env)->0 is Number || e.value(env)->0 is Boolean,
        e.bigint(ctx) is Some,
    ensures
        e.number(ctx) is Some,
{
    match e {
        Expr::Unary(u) => {
            if u.argument.ty() is BigInt {
                law_type_is_that_of_the_value(*u.argument, env);
            }
        },
        _ => {},
    }
}

/// What has an integer and no number, and is not of type string, is a BigInt.
proof fn lemma_bigint_by_its_integer(e: Expr, ctx: &TraverseCtx, env: Environment)
    requires
        ctx.lists(env),
        env.standard(),
        e.value(env) is Some,
        e.bigint(ctx) is Some,
        e.number(ctx) is None,
        !(e.ty() is Str),
    ensures
        e.value(env)->0 is BigInt,
{
    law_integer_is_that_of_the_value(e, ctx, env);
    let v = e.value(env)->0;
    if v is Str {
        lemma_string_is_known(e, ctx, env);
    } else if v is Number || v is Boolean {
        lemma_number_is_known(e, ctx, env);
    }
}

/// The integer of one operand against the number of the other, on either side of it.
#[verifier::spinoff_prover]
#[verifier::rlimit(40)]
proof fn lemma_integer_against_number(
    left: Expr,
    right: Expr,
    incomparable: bool,
    ctx: &TraverseCtx,
    env: Environment,
)
    requires
        ctx.lists(env),
        env.standard(),
        left.value(env) is Some,
        right.value(env) is Some,
        !(left.value(env)->0 is Str && right.value(env)->0 is Str),
        left.bigint(ctx) is Some,
        left.number(ctx) is None,
        right.bigint(ctx) is None,
        right.number(ctx) is Some,
        right.ty() is Str ==> left.ty() is Str,
        left.ty() is Str ==> !(right.number(ctx)->0 is PositiveInfinity || right.number(ctx)->0
            is NegativeInfinity),
        !(comparison::integer_less_than_number(
            left.bigint(ctx)->0,
            right.number(ctx)->0,
            Tri::False,
            incomparable,
        ) is Unknown),
    ensures
        comparison::integer_less_than_number(
            left.bigint(ctx)->0,
            right.number(ctx)->0,
            Tri::False,
            incomparable,
        ) == order_answer(left.value(env)->0.order(right.value(env)->0, env), incomparable),
        comparison::integer_less_than_number(
            left.bigint(ctx)->0,
            right.number(ctx)->0,
            Tri::True,
            incomparable,
        ) == order_answer(right.value(env)->0.order(left.value(env)->0, env), incomparable),
{
    let (a, b) = (left.value(env)->0, right.value(env)->0);
    law_integer_is_that_of_the_value(left, ctx, env);
    law_number_is_that_of_the_value(right, ctx, env);
    if left.ty() is Str {
        law_type_is_that_of_the_value(left, env);
    } else {
        lemma_bigint_by_its_integer(left, ctx, env);
    }
    if b is Str {
        lemma_string_is_known(right, ctx, env);
    }
    lemma_order_of_integer_and_number(
        a,
        left.bigint(ctx)->0,
        b,
        right.number(ctx)->0,
        incomparable,
        env,
    );
}

/// A BigInt is incomparable with a string of which every integer is read and none was.
proof fn lemma_text_without_integer(
    big: Expr,
    operand: Expr,
    ctx: &TraverseCtx,
    env: Environment,
)
    requires
        ctx.lists(env),
        env.standard(),
        big.value(env) is Some,
        operand.value(env) is Some,
        comparison::bigint_against_text(big, operand, ctx),
        !big.side_effects(),
        operand.text_is_read(ctx),
    ensures
        big.value(env)->0.order(operand.value(env)->0, env) == Some(Order::Incomparable),
        operand.value(env)->0.order(big.value(env)->0, env) == Some(Order::Incomparable),
{
    lemma_bigint_by_its_integer(big, ctx, env);
    law_type_is_that_of_the_value(operand, env);
    lemma_unread_text(operand, ctx, env);
}

/// A known order by integers and numbers is that of the values, unless both are strings.
#[verifier::spinoff_prover]
#[verifier::rlimit(40)]
proof fn lemma_numeric_order(
    left: Expr,
    right: Expr,
    incomparable: bool,
    ctx: &TraverseCtx,
    env: Environment,
)
    requires
        ctx.lists(env),
        env.standard(),
        left.value(env) is Some,
        right.value(env) is Some,
        !(left.value(env)->0 is Str && right.value(env)->0 is Str),
        !left.side_effects(),
        !right.side_effects(),
        !(comparison::numeric_less(left, right, incomparable, ctx) is Unknown),
    ensures
        comparison::numeric_less(left, right, incomparable, ctx) == order_answer(
            left.value(env)->0.order(right.value(env)->0, env),
            incomparable,
        ),
{
    let (a, b) = (left.value(env)->0, right.value(env)->0);
    if left.bigint(ctx) is Some && right.bigint(ctx) is Some {
        law_integer_is_that_of_the_value(left, ctx, env);
        law_integer_is_that_of_the_value(right, ctx, env);
        lemma_order_of_integers(a, left.bigint(ctx)->0, b, right.bigint(ctx)->0, env);
    } else if left.number(ctx) is Some && right.number(ctx) is Some {
        law_number_is_that_of_the_value(left, ctx, env);
        law_number_is_that_of_the_value(right, ctx, env);
    } else if comparison::bigint_against_text(left, right, ctx) {
        lemma_text_without_integer(left, right, ctx, env);
    } else if comparison::bigint_against_text(right, left, ctx) {
        lemma_text_without_integer(right, left, ctx, env);
    } else if left.bigint(ctx) is Some && right.number(ctx) is Some {
        lemma_integer_against_number(left, right, incomparable, ctx, env);
    } else {
        assert(comparison::integer_less_than_number(
            right.bigint(ctx)->0,
            left.number(ctx)->0,
            Tri::True,
            incomparable,
        ) is Unknown <==> comparison::integer_less_than_number(
            right.bigint(ctx)->0,
            left.number(ctx)->0,
            Tri::False,
            incomparable,
        ) is Unknown);
        lemma_integer_against_number(right, left, incomparable, ctx, env);
    }
}

/// Two strings of which integers or numbers are known are both known.
proof fn lemma_numbers_of_strings(left: Expr, right: Expr, ctx: &TraverseCtx, env: Environment)
    requires
        ctx.lists(env),
        env.standard(),
        left.value(env) is Some,
        right.value(env) is Some,
        left.value(env)->0 is Str,
        right.value(env)->0 is Str,
        left.bigint(ctx) is Some || left.number(ctx) is Some,
        right.bigint(ctx) is Some || right.number(ctx) is Some,
    ensures
        left.ty() is Str,
        right.ty() is Str,
        left.string(ctx) is Some,
        right.string(ctx) is Some,
{
    lemma_string_is_known(left, ctx, env);
    lemma_string_is_known(right, ctx, env);
}

proof fn lemma_nothing_precedes_itself(units: Seq<int>)
    ensures
        !text::units_precede(units, units),
    decreases units.len(),
{
    if units.len() > 0 {
        lemma_nothing_precedes_itself(units.drop_first());
    }
}

/// A known order is that of the values.
#[verifier::spinoff_prover]
#[verifier::rlimit(40)]
pub proof fn law_order_is_that_of_the_values(
    left: Expr,
    right: Expr,
    incomparable: bool,
    ctx: &TraverseCtx,
    env: Environment,
)
    requires
        ctx.lists(env),
        env.standard(),
        !left.side_effects(),
        !right.side_effects(),
        variable_is_steady(left, right, env),
        !(comparison::relational(left, right, incomparable, ctx) is Unknown),
    ensures
        comparison::relational(left, right, incomparable, ctx) == order_answer(
            left.value(env)->0.order(right.value(env)->0, env),
            incomparable,
        ),
{
    law_effect_free_expressions_have_values(left, env);
    law_effect_free_expressions_have_values(right, env);
    let (a, b) = (left.value(env)->0, right.value(env)->0);
    if left.ty() is Str && right.ty() is Str {
        law_type_is_that_of_the_value(left, env);
        law_type_is_that_of_the_value(right, env);
        if left.string(ctx) is Some && right.string(ctx) is Some {
            law_string_is_that_of_the_value(left, ctx, env);
            law_string_is_that_of_the_value(right, ctx, env);
        } else if comparison::typeof_same_name(left, right) {
            lemma_nothing_precedes_itself(text::utf16(a->Str_0));
        } else {
            lemma_numbers_of_strings(left, right, ctx, env);
        }
    } else {
        if a is Str && b is Str {
            lemma_texts_are_typed(left, right, incomparable, ctx, env);
        }
        lemma_numeric_order(left, right, incomparable, ctx, env);
    }
}

/// An order of strings is known by integers or numbers only where both have the type of strings.
#[verifier::spinoff_prover]
#[verifier::rlimit(40)]
proof fn lemma_texts_are_typed(
    left: Expr,
    right: Expr,
    incomparable: bool,
    ctx: &TraverseCtx,
    env: Environment,
)
    requires
        ctx.lists(env),
        env.standard(),
        left.value(env) is Some,
        right.value(env) is Some,
        left.value(env)->0 is Str,
        right.value(env)->0 is Str,
        !(comparison::numeric_less(left, right, incomparable, ctx) is Unknown),
    ensures
        left.ty() is Str,
        right.ty() is Str,
{
    if left.bigint(ctx) is Some || left.number(ctx) is Some {
        lemma_string_is_known(left, ctx, env);
    }
    if right.bigint(ctx) is Some || right.number(ctx) is Some {
        lemma_string_is_known(right, ctx, env);
    }
}

/// Whether a comparison reads no name `NaN` that a variable of the program has, and no variable
/// that changes between its operands.
pub open spec fn comparison_decidable(
    operator: BinaryOperator,
    left: Expr,
    right: Expr,
    env: Environment,
) -> bool {
    &&& operator is StrictEquality || operator is StrictInequality ==> nan_by_name(left, env)
        && nan_by_name(right, env)
    &&& variable_is_steady(left, right, env)
}

/// A known comparison is what the operator makes of the values.
#[verifier::spinoff_prover]
#[verifier::rlimit(40)]
pub proof fn law_comparison_is_that_of_the_values(
    operator: BinaryOperator,
    left: Expr,
    right: Expr,
    ctx: &TraverseCtx,
    env: Environment,
)
    requires
        ctx.lists(env),
        env.standard(),
        comparison_decidable(operator, left, right, env),
        !(comparison::comparison(operator, left, right, ctx) is Unknown),
    ensures
        left.value(env) is Some,
        right.value(env) is Some,
        left.value(env)->0.binary(operator, right.value(env)->0, env) == Some(
            Value::Boolean(comparison::comparison(operator, left, right, ctx) is True),
        ),
{
    law_effect_free_expressions_have_values(left, env);
    law_effect_free_expressions_have_values(right, env);
    match operator {
        BinaryOperator::Equality | BinaryOperator::Inequality => {
            law_loose_equality_is_that_of_the_values(left, right, ctx, env);
        },
        BinaryOperator::StrictEquality | BinaryOperator::StrictInequality => {
            law_strict_equality_is_that_of_the_values(left, right, ctx, env);
        },
        BinaryOperator::LessThan => {
            law_order_is_that_of_the_values(left, right, false, ctx, env);
        },
        BinaryOperator::GreaterThan => {
            law_order_is_that_of_the_values(right, left, false, ctx, env);
        },
        BinaryOperator::LessEqualThan => {
            law_order_is_that_of_the_values(right, left, true, ctx, env);
        },
        BinaryOperator::GreaterEqualThan => {
            law_order_is_that_of_the_values(left, right, true, ctx, env);
        },
        _ => {},
    }
}

/// The 32-bit integer that a shift reads from a number agrees with it in the lowest 32 bits,
/// unless a negative one is cut off.
pub proof fn law_int32_keeps_the_lowest_bits(n: Number)
    requires
        n.integer_part() < 0 ==> (-n.integer_part()) % 0x1_0000_0000 <= 0x8000_0000,
    ensures
        n.int32() == n.low_int32(),
{
    let part = n.integer_part();
    if part < 0 {
        lemma_fundamental_div_mod(-part, 0x1_0000_0000);
        lemma_mod_multiples_vanish(
            -((-part) / 0x1_0000_0000),
            -((-part) % 0x1_0000_0000) + 0x8000_0000,
            0x1_0000_0000,
        );
    } else {
        lemma_fundamental_div_mod(part, 0x1_0000_0000);
        lemma_mod_multiples_vanish(
            part / 0x1_0000_0000,
            part % 0x1_0000_0000 + 0x8000_0000,
            0x1_0000_0000,
        );
    }
}

/// Whether the 32-bit integer that a shift reads from its left operand agrees with it in the
/// lowest 32 bits: a negative integer part is not cut off at the least 32-bit integer.
pub open spec fn shift_decidable(left: Expr, ctx: &TraverseCtx) -> bool {
    match left.number(ctx) {
        Some(NumberValue::Number(n)) => n.integer_part() < 0 ==> (-n.integer_part())
            % 0x1_0000_0000 <= 0x8000_0000,
        _ => true,
    }
}

/// A 32-bit integer taken for an unsigned one.
proof fn lemma_unsigned(n: int)
    requires
        -0x8000_0000 <= n < 0x8000_0000,
    ensures
        n % 0x1_0000_0000 == if n < 0 {
            n + 0x1_0000_0000
        } else {
            n
        },
{
}

/// A shift by less than 32 of a number that is not cut off.
#[verifier::spinoff_prover]
#[verifier::rlimit(40)]
proof fn lemma_shifted_number(
    operator: BinaryOperator,
    left: Value,
    right: Value,
    a: Number,
    b: Number,
    env: Environment,
)
    requires
        operator.shift(),
        left.to_number(env) == Some(a),
        right.to_number(env) == Some(b),
        a.integer_part() < 0 ==> (-a.integer_part()) % 0x1_0000_0000 <= 0x8000_0000,
        0 <= b.integer_part() < 32,
    ensures
        ({
            let n = Number::of_int(
                arithmetic::shifted(operator, a.int32(), b.integer_part() as nat),
            );
            !n.nan() && left.binary(operator, right, env) == Some(Value::Number(n))
        }),
{
    law_int32_keeps_the_lowest_bits(a);
    let count = b.integer_part() as nat;
    assert(b.low_int32() == count);
    lemma_unsigned(a.int32());
    arithmetic::law_shift_stays_in_range(operator, a.int32(), count);
    number::law_small_integers_are_exact(arithmetic::shifted(operator, a.int32(), count));
}

/// A folded shift has the value of the shift.
#[verifier::spinoff_prover]
#[verifier::rlimit(40)]
pub proof fn law_shift_keeps_the_value(e: Binary, ctx: &TraverseCtx, env: Environment)
    requires
        e.operator.shift(),
        ctx.lists(env),
        env.standard(),
        shift_decidable(*e.left, ctx),
        arithmetic::folded_shift(e.span, e.operator, *e.left, *e.right, ctx) is Some,
    ensures
        arithmetic::folded_shift(e.span, e.operator, *e.left, *e.right, ctx)->0.value(env)
            == Expr::Binary(e).value(env),
{
    law_effect_free_expressions_have_values(*e.left, env);
    law_effect_free_expressions_have_values(*e.right, env);
    law_number_is_that_of_the_value(*e.left, ctx, env);
    law_number_is_that_of_the_value(*e.right, ctx, env);
    lemma_shifted_number(
        e.operator,
        e.left.value(env)->0,
        e.right.value(env)->0,
        e.left.number(ctx)->0->Number_0,
        e.right.number(ctx)->0->Number_0,
        env,
    );
}

/// The text of a value, an object being converted as one without methods of its own is.
pub open spec fn plain_text(value: Value, env: Environment) -> Seq<char> {
    match value.to_text(env) {
        Some(text) => text,
        None => "[object Object]"@,
    }
}

/// Whether an object that is added to a string is converted as one without methods of its own is.
pub open spec fn addition_decidable(e: Binary, ctx: &TraverseCtx, env: Environment) -> bool {
    arithmetic::folded_addition(e.span, *e.left, *e.right, ctx) is Some && ((e.left.value(
        env,
    ) matches Some(Value::Object { .. })) || (e.right.value(env) matches Some(
        Value::Object { .. },
    ))) ==> (env.node)(Expr::Binary(e)) == Some(
        Value::Str(plain_text(e.left.value(env)->0, env) + plain_text(e.right.value(env)->0, env)),
    )
}

/// The sum of number values is the sum of the numbers that they denote.
proof fn lemma_sum(a: NumberValue, b: NumberValue, m: Number, n: Number)
    requires
        a.denotes(m),
        b.denotes(n),
        a.sum(b).number() is Some,
    ensures
        a.sum(b).number() == Some(m.sum(n)),
        !m.sum(n).nan(),
{
}

/// A folded addition has the value of the addition.
#[verifier::spinoff_prover]
#[verifier::rlimit(40)]
pub proof fn law_addition_keeps_the_value(e: Binary, ctx: &TraverseCtx, env: Environment)
    requires
        e.operator is Addition,
        ctx.lists(env),
        env.standard(),
        addition_decidable(e, ctx, env),
        arithmetic::folded_addition(e.span, *e.left, *e.right, ctx) is Some,
    ensures
        arithmetic::folded_addition(e.span, *e.left, *e.right, ctx)->0.value(env) == Expr::Binary(
            e,
        ).value(env),
{
    let (left, right) = (*e.left, *e.right);
    law_effect_free_expressions_have_values(left, env);
    law_effect_free_expressions_have_values(right, env);
    law_type_is_that_of_the_value(left, env);
    law_type_is_that_of_the_value(right, env);
    if left.ty() is Str || right.ty() is Str {
        law_string_is_that_of_the_value(left, ctx, env);
        law_string_is_that_of_the_value(right, ctx, env);
    } else {
        law_number_is_that_of_the_value(left, ctx, env);
        law_number_is_that_of_the_value(right, ctx, env);
        lemma_sum(
            left.number(ctx)->0,
            right.number(ctx)->0,
            left.value(env)->0.to_number(env)->0,
            right.value(env)->0.to_number(env)->0,
        );
    }
}

/// Whether a binary expression is none of those of which folding may change the value.
pub open spec fn binary_decidable(e: Binary, ctx: &TraverseCtx, env: Environment) -> bool {
    if e.operator.comparison() {
        comparison_decidable(e.operator, *e.left, *e.right, env)
    } else if e.operator.shift() {
        shift_decidable(*e.left, ctx)
    } else {
        addition_decidable(e, ctx, env)
    }
}

/// A folded binary expression has the value of the expression.
#[verifier::spinoff_prover]
#[verifier::rlimit(40)]
proof fn lemma_binary(e: Binary, evaluate: bool, ctx: &TraverseCtx, env: Environment)
    requires
        ctx.lists(env),
        env.standard(),
        binary_decidable(e, ctx, env),
        e.folded(evaluate, ctx) is Some,
    ensures
        e.folded(evaluate, ctx)->0.value(env) == Expr::Binary(e).value(env),
{
    if e.operator.comparison() {
        law_comparison_is_that_of_the_values(e.operator, *e.left, *e.right, ctx, env);
    } else if e.operator.shift() {
        law_shift_keeps_the_value(e, ctx, env);
    } else {
        law_addition_keeps_the_value(e, ctx, env);
    }
}

/// Whether a unary expression is none of those of which folding may change the value: `!` of a
/// BigInt zero that is not written `0n`, or of a literal that holds a NaN; `-` of a variable with
/// the name `NaN`; `typeof` of an operand that holds a `delete` and ends in an exception.
pub open spec fn unary_decidable(e: Unary, ctx: &TraverseCtx, env: Environment) -> bool {
    match e.operator {
        UnaryOperator::LogicalNot => match *e.argument {
            Expr::BigInt { raw, .. } => (bigint::literal_value(raw) matches Some(n) && (n == 0
                ==> raw == "0n"@)),
            Expr::Numeric { value, .. } => !value.nan(),
            _ => true,
        },
        UnaryOperator::UnaryNegation => nan_by_name(*e.argument, env),
        UnaryOperator::Typeof => e.folded(ctx) is Some && e.argument.deletes()
            ==> e.argument.value(env) is Some,
        _ => true,
    }
}

/// Nothing acts in a literal but a `delete`.
#[verifier::spinoff_prover]
#[verifier::rlimit(40)]
pub proof fn law_literals_have_no_effects(e: Expr, include_functions: bool)
    requires
        e.literal(include_functions),
        !e.deletes(),
    ensures
        !e.side_effects(),
        !e.active(),
    decreases e,
{
    parts::law_side_effects_are_acts_of_parts(e);
    match e {
        Expr::Array { elements, .. } => {
            assert forall|i: int| 0 <= i < elements.len() implies match #[trigger] elements[i] {
                Element::Value(x) => !x.side_effects(),
                Element::Spread(_) => false,
                Element::Elision(_) => true,
            } by {
                match elements[i] {
                    Element::Value(x) => {
                        assert forall|p: Expr| #[trigger] p.occurs(x) implies p.occurs(e) by {}
                        law_literals_have_no_effects(x, include_functions);
                    },
                    _ => {},
                }
            }
        },
        Expr::Object { properties, .. } => {
            assert forall|i: int| 0 <= i < properties.len() implies match #[trigger] properties[i] {
                Property::Value { key, value, .. } => !value.side_effects() && match key {
                    Some(k) => !k.side_effects(),
                    None => true,
                },
                Property::Spread(_) => false,
            } by {
                match properties[i] {
                    Property::Value { key, value, .. } => {
                        assert forall|p: Expr| #[trigger] p.occurs(value) implies p.occurs(e) by {}
                        law_literals_have_no_effects(value, include_functions);
                        match key {
                            Some(k) => {
                                assert forall|p: Expr| #[trigger] p.occurs(k) implies p.occurs(
                                    e,
                                ) by {}
                                law_literals_have_no_effects(k, include_functions);
                            },
                            None => {},
                        }
                    },
                    _ => {},
                }
            }
        },
        Expr::Unary(x) => {
            assert(e.occurs(e));
            assert forall|p: Expr| #[trigger] p.occurs(*x.argument) implies p.occurs(e) by {}
            assert(e.immutable());
            let argument = *x.argument;
            assert(argument.immutable());
            assert(argument.literal(include_functions));
            law_literals_have_no_effects(*x.argument, include_functions);
        },
        _ => {},
    }
}

/// The name that `typeof` of a literal is folded to is that of the type of its value.
proof fn lemma_typeof(e: Unary, env: Environment)
    requires
        env.standard(),
        e.typeof_name() is Some,
        e.argument.value(env) is Some,
    ensures
        e.argument.value(env)->0.typeof_name() == e.typeof_name()->0,
{
    if *e.argument is BigInt {
        law_type_is_that_of_the_value(*e.argument, env);
    }
}

/// The truth value of a literal is that of its value.
proof fn lemma_literal_boolean(e: Expr, env: Environment)
    requires
        e.literal_boolean() is Some,
        e matches Expr::BigInt { raw, .. } ==> (bigint::literal_value(raw) matches Some(n) && (n
            == 0 ==> raw == "0n"@)),
        e matches Expr::Numeric { value, .. } ==> !value.nan(),
    ensures
        e.value(env) is Some,
        e.value(env)->0.truthy() == e.literal_boolean()->0,
{
    lemma_unit_numbers();
    lemma_plain_zero();
}

/// A folded unary expression has the value of the expression.
#[verifier::spinoff_prover]
#[verifier::rlimit(40)]
proof fn lemma_unary(e: Unary, ctx: &TraverseCtx, env: Environment)
    requires
        env.standard(),
        unary_decidable(e, ctx, env),
        e.folded(ctx) is Some,
    ensures
        e.folded(ctx)->0.value(env) == Expr::Unary(e).value(env),
{
    match e.operator {
        UnaryOperator::LogicalNot => lemma_literal_boolean(*e.argument, env),
        UnaryOperator::Typeof => {
            if !e.argument.deletes() {
                law_literals_have_no_effects(*e.argument, true);
                law_effect_free_expressions_have_values(*e.argument, env);
            }
            lemma_typeof(e, env);
        },
        UnaryOperator::UnaryNegation => {
            let nan = Number { bits: NAN_BITS };
            assert(e.argument.value(env) == Some(Value::Number(nan)));
            assert(nan.opposite().nan());
        },
        _ => {},
    }
}

/// A folded AND or OR has the value of the expression.
#[verifier::spinoff_prover]
#[verifier::rlimit(40)]
pub proof fn law_and_or_keeps_the_value(e: Logical, ctx: &TraverseCtx, env: Environment)
    requires
        !(e.operator is Coalesce),
        ctx.lists(env),
        env.standard(),
        e.folded(ctx) is Some,
    ensures
        e.folded(ctx)->0.value(env) == Expr::Logical(e).value(env),
{
    match e.left.boolean(ctx).known() {
        Some(value) => {
            if e.left.value(env) is Some {
                law_truth_is_that_of_the_value(*e.left, ctx, env);
            } else if !e.left.side_effects() {
                law_effect_free_expressions_have_values(*e.left, env);
            }
            if !e.decided_by(value) && e.left.side_effects() {
                let both = seq![*e.left, *e.right];
                assert(both[0] == *e.left && both[1] == *e.right);
            }
        },
        None => {
            let left = (*e.left)->Logical_0;
            assert(*e.left == Expr::Logical(left));
            assert(Expr::Logical(left).value(env) == e.left.value(env));
            law_effect_free_expressions_have_values(*left.right, env);
            law_truth_is_that_of_the_value(*left.right, ctx, env);
        },
    }
}

/// `void` with its operand made `0` has the same value.
proof fn lemma_void(e: Unary, env: Environment)
    requires
        env.standard(),
        e.operator is Void,
    ensures
        Expr::Unary(e.reduced()).value(env) == Expr::Unary(e).value(env),
{
    if !e.side_effects() {
        law_effect_free_expressions_have_values(*e.argument, env);
        assert(Expr::zero().value(env) is Some);
    }
}

/// Whether an expression is none of those of which folding may change the value. Besides those of
/// its operators, a conditional expression is one whose test ends in an exception though its truth
/// value is known.
pub open spec fn decidable(
    e: Expr,
    evaluate: bool,
    ctx: &TraverseCtx,
    env: Environment,
) -> bool
    decreases e,
{
    match e {
        Expr::Binary(x) => binary_decidable(x, ctx, env),
        Expr::Unary(x) => unary_decidable(x, ctx, env),
        Expr::Conditional(x) => decidable(*x.test, evaluate, ctx, env) && (x.chosen(
            x.test.folded(evaluate, ctx),
            ctx,
        ) is Some ==> x.test.value(env) is Some),
        _ => true,
    }
}

/// Folding keeps the value of an expression, and keeps an exception one.
///
/// The value is that which ECMA-262 gives to the expression, in any environment, under conversions
/// between strings and numbers that the context lists correctly. Left out are the expressions that
/// [`decidable`] leaves out.
#[verifier::spinoff_prover]
#[verifier::rlimit(40)]
pub proof fn law_folding_keeps_the_value(
    e: Expr,
    evaluate: bool,
    ctx: &TraverseCtx,
    env: Environment,
)
    requires
        ctx.lists(env),
        env.standard(),
        decidable(e, evaluate, ctx, env),
    ensures
        e.folded(evaluate, ctx).value(env) == e.value(env),
    decreases e,
{
    match e {
        Expr::Binary(x) => {
            if x.folded(evaluate, ctx) is Some {
                lemma_binary(x, evaluate, ctx, env);
            }
        },
        Expr::Logical(x) => {
            if !(x.operator is Coalesce) && x.folded(ctx) is Some {
                law_and_or_keeps_the_value(x, ctx, env);
            }
        },
        Expr::Conditional(x) => {
            let test = x.test.folded(evaluate, ctx);
            law_folding_keeps_the_value(*x.test, evaluate, ctx, env);
            if x.chosen(test, ctx) is Some {
                law_truth_is_that_of_the_value(test, ctx, env);
            }
        },
        Expr::Unary(x) => {
            if x.folded(ctx) is Some {
                lemma_unary(x, ctx, env);
            } else if x.operator is Void {
                lemma_void(x, env);
            }
        },
        _ => {},
    }
}

/// A loop condition that is made the opposite equality keeps its value.
#[verifier::spinoff_prover]
#[verifier::rlimit(40)]
pub proof fn law_loop_condition_keeps_the_value(e: Expr, env: Environment)
    ensures
        e.loop_condition().value(env) == e.value(env),
{
    match e {
        Expr::Unary(u) => match *u.argument {
            Expr::Binary(b) => {
                if e.minimized_not() is Some {
                    assert(*u.argument == Expr::Binary(b));
                    let inverse = Binary { operator: b.operator.inverse()->0, ..b };
                    assert(e.loop_condition() == Expr::Binary(inverse));
                    assert(Expr::Binary(b).value(env) == u.argument.value(env));
                    assert(Binary { operator: b.operator, ..inverse } == b);
                }
            },
            _ => {},
        },
        _ => {},
    }
}

impl Stmt {
    /// What is executed of the statement, as far as its `if` statements choose: a statement, or
    /// nothing. There is no answer where a test ends in an exception.
    pub open spec fn executed(self, env: Environment) -> Option<Option<Stmt>>
        decreases self,
    {
        match self {
            Stmt::If { test, consequent, alternate, .. } => match test.value(env) {
                Some(value) => if value.truthy() {
                    consequent.executed(env)
                } else {
                    match alternate {
                        Some(a) => a.executed(env),
                        None => Some(None),
                    }
                },
                None => None,
            },
            Stmt::Empty { .. } => Some(None),
            Stmt::Variables(declaration) => if declaration.source is None {
                Some(None)
            } else {
                Some(Some(self))
            },
            _ => Some(Some(self)),
        }
    }

    /// Whether the tests of the `if` statements that folding visits are none of those of which it
    /// may change the value, and none ends in an exception though its truth value is known.
    pub open spec fn decidable(self, evaluate: bool, ctx: &TraverseCtx, env: Environment) -> bool
        decreases self,
    {
        match self {
            Stmt::If { test, alternate, .. } => decidable(test, evaluate, ctx, env) && (
            !(test.folded(evaluate, ctx).boolean(ctx) is Unknown) ==> test.value(env) is Some)
                && match alternate {
                Some(a) => a.decidable(evaluate, ctx, env),
                None => true,
            },
            _ => true,
        }
    }
}

/// Folding an `if` statement keeps what is executed.
#[verifier::spinoff_prover]
#[verifier::rlimit(40)]
pub proof fn law_if_keeps_what_is_executed(
    s: Stmt,
    evaluate: bool,
    ctx: &TraverseCtx,
    env: Environment,
)
    requires
        ctx.lists(env),
        env.standard(),
        s.decidable(evaluate, ctx, env),
    ensures
        s.folded_if(evaluate, ctx).executed(env) == s.executed(env),
    decreases s,
{
    match s {
        Stmt::If { test, alternate, .. } => {
            law_folding_keeps_the_value(test, evaluate, ctx, env);
            let folded = test.folded(evaluate, ctx);
            if !(folded.boolean(ctx) is Unknown) {
                law_truth_is_that_of_the_value(folded, ctx, env);
            }
            match alternate {
                Some(a) => law_if_keeps_what_is_executed(*a, evaluate, ctx, env),
                None => {},
            }
        },
        _ => {},
    }
}

} // verus!
