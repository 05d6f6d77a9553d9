//! The values of JavaScript and what its operators make of them, as ECMA-262 defines them.
//!
//! Nothing here is executed. These are the definitions against which the folding rules are proved
//! to keep the value of an expression. An [`Environment`] gives values to what the text does not
//! fix: variables, calls, conversions of objects and the like.
use vstd::arithmetic::power2::*;
use vstd::prelude::*;

use crate::bigint;
use crate::context::TraverseCtx;
use crate::model::{Binary, Expr, Logical};
use crate::number;
use crate::number::{Number, INFINITY_BITS, NAN_BITS};
use crate::number_value::NumberValue;
use crate::operator::{BinaryOperator, LogicalOperator, UnaryOperator};
use crate::text;
use crate::ty::Ty;

verus! {

/// A value. Of an object it is known only whether it can be called.
pub enum Value {
    Undefined,
    Null,
    Boolean(bool),
    Number(Number),
    BigInt(int),
    Str(Seq<char>),
    Object { callable: bool },
}

/// What the text of an expression does not tell: the conversions between strings and numbers,
/// StringToNumber and Number::toString, and what evaluating a part gives that no rule looks into.
/// Such a part has a value, or none where its evaluation ends in an exception.
pub struct Environment {
    pub number: spec_fn(Seq<char>) -> Number,
    pub text: spec_fn(Number) -> Seq<char>,
    pub node: spec_fn(Expr) -> Option<Value>,
}

/// Whether one value is below another; neither where a NaN is among them.
pub enum Order {
    Below,
    NotBelow,
    Incomparable,
}

impl Order {
    pub open spec fn of(below: bool) -> Order {
        if below {
            Order::Below
        } else {
            Order::NotBelow
        }
    }
}

/// StringToBigInt: the integer that a string denotes.
pub open spec fn string_integer(s: Seq<char>) -> Option<int> {
    bigint::integer_text(bigint::trimmed_end(bigint::trimmed_start(s)))
}

impl Environment {
    /// What holds of every environment. A text that denotes an integer gives the number nearest to
    /// it, and the numbers that are not finite have names. An expression in which nothing acts
    /// completes.
    pub open spec fn standard(self) -> bool {
        &&& forall|s: Seq<char>|
            string_integer(s) is Some ==> #[trigger] (self.number)(s).same(
                Number::of_int(string_integer(s)->0),
            )
        &&& (self.text)(Number { bits: NAN_BITS }) == "NaN"@
        &&& (self.text)(Number { bits: INFINITY_BITS }) == "Infinity"@
        &&& forall|e: Expr| !e.active() ==> (#[trigger] (self.node)(e)) is Some
    }

    /// What the environment gives for an expression whose values are of one kind: another value
    /// that it holds is read as some value of that kind.
    pub open spec fn given(self, e: Expr, kind: Kind) -> Option<Value> {
        match (self.node)(e) {
            Some(value) => Some(
                if kind.holds(value) {
                    value
                } else {
                    kind.example()
                },
            ),
            None => None,
        }
    }
}

/// What ECMA-262 says of the values of a form whatever its parts are.
pub enum Kind {
    Any,
    Boolean,
    BigInt,
    Number,
    /// A Number or a BigInt.
    Numeric,
    /// A string, a Number or a BigInt.
    Sum,
    Str,
    Object,
}

impl Kind {
    pub open spec fn holds(self, value: Value) -> bool {
        match self {
            Kind::Any => true,
            Kind::Boolean => value is Boolean,
            Kind::BigInt => value is BigInt,
            Kind::Number => value is Number,
            Kind::Numeric => value is Number || value is BigInt,
            Kind::Sum => value is Number || value is BigInt || value is Str,
            Kind::Str => value is Str,
            Kind::Object => value is Object,
        }
    }

    /// Some value of the kind.
    pub open spec fn example(self) -> Value {
        match self {
            Kind::Any => Value::Undefined,
            Kind::Boolean => Value::Boolean(false),
            Kind::BigInt => Value::BigInt(0),
            Kind::Number | Kind::Numeric | Kind::Sum => Value::Number(Number { bits: NAN_BITS }),
            Kind::Str => Value::Str(Seq::empty()),
            Kind::Object => Value::Object { callable: false },
        }
    }
}

/// The kind of the values of a binary operator on values of which it needs to know more.
pub open spec fn binary_kind(operator: BinaryOperator, left: Value, right: Value) -> Kind {
    match operator {
        BinaryOperator::Equality
        | BinaryOperator::Inequality
        | BinaryOperator::StrictEquality
        | BinaryOperator::StrictInequality
        | BinaryOperator::LessThan
        | BinaryOperator::LessEqualThan
        | BinaryOperator::GreaterThan
        | BinaryOperator::GreaterEqualThan
        | BinaryOperator::In
        | BinaryOperator::Instanceof => Kind::Boolean,
        BinaryOperator::Addition => if left is Str || right is Str {
            Kind::Str
        } else {
            Kind::Sum
        },
        BinaryOperator::ShiftRightZeroFill => Kind::Number,
        _ => Kind::Numeric,
    }
}

/// The kind of the values of a unary operator on values of which it needs to know more.
pub open spec fn unary_kind(operator: UnaryOperator) -> Kind {
    match operator {
        UnaryOperator::UnaryPlus => Kind::Number,
        UnaryOperator::Delete | UnaryOperator::LogicalNot => Kind::Boolean,
        UnaryOperator::Typeof => Kind::Str,
        UnaryOperator::UnaryNegation | UnaryOperator::BitwiseNot => Kind::Numeric,
        UnaryOperator::Void => Kind::Any,
    }
}

impl NumberValue {
    /// Whether this known value is the number `n`.
    pub open spec fn denotes(self, n: Number) -> bool {
        match self {
            NumberValue::Number(m) => m == n && !n.nan(),
            NumberValue::PositiveInfinity => n == Number { bits: INFINITY_BITS },
            NumberValue::NegativeInfinity => n == Number { bits: INFINITY_BITS }.opposite(),
            NumberValue::NaN => n.nan(),
        }
    }
}

impl TraverseCtx {
    /// Whether the listed conversions are those of the environment.
    pub open spec fn lists(&self, env: Environment) -> bool {
        &&& forall|s: Seq<char>|
            (#[trigger] self.number_of(s)) is Some ==> self.number_of(s)->0.denotes((env.number)(s))
        &&& forall|n: Number|
            (#[trigger] self.text_of(n)) is Some ==> self.text_of(n)->0 == (env.text)(n)
    }
}

impl Value {
    /// A number as a value: there is one NaN.
    pub open spec fn of_number(n: Number) -> Value {
        if n.nan() {
            Value::Number(Number { bits: NAN_BITS })
        } else {
            Value::Number(n)
        }
    }

    pub open spec fn ty(self) -> Ty {
        match self {
            Value::Undefined => Ty::Void,
            Value::Null => Ty::Null,
            Value::Boolean(_) => Ty::Boolean,
            Value::Number(_) => Ty::Number,
            Value::BigInt(_) => Ty::BigInt,
            Value::Str(_) => Ty::Str,
            Value::Object { .. } => Ty::Object,
        }
    }

    /// ToBoolean.
    pub open spec fn truthy(self) -> bool {
        match self {
            Value::Undefined | Value::Null => false,
            Value::Boolean(b) => b,
            Value::Number(n) => !n.nan() && !n.same(Number { bits: 0 }),
            Value::BigInt(n) => n != 0,
            Value::Str(s) => s.len() != 0,
            Value::Object { .. } => true,
        }
    }

    /// ToNumber. It fails on a BigInt, and what an object gives is not known.
    pub open spec fn to_number(self, env: Environment) -> Option<Number> {
        match self {
            Value::Undefined => Some(Number { bits: NAN_BITS }),
            Value::Null => Some(Number::of_int(0)),
            Value::Boolean(b) => Some(Number::of_int(if b { 1 } else { 0 })),
            Value::Number(n) => Some(n),
            Value::BigInt(_) => None,
            Value::Str(s) => Some((env.number)(s)),
            Value::Object { .. } => None,
        }
    }

    /// ToString. What an object gives is not known.
    pub open spec fn to_text(self, env: Environment) -> Option<Seq<char>> {
        match self {
            Value::Undefined => Some("undefined"@),
            Value::Null => Some("null"@),
            Value::Boolean(b) => Some(if b { "true"@ } else { "false"@ }),
            Value::Number(n) => Some((env.text)(n)),
            Value::BigInt(n) => Some(text::decimal_text(n)),
            Value::Str(s) => Some(s),
            Value::Object { .. } => None,
        }
    }

    /// The result of `typeof`.
    pub open spec fn typeof_name(self) -> Seq<char> {
        match self {
            Value::Undefined => "undefined"@,
            Value::Null => "object"@,
            Value::Boolean(_) => "boolean"@,
            Value::Number(_) => "number"@,
            Value::BigInt(_) => "bigint"@,
            Value::Str(_) => "string"@,
            Value::Object { callable } => if callable { "function"@ } else { "object"@ },
        }
    }

    /// IsStrictlyEqual. Whether two objects are one is not known.
    pub open spec fn strictly_equals(self, other: Value) -> Option<bool> {
        match (self, other) {
            (Value::Object { .. }, Value::Object { .. }) => None,
            (Value::Number(a), Value::Number(b)) => Some(a.same(b)),
            _ => Some(self == other),
        }
    }

    /// A boolean as the number that a loose equality compares in its place.
    pub open spec fn without_boolean(self) -> Value {
        match self {
            Value::Boolean(b) => Value::Number(Number::of_int(if b { 1 } else { 0 })),
            _ => self,
        }
    }

    /// IsLooselyEqual. What an object is converted to is not known.
    pub open spec fn equals(self, other: Value, env: Environment) -> Option<bool> {
        match (self.without_boolean(), other.without_boolean()) {
            (Value::Undefined | Value::Null, Value::Undefined | Value::Null) => Some(true),
            (Value::Undefined | Value::Null, _) | (_, Value::Undefined | Value::Null) => Some(
                false,
            ),
            (Value::Object { .. }, _) | (_, Value::Object { .. }) => None,
            (Value::Number(a), Value::Str(s)) => Some(a.same((env.number)(s))),
            (Value::Str(s), Value::Number(b)) => Some((env.number)(s).same(b)),
            (Value::BigInt(a), Value::Str(s)) => Some(string_integer(s) == Some(a)),
            (Value::Str(s), Value::BigInt(b)) => Some(string_integer(s) == Some(b)),
            (Value::BigInt(a), Value::Number(b)) => Some(
                b.finite() && a * number::one() == b.units(),
            ),
            (Value::Number(a), Value::BigInt(b)) => Some(
                a.finite() && a.units() == b * number::one(),
            ),
            (a, b) => a.strictly_equals(b),
        }
    }

    /// IsLessThan. What an object is converted to is not known.
    pub open spec fn order(self, other: Value, env: Environment) -> Option<Order> {
        match (self, other) {
            (Value::Object { .. }, _) | (_, Value::Object { .. }) => None,
            (Value::Str(a), Value::Str(b)) => Some(Order::of(text::precedes(a, b))),
            (Value::BigInt(a), Value::BigInt(b)) => Some(Order::of(a < b)),
            (Value::BigInt(a), Value::Str(s)) => match string_integer(s) {
                Some(b) => Some(Order::of(a < b)),
                None => Some(Order::Incomparable),
            },
            (Value::Str(s), Value::BigInt(b)) => match string_integer(s) {
                Some(a) => Some(Order::of(a < b)),
                None => Some(Order::Incomparable),
            },
            (Value::BigInt(a), _) => {
                let b = other.to_number(env)->0;
                Some(
                    if b.nan() {
                        Order::Incomparable
                    } else if b.infinite() {
                        Order::of(!b.negative())
                    } else {
                        Order::of(a * number::one() < b.units())
                    },
                )
            },
            (_, Value::BigInt(b)) => {
                let a = self.to_number(env)->0;
                Some(
                    if a.nan() {
                        Order::Incomparable
                    } else if a.infinite() {
                        Order::of(a.negative())
                    } else {
                        Order::of(a.units() < b * number::one())
                    },
                )
            },
            _ => {
                let (a, b) = (self.to_number(env)->0, other.to_number(env)->0);
                Some(
                    if a.nan() || b.nan() {
                        Order::Incomparable
                    } else {
                        Order::of(a.less(b))
                    },
                )
            },
        }
    }

    /// The addition operator. It fails on a BigInt and a number, and what an object is converted
    /// to is not known.
    pub open spec fn plus(self, other: Value, env: Environment) -> Option<Value> {
        if self is Object || other is Object {
            None
        } else if self is Str || other is Str {
            Some(Value::Str(self.to_text(env)->0 + other.to_text(env)->0))
        } else {
            match (self, other) {
                (Value::BigInt(a), Value::BigInt(b)) => Some(Value::BigInt(a + b)),
                (Value::BigInt(_), _) | (_, Value::BigInt(_)) => None,
                _ => Some(Value::of_number(self.to_number(env)->0.sum(other.to_number(env)->0))),
            }
        }
    }

    /// The shift operators on numbers: the left operand as a 32-bit integer, by the lowest five
    /// bits of the right one. To the left the lowest 32 bits are kept, to the right the quotient is
    /// rounded down, and `>>>` takes the integer for an unsigned one.
    pub open spec fn shift(self, operator: BinaryOperator, other: Value, env: Environment) -> Option<
        Value,
    > {
        match (self.to_number(env), other.to_number(env)) {
            (Some(a), Some(b)) => {
                let n = a.low_int32();
                let power = pow2((b.low_int32() % 32) as nat) as int;
                Some(
                    Value::Number(
                        Number::of_int(
                            match operator {
                                BinaryOperator::ShiftLeft => number::wrapped_int32(n * power),
                                BinaryOperator::ShiftRight => n / power,
                                _ => (if n < 0 { n + 0x1_0000_0000 } else { n }) / power,
                            },
                        ),
                    ),
                )
            },
            _ => None,
        }
    }

    /// What a binary operator makes of two values, where it depends on them alone.
    pub open spec fn binary(self, operator: BinaryOperator, other: Value, env: Environment) -> Option<
        Value,
    > {
        match operator {
            BinaryOperator::Equality => Value::answer(self.equals(other, env)),
            BinaryOperator::Inequality => Value::opposite_answer(self.equals(other, env)),
            BinaryOperator::StrictEquality => Value::answer(self.strictly_equals(other)),
            BinaryOperator::StrictInequality => Value::opposite_answer(
                self.strictly_equals(other),
            ),
            BinaryOperator::LessThan => match self.order(other, env) {
                Some(order) => Some(Value::Boolean(order is Below)),
                None => None,
            },
            BinaryOperator::GreaterThan => match other.order(self, env) {
                Some(order) => Some(Value::Boolean(order is Below)),
                None => None,
            },
            BinaryOperator::LessEqualThan => match other.order(self, env) {
                Some(order) => Some(Value::Boolean(order is NotBelow)),
                None => None,
            },
            BinaryOperator::GreaterEqualThan => match self.order(other, env) {
                Some(order) => Some(Value::Boolean(order is NotBelow)),
                None => None,
            },
            BinaryOperator::ShiftLeft
            | BinaryOperator::ShiftRight
            | BinaryOperator::ShiftRightZeroFill => self.shift(operator, other, env),
            BinaryOperator::Addition => self.plus(other, env),
            _ => None,
        }
    }

    pub open spec fn answer(answer: Option<bool>) -> Option<Value> {
        match answer {
            Some(b) => Some(Value::Boolean(b)),
            None => None,
        }
    }

    pub open spec fn opposite_answer(answer: Option<bool>) -> Option<Value> {
        match answer {
            Some(b) => Some(Value::Boolean(!b)),
            None => None,
        }
    }

    /// What a unary operator makes of a value; `void` and `delete` are not among them.
    pub open spec fn unary(self, operator: UnaryOperator, env: Environment) -> Option<Value> {
        match operator {
            UnaryOperator::LogicalNot => Some(Value::Boolean(!self.truthy())),
            UnaryOperator::Typeof => Some(Value::Str(self.typeof_name())),
            UnaryOperator::UnaryPlus => match self.to_number(env) {
                Some(n) => Some(Value::of_number(n)),
                None => None,
            },
            UnaryOperator::UnaryNegation => match self {
                Value::BigInt(n) => Some(Value::BigInt(-n)),
                _ => match self.to_number(env) {
                    Some(n) => Some(Value::of_number(n.opposite())),
                    None => None,
                },
            },
            UnaryOperator::BitwiseNot => match self {
                Value::BigInt(n) => Some(Value::BigInt(-n - 1)),
                _ => match self.to_number(env) {
                    Some(n) => Some(Value::Number(Number::of_int(-n.low_int32() - 1))),
                    None => None,
                },
            },
            _ => None,
        }
    }
}

/// The boolean that an equality gives, where the environment decides it.
pub open spec fn decided(outcome: Option<Value>, equal: bool) -> Option<Value> {
    match outcome {
        Some(value) => Some(Value::Boolean(value.truthy() == equal)),
        None => None,
    }
}

impl Binary {
    /// What the operator makes of the values of the operands. Where it depends on more, the
    /// environment decides. An inequality is the opposite of the equality.
    pub open spec fn outcome(self, left: Value, right: Value, env: Environment) -> Option<Value> {
        match left.binary(self.operator, right, env) {
            Some(value) => Some(value),
            None => match self.operator {
                BinaryOperator::Equality | BinaryOperator::StrictEquality => decided(
                    (env.node)(Expr::Binary(self)),
                    true,
                ),
                BinaryOperator::Inequality => decided(
                    (env.node)(
                        Expr::Binary(Binary { operator: BinaryOperator::Equality, ..self }),
                    ),
                    false,
                ),
                BinaryOperator::StrictInequality => decided(
                    (env.node)(
                        Expr::Binary(Binary { operator: BinaryOperator::StrictEquality, ..self }),
                    ),
                    false,
                ),
                operator => env.given(Expr::Binary(self), binary_kind(operator, left, right)),
            },
        }
    }
}

impl Expr {
    /// The value of the expression; none where its evaluation ends in an exception.
    pub open spec fn value(self, env: Environment) -> Option<Value>
        decreases self,
    {
        match self {
            Expr::Boolean { value, .. } => Some(Value::Boolean(value)),
            Expr::Null { .. } => Some(Value::Null),
            Expr::Numeric { value, .. } => Some(Value::of_number(value)),
            Expr::BigInt { raw, .. } => match bigint::literal_value(raw) {
                Some(n) => Some(Value::BigInt(n)),
                None => env.given(self, Kind::BigInt),
            },
            Expr::Str { value, .. } => Some(Value::Str(value)),
            Expr::Template { cooked, expressions, .. } => if cooked is Some && expressions.len()
                == 0 {
                Some(Value::Str(cooked->0))
            } else {
                env.given(self, Kind::Str)
            },
            Expr::New(_) => env.given(self, Kind::Object),
            Expr::Identifier(e) => if e.global && e.name == "undefined"@ {
                Some(Value::Undefined)
            } else if e.global && e.name == "NaN"@ {
                Some(Value::Number(Number { bits: NAN_BITS }))
            } else if e.global && e.name == "Infinity"@ {
                Some(Value::Number(Number { bits: INFINITY_BITS }))
            } else {
                (env.node)(self)
            },
            // The parts of an array or an object may end in an exception.
            Expr::RegExp(_) | Expr::Array { .. } | Expr::Object { .. } => if self.active() && (
            env.node)(self) is None {
                None
            } else {
                Some(Value::Object { callable: false })
            },
            Expr::Function(_) | Expr::ArrowFunction(_) | Expr::Class(_) => Some(
                Value::Object { callable: true },
            ),
            Expr::Assignment { operator, right, .. } => if right.value(env) is None || (env.node)(
                self,
            ) is None {
                None
            } else if operator is Assign {
                right.value(env)
            } else {
                (env.node)(self)
            },
            Expr::Parenthesized { expression, .. } => expression.value(env),
            Expr::TypeScript { expression, .. } => expression.value(env),
            Expr::Sequence { expressions, .. } => if expressions.len() == 0 {
                (env.node)(self)
            } else if forall|i: int|
                0 <= i < expressions.len() - 1 ==> (#[trigger] expressions[i]).value(env) is Some {
                expressions[expressions.len() - 1].value(env)
            } else {
                None
            },
            Expr::Conditional(e) => match e.test.value(env) {
                Some(test) => if test.truthy() {
                    e.consequent.value(env)
                } else {
                    e.alternate.value(env)
                },
                None => None,
            },
            Expr::Logical(e) => match e.left.value(env) {
                Some(left) => if e.goes_on(left) {
                    e.right.value(env)
                } else {
                    Some(left)
                },
                None => None,
            },
            Expr::Unary(e) => match e.argument.value(env) {
                Some(argument) => if e.operator is Void {
                    Some(Value::Undefined)
                } else {
                    match argument.unary(e.operator, env) {
                        Some(value) => Some(value),
                        None => env.given(self, unary_kind(e.operator)),
                    }
                },
                None => None,
            },
            Expr::Binary(e) => match (e.left.value(env), e.right.value(env)) {
                (Some(left), Some(right)) => e.outcome(left, right, env),
                _ => None,
            },
            _ => (env.node)(self),
        }
    }
}

impl Logical {
    /// Whether the right side is evaluated after a left side with this value.
    pub open spec fn goes_on(self, left: Value) -> bool {
        match self.operator {
            LogicalOperator::And => left.truthy(),
            LogicalOperator::Or => !left.truthy(),
            LogicalOperator::Coalesce => left is Undefined || left is Null,
        }
    }
}

} // verus!
