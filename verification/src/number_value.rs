//! The number values that an expression can be known to have.
use vstd::prelude::*;

use crate::number;
use crate::number::{Number, INFINITY_BITS, NAN_BITS, SIGN_BIT};

verus! {

/// A known number value.
#[derive(Clone, Copy, Debug, PartialEq, Eq, Structural)]
pub enum NumberValue {
    Number(Number),
    PositiveInfinity,
    NegativeInfinity,
    NaN,
}

impl NumberValue {
    /// The known value that a number is.
    pub open spec fn of(n: Number) -> NumberValue {
        if n.nan() {
            NumberValue::NaN
        } else if n.bits == INFINITY_BITS {
            NumberValue::PositiveInfinity
        } else if n.bits == SIGN_BIT + INFINITY_BITS {
            NumberValue::NegativeInfinity
        } else {
            NumberValue::Number(n)
        }
    }

    /// The number that the known value is.
    pub open spec fn double(self) -> Number {
        match self {
            NumberValue::Number(n) => n,
            NumberValue::PositiveInfinity => Number { bits: INFINITY_BITS },
            NumberValue::NegativeInfinity => Number { bits: (SIGN_BIT + INFINITY_BITS) as u64 },
            NumberValue::NaN => Number { bits: NAN_BITS },
        }
    }

    /// Equality of numbers: a NaN equals nothing, and an infinity is the same in either form.
    pub open spec fn same(self, other: NumberValue) -> bool {
        self.double().same(other.double())
    }

    pub open spec fn opposite(self) -> NumberValue {
        match self {
            NumberValue::Number(n) => NumberValue::Number(n.opposite()),
            NumberValue::PositiveInfinity => NumberValue::NegativeInfinity,
            NumberValue::NegativeInfinity => NumberValue::PositiveInfinity,
            NumberValue::NaN => NumberValue::NaN,
        }
    }

    pub open spec fn sum(self, other: NumberValue) -> NumberValue {
        NumberValue::of(self.double().sum(other.double()))
    }

    /// The value as a truth value: zeros and NaN are false.
    pub open spec fn truthy(self) -> bool {
        !self.double().nan() && !self.double().same(Number { bits: 0 })
    }

    /// The double that a literal can hold for the value; there is none for NaN.
    pub open spec fn number(self) -> Option<Number> {
        if self is NaN {
            None
        } else {
            Some(self.double())
        }
    }

    /// The known value that a number is.
    pub fn from_number(n: Number) -> (r: NumberValue)
        ensures
            r == NumberValue::of(n),
    {
        if n.is_nan() {
            NumberValue::NaN
        } else if n.bits == INFINITY_BITS {
            NumberValue::PositiveInfinity
        } else if n.bits == SIGN_BIT + INFINITY_BITS {
            NumberValue::NegativeInfinity
        } else {
            NumberValue::Number(n)
        }
    }

    /// The number that the known value is.
    pub fn to_double(self) -> (r: Number)
        ensures
            r == self.double(),
    {
        match self {
            NumberValue::Number(n) => n,
            NumberValue::PositiveInfinity => Number { bits: INFINITY_BITS },
            NumberValue::NegativeInfinity => Number { bits: SIGN_BIT + INFINITY_BITS },
            NumberValue::NaN => Number { bits: NAN_BITS },
        }
    }

    pub fn is_nan(self) -> (r: bool)
        ensures
            r == (self == NumberValue::NaN),
    {
        match self {
            NumberValue::NaN => true,
            _ => false,
        }
    }

    pub fn is_truthy(self) -> (r: bool)
        ensures
            r == self.truthy(),
    {
        let n: Number = self.to_double();
        !n.is_nan() && !n.is_same(Number { bits: 0 })
    }

    pub fn is_same(self, other: NumberValue) -> (r: bool)
        ensures
            r == self.same(other),
    {
        self.to_double().is_same(other.to_double())
    }

    pub fn negate(self) -> (r: NumberValue)
        ensures
            r == self.opposite(),
    {
        match self {
            NumberValue::Number(n) => NumberValue::Number(n.negate()),
            NumberValue::PositiveInfinity => NumberValue::NegativeInfinity,
            NumberValue::NegativeInfinity => NumberValue::PositiveInfinity,
            NumberValue::NaN => NumberValue::NaN,
        }
    }

    pub fn plus(self, other: NumberValue) -> (r: NumberValue)
        ensures
            r == self.sum(other),
    {
        NumberValue::from_number(self.to_double().plus(other.to_double()))
    }

    pub fn to_number(self) -> (r: Option<Number>)
        ensures
            r == self.number(),
    {
        match self {
            NumberValue::NaN => None,
            _ => Some(self.to_double()),
        }
    }
}

/// A known value is the number that it was made of, up to which NaN it is. Its opposite, its sum
/// with another and its truth value are those of the number, and it is a number unless it is NaN.
pub proof fn law_known_values_are_numbers(n: Number, a: NumberValue, b: NumberValue)
    ensures
        n.nan() ==> NumberValue::of(n) is NaN,
        !n.nan() ==> NumberValue::of(n).double() == n,
        n.infinite() ==> !(NumberValue::of(n) is Number),
        a is NaN <==> a.double().nan() && !(a is Number),
        a is PositiveInfinity ==> a.double().infinite() && !a.double().negative(),
        a is NegativeInfinity ==> a.double().infinite() && a.double().negative(),
        a matches NumberValue::Number(m) ==> a.double() == m,
        a.sum(b) is NaN <==> a.double().sum(b.double()).nan(),
        !(a.sum(b) is NaN) ==> a.sum(b).double() == a.double().sum(b.double()),
        a.same(b) <==> a.double().same(b.double()),
        a.truthy() <==> !a.double().nan() && !(a.double().finite() && a.double().units() == 0),
        !(a is NaN) ==> a.opposite().double() == a.double().opposite(),
        a is NaN ==> a.opposite() is NaN,
        a is NaN ==> a.number() is None,
        !(a is NaN) ==> a.number() == Some(a.double()),
{
    number::law_fields_of_numbers(Number { bits: 0 });
    number::law_numbers_are_ordered(a.double(), Number { bits: 0 }, n);
    vstd::arithmetic::power2::lemma2_to64();
}

} // verus!
