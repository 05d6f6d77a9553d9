//! The operators of JavaScript.
use vstd::prelude::*;

verus! {

#[derive(Clone, Copy, Debug, PartialEq, Eq, Structural)]
pub enum BinaryOperator {
    Equality,
    Inequality,
    StrictEquality,
    StrictInequality,
    LessThan,
    LessEqualThan,
    GreaterThan,
    GreaterEqualThan,
    ShiftLeft,
    ShiftRight,
    ShiftRightZeroFill,
    Addition,
    Subtraction,
    Multiplication,
    Division,
    Remainder,
    BitwiseOR,
    BitwiseXOR,
    BitwiseAnd,
    In,
    Instanceof,
    Exponential,
}

#[derive(Clone, Copy, Debug, PartialEq, Eq, Structural)]
pub enum LogicalOperator {
    Or,
    And,
    Coalesce,
}

#[derive(Clone, Copy, Debug, PartialEq, Eq, Structural)]
pub enum UnaryOperator {
    UnaryNegation,
    UnaryPlus,
    LogicalNot,
    BitwiseNot,
    Typeof,
    Void,
    Delete,
}

#[derive(Clone, Copy, Debug, PartialEq, Eq, Structural)]
pub enum AssignmentOperator {
    Assign,
    Addition,
    Subtraction,
    Multiplication,
    Division,
    Remainder,
    ShiftLeft,
    ShiftRight,
    ShiftRightZeroFill,
    BitwiseOR,
    BitwiseXOR,
    BitwiseAnd,
    LogicalAnd,
    LogicalOr,
    LogicalNullish,
    Exponential,
}

impl BinaryOperator {
    /// The equality operator with the opposite answer; there is none for other operators.
    pub open spec fn inverse(self) -> Option<BinaryOperator> {
        match self {
            BinaryOperator::Equality => Some(BinaryOperator::Inequality),
            BinaryOperator::Inequality => Some(BinaryOperator::Equality),
            BinaryOperator::StrictEquality => Some(BinaryOperator::StrictInequality),
            BinaryOperator::StrictInequality => Some(BinaryOperator::StrictEquality),
            _ => None,
        }
    }

    /// Whether this compares two operands.
    pub open spec fn comparison(self) -> bool {
        matches!(
            self,
            BinaryOperator::Equality
                | BinaryOperator::Inequality
                | BinaryOperator::StrictEquality
                | BinaryOperator::StrictInequality
                | BinaryOperator::LessThan
                | BinaryOperator::LessEqualThan
                | BinaryOperator::GreaterThan
                | BinaryOperator::GreaterEqualThan
        )
    }

    /// Whether this is one of the three shifts.
    pub open spec fn shift(self) -> bool {
        matches!(
            self,
            BinaryOperator::ShiftLeft
                | BinaryOperator::ShiftRight
                | BinaryOperator::ShiftRightZeroFill
        )
    }

    pub fn equality_inverse_operator(self) -> (r: Option<BinaryOperator>)
        ensures
            r == self.inverse(),
    {
        match self {
            BinaryOperator::Equality => Some(BinaryOperator::Inequality),
            BinaryOperator::Inequality => Some(BinaryOperator::Equality),
            BinaryOperator::StrictEquality => Some(BinaryOperator::StrictInequality),
            BinaryOperator::StrictInequality => Some(BinaryOperator::StrictEquality),
            _ => None,
        }
    }
}

} // verus!
