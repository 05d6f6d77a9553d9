//! Answers that may be unknown.
use vstd::prelude::*;

verus! {

/// A truth value, or that it is not known.
#[derive(Clone, Copy, Debug, PartialEq, Eq, Structural)]
pub enum Tri {
    True,
    False,
    Unknown,
}

impl Tri {
    pub open spec fn of(value: bool) -> Tri {
        if value {
            Tri::True
        } else {
            Tri::False
        }
    }

    pub open spec fn negation(self) -> Tri {
        match self {
            Tri::True => Tri::False,
            Tri::False => Tri::True,
            Tri::Unknown => Tri::Unknown,
        }
    }

    /// Whether just one of the two holds; unknown where either is.
    pub open spec fn differs(self, other: Tri) -> Tri {
        if self is Unknown || other is Unknown {
            Tri::Unknown
        } else {
            Tri::of(self != other)
        }
    }

    /// Whether both hold: one that does not decides, whatever the other is.
    pub open spec fn both(self, other: Tri) -> Tri {
        if self is False || other is False {
            Tri::False
        } else if self is True && other is True {
            Tri::True
        } else {
            Tri::Unknown
        }
    }

    /// Whether either holds: one that does decides, whatever the other is.
    pub open spec fn either(self, other: Tri) -> Tri {
        if self is True || other is True {
            Tri::True
        } else if self is False && other is False {
            Tri::False
        } else {
            Tri::Unknown
        }
    }

    pub open spec fn known(self) -> Option<bool> {
        match self {
            Tri::True => Some(true),
            Tri::False => Some(false),
            Tri::Unknown => None,
        }
    }

    pub fn not(self) -> (r: Tri)
        ensures
            r == self.negation(),
    {
        match self {
            Tri::True => Tri::False,
            Tri::False => Tri::True,
            Tri::Unknown => Tri::Unknown,
        }
    }

    pub fn xor(self, other: Tri) -> (r: Tri)
        ensures
            r == self.differs(other),
    {
        match (self, other) {
            (Tri::Unknown, _) | (_, Tri::Unknown) => Tri::Unknown,
            (Tri::True, Tri::False) | (Tri::False, Tri::True) => Tri::True,
            (Tri::True, Tri::True) | (Tri::False, Tri::False) => Tri::False,
        }
    }

    pub fn and(self, other: Tri) -> (r: Tri)
        ensures
            r == self.both(other),
    {
        match (self, other) {
            (Tri::False, _) | (_, Tri::False) => Tri::False,
            (Tri::True, Tri::True) => Tri::True,
            _ => Tri::Unknown,
        }
    }

    pub fn or(self, other: Tri) -> (r: Tri)
        ensures
            r == self.either(other),
    {
        match (self, other) {
            (Tri::True, _) | (_, Tri::True) => Tri::True,
            (Tri::False, Tri::False) => Tri::False,
            _ => Tri::Unknown,
        }
    }

    pub fn to_option(self) -> (r: Option<bool>)
        ensures
            r == self.known(),
    {
        match self {
            Tri::True => Some(true),
            Tri::False => Some(false),
            Tri::Unknown => None,
        }
    }
}

impl From<bool> for Tri {
    fn from(value: bool) -> (r: Tri) {
        if value {
            Tri::True
        } else {
            Tri::False
        }
    }
}

impl vstd::std_specs::convert::FromSpecImpl<bool> for Tri {
    open spec fn obeys_from_spec() -> bool {
        true
    }

    open spec fn from_spec(value: bool) -> Tri {
        Tri::of(value)
    }
}

/// What is known of answers is what holds of every truth value that they may stand for: one that is
/// known stands for itself, and one that is not for either.
pub proof fn law_answers_are_those_of_the_truth_values(a: Tri, b: Tri)
    ensures
        ({
            let may = |t: Tri, v: bool| t is Unknown || t == (if v { Tri::True } else { Tri::False });
            &&& forall|r: bool| #[trigger]
                may(a.negation(), r) <==> exists|x: bool| #[trigger] may(a, x) && r == !x
            &&& forall|r: bool| #[trigger]
                may(a.both(b), r) <==> exists|x: bool, y: bool| #[trigger]
                    may(a, x) && #[trigger] may(b, y) && r == (x && y)
            &&& forall|r: bool| #[trigger]
                may(a.either(b), r) <==> exists|x: bool, y: bool| #[trigger]
                    may(a, x) && #[trigger] may(b, y) && r == (x || y)
            &&& forall|r: bool| #[trigger]
                may(a.differs(b), r) <==> exists|x: bool, y: bool| #[trigger]
                    may(a, x) && #[trigger] may(b, y) && r == (x != y)
        }),
        a.known() is None <==> a is Unknown,
        a.known() == Some(true) <==> a is True,
        a.known() == Some(false) <==> a is False,
{
    let may = |t: Tri, v: bool| t is Unknown || t == (if v { Tri::True } else { Tri::False });
    assert(may(a, true) || may(a, false));
    assert(may(b, true) || may(b, false));
    assert(may(a, true) == !(a is False) && may(a, false) == !(a is True));
    assert(may(b, true) == !(b is False) && may(b, false) == !(b is True));
}

} // verus!
