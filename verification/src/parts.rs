//! What stands in an expression or a statement, at any depth, and which forms act by themselves.
//!
//! Everything here is stated on the syntax alone.
use vstd::prelude::*;

use crate::model::{Binding, Element, Expr, Property, Stmt, Target, Variables};

verus! {

impl Expr {
    /// Whether the expression is `whole` or stands in it, at any depth.
    pub open spec fn occurs(self, whole: Expr) -> bool
        decreases whole,
    {
        self == whole || match whole {
            Expr::Template { expressions, .. } => exists|i: int|
                0 <= i < expressions.len() && self.occurs(#[trigger] expressions[i]),
            Expr::Array { elements, .. } => exists|i: int|
                0 <= i < elements.len() && match #[trigger] elements[i] {
                    Element::Value(e) => self.occurs(e),
                    _ => false,
                },
            Expr::Assignment { left, right, .. } => self.occurs(*right) || match left {
                Target::Member { object, .. } => self.occurs(*object),
                Target::Other(_) => false,
            },
            Expr::Binary(e) => self.occurs(*e.left) || self.occurs(*e.right),
            Expr::Conditional(e) => self.occurs(*e.test) || self.occurs(*e.consequent)
                || self.occurs(*e.alternate),
            Expr::Logical(e) => self.occurs(*e.left) || self.occurs(*e.right),
            Expr::Object { properties, .. } => exists|i: int|
                0 <= i < properties.len() && match #[trigger] properties[i] {
                    Property::Value { key, value, .. } => self.occurs(value) || match key {
                        Some(k) => self.occurs(k),
                        None => false,
                    },
                    Property::Spread(_) => false,
                },
            Expr::Parenthesized { expression, .. } => self.occurs(*expression),
            Expr::Sequence { expressions, .. } => exists|i: int|
                0 <= i < expressions.len() && self.occurs(#[trigger] expressions[i]),
            Expr::Unary(e) => self.occurs(*e.argument),
            Expr::TypeScript { expression, .. } => self.occurs(*expression),
            _ => false,
        }
    }

    /// Whether evaluating the expression does something by itself, whatever its parts do: an
    /// assignment, `new`, `delete`, a spread, and the calls, updates and other forms that are not
    /// looked into.
    pub open spec fn acts(self) -> bool {
        match self {
            Expr::Assignment { .. }
            | Expr::New(_)
            | Expr::TypeScript { .. }
            | Expr::Other(_) => true,
            Expr::Unary(e) => e.operator is Delete,
            Expr::Array { elements, .. } => exists|i: int|
                0 <= i < elements.len() && (#[trigger] elements[i]) is Spread,
            Expr::Object { properties, .. } => exists|i: int|
                0 <= i < properties.len() && (#[trigger] properties[i]) is Spread,
            _ => false,
        }
    }

    /// Whether something that acts stands in the expression.
    pub open spec fn active(self) -> bool {
        exists|part: Expr| #[trigger] part.occurs(self) && part.acts()
    }

    /// Whether a `delete` stands in the expression.
    pub open spec fn deletes(self) -> bool {
        exists|part: Expr| #[trigger] part.occurs(self) && (part matches Expr::Unary(e) && e.operator
            is Delete)
    }
}

/// Where nothing that acts stands in an expression, none stands in its parts.
proof fn lemma_inactive(part: Expr, whole: Expr)
    requires
        !whole.active(),
        forall|p: Expr| #[trigger] p.occurs(part) ==> p.occurs(whole),
    ensures
        !part.active(),
{
}

/// An expression may have side effects just where something that acts stands in it.
#[verifier::spinoff_prover]
#[verifier::rlimit(40)]
pub proof fn law_side_effects_are_acts_of_parts(e: Expr)
    ensures
        e.side_effects() == e.active(),
    decreases e,
{
    assert(e.occurs(e));
    match e {
        Expr::Template { expressions, .. } | Expr::Sequence { expressions, .. } => {
            assert forall|i: int| 0 <= i < expressions.len() implies (
            #[trigger] expressions[i]).side_effects() == expressions[i].active() by {
                law_side_effects_are_acts_of_parts(expressions[i]);
            }
            if e.side_effects() {
                let i = choose|i: int|
                    0 <= i < expressions.len() && (#[trigger] expressions[i]).side_effects();
                let part = choose|part: Expr|
                    #[trigger] part.occurs(expressions[i]) && part.acts();
                assert(part.occurs(e));
            }
            if e.active() {
                let part = choose|part: Expr| #[trigger] part.occurs(e) && part.acts();
                let i = choose|i: int|
                    0 <= i < expressions.len() && part.occurs(#[trigger] expressions[i]);
                assert(expressions[i].active());
            }
        },
        Expr::Array { elements, .. } => {
            assert forall|i: int| 0 <= i < elements.len() implies match #[trigger] elements[i] {
                Element::Value(x) => x.side_effects() == x.active(),
                _ => true,
            } by {
                match elements[i] {
                    Element::Value(x) => law_side_effects_are_acts_of_parts(x),
                    _ => {},
                }
            }
            if e.side_effects() {
                let i = choose|i: int|
                    0 <= i < elements.len() && match #[trigger] elements[i] {
                        Element::Value(x) => x.side_effects(),
                        Element::Spread(_) => true,
                        Element::Elision(_) => false,
                    };
                match elements[i] {
                    Element::Value(x) => {
                        let part = choose|part: Expr| #[trigger] part.occurs(x) && part.acts();
                        assert(part.occurs(e));
                    },
                    _ => assert(e.acts()),
                }
            }
            if e.active() {
                let part = choose|part: Expr| #[trigger] part.occurs(e) && part.acts();
                if part == e {
                    let i = choose|i: int|
                        0 <= i < elements.len() && (#[trigger] elements[i]) is Spread;
                    assert(elements[i] is Spread);
                } else {
                    let i = choose|i: int|
                        0 <= i < elements.len() && match #[trigger] elements[i] {
                            Element::Value(x) => part.occurs(x),
                            _ => false,
                        };
                    assert(elements[i]->Value_0.active());
                }
            }
        },
        Expr::Object { properties, .. } => {
            assert forall|i: int| 0 <= i < properties.len() implies match #[trigger] properties[i] {
                Property::Value { key, value, .. } => value.side_effects() == value.active()
                    && match key {
                    Some(k) => k.side_effects() == k.active(),
                    None => true,
                },
                _ => true,
            } by {
                match properties[i] {
                    Property::Value { key, value, .. } => {
                        law_side_effects_are_acts_of_parts(value);
                        match key {
                            Some(k) => law_side_effects_are_acts_of_parts(k),
                            None => {},
                        }
                    },
                    _ => {},
                }
            }
            if e.side_effects() {
                let i = choose|i: int|
                    0 <= i < properties.len() && match #[trigger] properties[i] {
                        Property::Value { key, value, .. } => value.side_effects() || match key {
                            Some(k) => k.side_effects(),
                            None => false,
                        },
                        Property::Spread(_) => true,
                    };
                match properties[i] {
                    Property::Value { key, value, .. } => {
                        let x = if value.side_effects() { value } else { key->0 };
                        let part = choose|part: Expr| #[trigger] part.occurs(x) && part.acts();
                        assert(part.occurs(e));
                    },
                    _ => assert(e.acts()),
                }
            }
            if e.active() {
                let part = choose|part: Expr| #[trigger] part.occurs(e) && part.acts();
                if part == e {
                    let i = choose|i: int|
                        0 <= i < properties.len() && (#[trigger] properties[i]) is Spread;
                    assert(properties[i] is Spread);
                } else {
                    let i = choose|i: int|
                        0 <= i < properties.len() && match #[trigger] properties[i] {
                            Property::Value { key, value, .. } => part.occurs(value) || match key {
                                Some(k) => part.occurs(k),
                                None => false,
                            },
                            Property::Spread(_) => false,
                        };
                    match properties[i] {
                        Property::Value { key, value, .. } => {
                            if part.occurs(value) {
                                assert(value.active());
                            } else {
                                assert(key->0.active());
                            }
                        },
                        _ => {},
                    }
                }
            }
        },
        Expr::Binary(x) => {
            law_side_effects_are_acts_of_parts(*x.left);
            law_side_effects_are_acts_of_parts(*x.right);
            lemma_two_parts(*x.left, *x.right, e);
        },
        Expr::Logical(x) => {
            law_side_effects_are_acts_of_parts(*x.left);
            law_side_effects_are_acts_of_parts(*x.right);
            lemma_two_parts(*x.left, *x.right, e);
        },
        Expr::Conditional(x) => {
            law_side_effects_are_acts_of_parts(*x.test);
            law_side_effects_are_acts_of_parts(*x.consequent);
            law_side_effects_are_acts_of_parts(*x.alternate);
            if e.active() {
                let part = choose|part: Expr| #[trigger] part.occurs(e) && part.acts();
                assert(part.occurs(*x.test) || part.occurs(*x.consequent) || part.occurs(
                    *x.alternate,
                ));
            } else {
                assert forall|p: Expr| #[trigger] p.occurs(*x.test) implies p.occurs(e) by {}
                assert forall|p: Expr| #[trigger] p.occurs(*x.consequent) implies p.occurs(e) by {}
                assert forall|p: Expr| #[trigger] p.occurs(*x.alternate) implies p.occurs(e) by {}
                lemma_inactive(*x.test, e);
                lemma_inactive(*x.consequent, e);
                lemma_inactive(*x.alternate, e);
            }
        },
        Expr::Parenthesized { expression, .. } => {
            law_side_effects_are_acts_of_parts(*expression);
            lemma_two_parts(*expression, *expression, e);
        },
        Expr::Unary(x) => {
            law_side_effects_are_acts_of_parts(*x.argument);
            if !(x.operator is Delete) {
                lemma_two_parts(*x.argument, *x.argument, e);
            }
        },
        _ => {
            if e.active() {
                let part = choose|part: Expr| #[trigger] part.occurs(e) && part.acts();
                assert(e.acts() || part == e);
            }
        },
    }
}

/// Something that acts stands in an expression of two parts just where it stands in one of them.
proof fn lemma_two_parts(left: Expr, right: Expr, whole: Expr)
    requires
        !whole.acts(),
        forall|p: Expr| #[trigger]
            p.occurs(whole) <==> p == whole || p.occurs(left) || p.occurs(right),
    ensures
        whole.active() == (left.active() || right.active()),
{
    if whole.active() {
        let part = choose|part: Expr| #[trigger] part.occurs(whole) && part.acts();
        assert(part.occurs(left) || part.occurs(right));
    } else {
        assert forall|p: Expr| #[trigger] p.occurs(left) implies p.occurs(whole) by {}
        assert forall|p: Expr| #[trigger] p.occurs(right) implies p.occurs(whole) by {}
        lemma_inactive(left, whole);
        lemma_inactive(right, whole);
    }
}

impl Stmt {
    /// Whether the statement is `whole` or stands in it, at any depth.
    pub open spec fn occurs(self, whole: Stmt) -> bool
        decreases whole,
    {
        self == whole || match whole {
            Stmt::Block { body, .. } => exists|i: int|
                0 <= i < body.len() && self.occurs(#[trigger] body[i]),
            Stmt::For { body, .. } => self.occurs(*body),
            Stmt::If { consequent, alternate, .. } => self.occurs(*consequent) || match alternate {
                Some(a) => self.occurs(*a),
                None => false,
            },
            Stmt::While { body, .. } => self.occurs(*body),
            _ => false,
        }
    }

    /// The declaration that the statement is, or that stands in its head.
    pub open spec fn declaration(self) -> Option<Variables> {
        match self {
            Stmt::Variables(declaration) => Some(declaration),
            Stmt::For { init, .. } => init,
            _ => None,
        }
    }

    /// Whether a `var` declaration of the name stands in the statement.
    pub open spec fn declares(self, name: Binding) -> bool {
        exists|part: Stmt| #[trigger]
            part.occurs(self) && (part.declaration() matches Some(declaration) && declaration.kind
                is Var && declaration.names.contains(name))
    }
}

} // verus!
