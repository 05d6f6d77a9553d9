//! What the form of an expression tells about its value and its effects.
use vstd::prelude::*;

use crate::ast::{
    ArrayExpressionElement, AssignmentTarget, Expression, IdentifierReference, MemberExpression,
    ObjectPropertyKind, Span, UnaryExpression,
};
use crate::bigint;
use crate::bigint::BigInt;
use crate::context::TraverseCtx;
use crate::model;
use crate::model::{Element, Expr, Identifier, Property, Target, Unary};
use crate::number;
use crate::number::Number;
use crate::number_value::NumberValue;
use crate::operator::{AssignmentOperator, LogicalOperator, UnaryOperator};
use crate::text;
use crate::tri::Tri;
use crate::ty::Ty;

verus! {

impl Identifier {
    /// Whether this reads the global `undefined`.
    pub open spec fn undefined(self) -> bool {
        self.global && self.name == "undefined"@
    }

    /// Whether this reads the global `NaN`.
    pub open spec fn not_a_number(self) -> bool {
        self.global && self.name == "NaN"@
    }

    /// Whether this reads the global `Infinity`.
    pub open spec fn infinity(self) -> bool {
        self.global && self.name == "Infinity"@
    }
}

impl Unary {
    /// Deleting changes state; any other unary operator does what its operand does.
    pub open spec fn side_effects(self) -> bool {
        self.operator is Delete || self.argument.side_effects()
    }
}

impl Number {
    /// The number as an integer, where it is one below `2^53` in magnitude.
    pub open spec fn small_integer(self) -> Option<int> {
        if self.integral() && number::magnitude(self.magnitude_bits())
            < vstd::arithmetic::power2::pow2(53) * number::one() {
            Some(self.integer_part())
        } else {
            None
        }
    }
}

/// The integer that a number value is, where it is one below `2^53` in magnitude.
pub open spec fn small_integer(value: Option<NumberValue>) -> Option<int> {
    match value {
        Some(NumberValue::Number(n)) => n.small_integer(),
        _ => None,
    }
}

impl Expr {
    /// Whether evaluating the expression may do more than give a value.
    pub open spec fn side_effects(self) -> bool
        decreases self,
    {
        match self {
            Expr::Numeric { .. }
            | Expr::Boolean { .. }
            | Expr::Str { .. }
            | Expr::BigInt { .. }
            | Expr::Null { .. }
            | Expr::RegExp(_)
            | Expr::MetaProperty(_)
            | Expr::This(_)
            | Expr::Class(_)
            | Expr::Function(_)
            | Expr::ArrowFunction(_)
            | Expr::Identifier(_) => false,
            Expr::Template { expressions, .. } => exists|i: int|
                0 <= i < expressions.len() && (#[trigger] expressions[i]).side_effects(),
            Expr::Unary(e) => e.operator is Delete || e.argument.side_effects(),
            Expr::Parenthesized { expression, .. } => expression.side_effects(),
            Expr::Conditional(e) => e.test.side_effects() || e.consequent.side_effects()
                || e.alternate.side_effects(),
            Expr::Sequence { expressions, .. } => exists|i: int|
                0 <= i < expressions.len() && (#[trigger] expressions[i]).side_effects(),
            Expr::Binary(e) => e.left.side_effects() || e.right.side_effects(),
            Expr::Logical(e) => e.left.side_effects() || e.right.side_effects(),
            Expr::Object { properties, .. } => exists|i: int|
                0 <= i < properties.len() && match #[trigger] properties[i] {
                    Property::Value { key, value, .. } => value.side_effects() || match key {
                        Some(k) => k.side_effects(),
                        None => false,
                    },
                    Property::Spread(_) => true,
                },
            Expr::Array { elements, .. } => exists|i: int|
                0 <= i < elements.len() && match #[trigger] elements[i] {
                    Element::Value(e) => e.side_effects(),
                    Element::Spread(_) => true,
                    Element::Elision(_) => false,
                },
            _ => true,
        }
    }

    /// Whether the value of the expression is fixed by its text and cannot be changed.
    pub open spec fn immutable(self) -> bool
        decreases self,
    {
        match self {
            Expr::Boolean { .. }
            | Expr::Null { .. }
            | Expr::Numeric { .. }
            | Expr::BigInt { .. }
            | Expr::RegExp(_)
            | Expr::Str { .. } => true,
            Expr::Template { expressions, .. } => expressions.len() == 0,
            Expr::Unary(e) => e.argument.immutable(),
            Expr::Identifier(e) => e.name == "undefined"@ || e.name == "Infinity"@ || e.name
                == "NaN"@,
            _ => false,
        }
    }

    /// Whether the expression is a literal, arrays and objects of literals included, and
    /// functions where `include_functions` says so.
    pub open spec fn literal(self, include_functions: bool) -> bool
        decreases self,
    {
        match self {
            Expr::Function(_) | Expr::ArrowFunction(_) => include_functions,
            Expr::Array { elements, .. } => forall|i: int|
                0 <= i < elements.len() ==> match #[trigger] elements[i] {
                    Element::Value(e) => e.literal(include_functions),
                    Element::Spread(_) => false,
                    Element::Elision(_) => true,
                },
            Expr::Object { properties, .. } => forall|i: int|
                0 <= i < properties.len() ==> match #[trigger] properties[i] {
                    Property::Value { key, value, .. } => value.literal(include_functions)
                        && match key {
                        Some(k) => k.literal(include_functions),
                        None => true,
                    },
                    Property::Spread(_) => false,
                },
            _ => self.immutable(),
        }
    }

    /// The truth value of a literal of a primitive type or of a regular expression.
    pub open spec fn literal_boolean(self) -> Option<bool> {
        match self {
            Expr::Boolean { value, .. } => Some(value),
            Expr::Null { .. } => Some(false),
            Expr::Numeric { value, .. } => Some(!value.same(Number { bits: 0 })),
            Expr::BigInt { raw, .. } => Some(raw != "0n"@),
            Expr::RegExp(_) => Some(true),
            Expr::Str { value, .. } => Some(value.len() != 0),
            _ => None,
        }
    }

    /// The expression under parentheses and type annotations.
    pub open spec fn inner(self) -> Expr
        decreases self,
    {
        match self {
            Expr::Parenthesized { expression, .. } => expression.inner(),
            Expr::TypeScript { expression, .. } => expression.inner(),
            _ => self,
        }
    }

    /// Whether the expression is the name `name`, under parentheses and type annotations.
    pub open spec fn specific_id(self, name: Seq<char>) -> bool {
        self.inner() matches Expr::Identifier(e) && e.name == name
    }

    /// Whether the expression is a name `NaN`.
    pub open spec fn named_nan(self) -> bool {
        self matches Expr::Identifier(e) && e.name == "NaN"@
    }

    /// Whether the expression is a literal zero.
    pub open spec fn number_0(self) -> bool {
        self matches Expr::Numeric { value, .. } && value.same(Number { bits: 0 })
    }

    /// The truth value of the expression.
    pub open spec fn boolean(self, ctx: &TraverseCtx) -> Tri
        decreases self, 1nat,
    {
        match self {
            Expr::RegExp(_)
            | Expr::Array { .. }
            | Expr::ArrowFunction(_)
            | Expr::Class(_)
            | Expr::Function(_)
            | Expr::New(_)
            | Expr::Object { .. } => Tri::True,
            Expr::Null { .. } => Tri::False,
            Expr::Boolean { value, .. } => Tri::of(value),
            Expr::Numeric { value, .. } => Tri::of(NumberValue::Number(value).truthy()),
            Expr::BigInt { raw, .. } => match bigint::literal_value(raw) {
                Some(n) => Tri::of(n != 0),
                None => Tri::Unknown,
            },
            Expr::Str { value, .. } => Tri::of(value.len() != 0),
            Expr::Template { cooked, expressions, .. } => match cooked {
                Some(s) => if expressions.len() == 0 {
                    Tri::of(s.len() != 0)
                } else {
                    Tri::Unknown
                },
                None => Tri::Unknown,
            },
            Expr::Identifier(e) => if e.undefined() || e.not_a_number() {
                Tri::False
            } else if e.infinity() {
                Tri::True
            } else {
                Tri::Unknown
            },
            // A plain assignment has the value of its right side.
            Expr::Assignment { operator, right, .. } => if operator is Assign {
                right.boolean(ctx)
            } else {
                Tri::Unknown
            },
            Expr::Logical(e) => match e.operator {
                LogicalOperator::And => e.left.boolean(ctx).both(e.right.boolean(ctx)),
                LogicalOperator::Or => e.left.boolean(ctx).either(e.right.boolean(ctx)),
                LogicalOperator::Coalesce => Tri::Unknown,
            },
            Expr::Sequence { expressions, .. } => if expressions.len() > 0 {
                expressions[expressions.len() - 1].boolean(ctx)
            } else {
                Tri::Unknown
            },
            Expr::Unary(e) => match e.operator {
                UnaryOperator::Void => Tri::False,
                UnaryOperator::LogicalNot => e.argument.boolean(ctx).negation(),
                UnaryOperator::BitwiseNot
                | UnaryOperator::UnaryPlus
                | UnaryOperator::UnaryNegation => match self.number(ctx) {
                    Some(value) => Tri::of(value.truthy()),
                    None => Tri::Unknown,
                },
                _ => Tri::Unknown,
            },
            _ => Tri::Unknown,
        }
    }

    /// The value of the expression as a number.
    pub open spec fn number(self, ctx: &TraverseCtx) -> Option<NumberValue>
        decreases self, 0nat,
    {
        match self {
            Expr::Numeric { value, .. } => Some(
                if value.nan() {
                    NumberValue::NaN
                } else {
                    NumberValue::Number(value)
                },
            ),
            Expr::Boolean { value, .. } => Some(
                NumberValue::Number(Number::of_int(if value { 1 } else { 0 })),
            ),
            Expr::Null { .. } => Some(NumberValue::Number(Number::of_int(0))),
            Expr::Str { value, .. } => ctx.number_of(value),
            Expr::Template { cooked, expressions, .. } => match cooked {
                Some(s) => if expressions.len() == 0 {
                    ctx.number_of(s)
                } else {
                    None
                },
                None => None,
            },
            Expr::Identifier(e) => if e.infinity() {
                Some(NumberValue::PositiveInfinity)
            } else if e.not_a_number() || e.undefined() {
                Some(NumberValue::NaN)
            } else {
                None
            },
            Expr::Unary(e) => match e.operator {
                UnaryOperator::UnaryPlus => e.argument.number(ctx),
                UnaryOperator::UnaryNegation => match e.argument.number(ctx) {
                    Some(value) => Some(value.opposite()),
                    None => None,
                },
                UnaryOperator::BitwiseNot => match e.argument.number(ctx) {
                    Some(NumberValue::Number(n)) => Some(
                        NumberValue::Number(Number::of_int(-n.low_int32() - 1)),
                    ),
                    Some(_) => Some(NumberValue::Number(Number::of_int(-1))),
                    None => None,
                },
                UnaryOperator::LogicalNot => match e.argument.boolean(ctx) {
                    Tri::True => Some(NumberValue::Number(Number::of_int(0))),
                    Tri::False => Some(NumberValue::Number(Number::of_int(1))),
                    Tri::Unknown => None,
                },
                UnaryOperator::Void => Some(NumberValue::NaN),
                _ => None,
            },
            _ => None,
        }
    }

    /// The value of the expression as an integer of any size.
    pub open spec fn bigint(self, ctx: &TraverseCtx) -> Option<int>
        decreases self,
    {
        match self {
            Expr::Numeric { value, .. } => value.small_integer(),
            Expr::BigInt { raw, .. } => bigint::literal_value(raw),
            Expr::Boolean { value, .. } => Some(if value { 1int } else { 0int }),
            Expr::Str { value, .. } => bigint::string_value(value),
            Expr::Template { cooked, expressions, .. } => match cooked {
                Some(s) => if expressions.len() == 0 {
                    bigint::string_value(s)
                } else {
                    None
                },
                None => None,
            },
            Expr::Unary(e) => match e.operator {
                UnaryOperator::LogicalNot => match e.argument.boolean(ctx) {
                    Tri::True => Some(0),
                    Tri::False => Some(1),
                    Tri::Unknown => None,
                },
                UnaryOperator::UnaryNegation => if e.argument.ty() is BigInt {
                    match e.argument.bigint(ctx) {
                        Some(n) => Some(-n),
                        None => None,
                    }
                } else {
                    small_integer(self.number(ctx))
                },
                // Of a Number only 32 bits are inverted, of a BigInt all.
                UnaryOperator::BitwiseNot => match e.argument.bigint(ctx) {
                    Some(n) => if e.argument.ty() is BigInt {
                        Some(-n - 1)
                    } else {
                        None
                    },
                    None => None,
                },
                // The plus sign is an error in front of a BigInt.
                UnaryOperator::UnaryPlus => if e.argument.ty() is BigInt {
                    None
                } else {
                    small_integer(self.number(ctx))
                },
                _ => None,
            },
            _ => None,
        }
    }

    /// The value of the expression as a string.
    pub open spec fn string(self, ctx: &TraverseCtx) -> Option<Seq<char>> {
        match self {
            Expr::Str { value, .. } => Some(value),
            Expr::Template { cooked, expressions, .. } => if expressions.len() == 0 {
                cooked
            } else {
                None
            },
            Expr::Identifier(e) => if e.undefined() || e.infinity() || e.not_a_number() {
                Some(e.name)
            } else {
                None
            },
            Expr::Numeric { value, .. } => if value.nan() {
                Some("NaN"@)
            } else {
                ctx.text_of(value)
            },
            Expr::BigInt { raw, .. } => match bigint::literal_value(raw) {
                Some(n) => Some(text::decimal_text(n)),
                None => None,
            },
            Expr::Null { .. } => Some("null"@),
            Expr::Boolean { value, .. } => Some(if value { "true"@ } else { "false"@ }),
            Expr::Unary(e) => match e.operator {
                UnaryOperator::Void => Some("undefined"@),
                UnaryOperator::LogicalNot => match e.argument.boolean(ctx) {
                    Tri::True => Some("false"@),
                    Tri::False => Some("true"@),
                    Tri::Unknown => None,
                },
                _ => None,
            },
            // Any property could change the conversion.
            Expr::Object { properties, .. } => if properties.len() == 0 {
                Some("[object Object]"@)
            } else {
                None
            },
            _ => None,
        }
    }

    /// The number value, where evaluating the expression has no effect.
    pub open spec fn side_free_number(self, ctx: &TraverseCtx) -> Option<NumberValue> {
        if self.side_effects() {
            None
        } else {
            self.number(ctx)
        }
    }

    /// The integer value, where evaluating the expression has no effect.
    pub open spec fn side_free_bigint(self, ctx: &TraverseCtx) -> Option<int> {
        if self.side_effects() {
            None
        } else {
            self.bigint(ctx)
        }
    }

    /// Whether the integer that a string denotes is read wherever there is one. The name of a type
    /// denotes none. It may be missed in a string that is not known or has a vertical tab, which
    /// engines do not agree on.
    pub open spec fn text_is_read(self, ctx: &TraverseCtx) -> bool {
        self is Unary || (self.side_free_string(ctx) is Some
            && !self.side_free_string(ctx)->0.contains('\u{b}'))
    }

    /// The string value, where evaluating the expression has no effect.
    pub open spec fn side_free_string(self, ctx: &TraverseCtx) -> Option<Seq<char>> {
        if self.side_effects() {
            None
        } else {
            self.string(ctx)
        }
    }
}

impl Target {
    /// Whether the target is the member `property` of the variable `object`.
    pub open spec fn specific_member(self, object: Seq<char>, property: Seq<char>) -> bool {
        self matches Target::Member { object: o, property: p, .. } && o.specific_id(object) && p
            == Some(property)
    }
}

impl Expression {
    pub fn span(&self) -> (r: Span)
        ensures
            r == self@.span(),
    {
        match self {
            Expression::BooleanLiteral(e) => e.span,
            Expression::NullLiteral(e) => e.span,
            Expression::NumericLiteral(e) => e.span,
            Expression::BigIntLiteral(e) => e.span,
            Expression::RegExpLiteral(node) => node.span,
            Expression::StringLiteral(e) => e.span,
            Expression::TemplateLiteral(e) => e.node.span,
            Expression::Identifier(e) => e.node.span,
            Expression::MetaProperty(node) => node.span,
            Expression::ArrayExpression(e) => e.node.span,
            Expression::ArrowFunctionExpression(node) => node.span,
            Expression::AssignmentExpression(e) => e.span,
            Expression::BinaryExpression(e) => e.span,
            Expression::ClassExpression(node) => node.span,
            Expression::ConditionalExpression(e) => e.span,
            Expression::FunctionExpression(node) => node.span,
            Expression::LogicalExpression(e) => e.span,
            Expression::NewExpression(node) => node.span,
            Expression::ObjectExpression(e) => e.node.span,
            Expression::ParenthesizedExpression(e) => e.span,
            Expression::SequenceExpression(e) => e.span,
            Expression::ThisExpression(node) => node.span,
            Expression::UnaryExpression(e) => e.span,
            Expression::TSExpression(e) => e.node.span,
            Expression::Other(node) => node.span,
        }
    }

    pub fn may_have_side_effects(&self) -> (r: bool)
        ensures
            r == self@.side_effects(),
        decreases self,
    {
        match self {
            Expression::NumericLiteral(_)
            | Expression::BooleanLiteral(_)
            | Expression::StringLiteral(_)
            | Expression::BigIntLiteral(_)
            | Expression::NullLiteral(_)
            | Expression::RegExpLiteral(_)
            | Expression::MetaProperty(_)
            | Expression::ThisExpression(_)
            | Expression::ClassExpression(_)
            | Expression::FunctionExpression(_)
            | Expression::ArrowFunctionExpression(_)
            | Expression::Identifier(_) => false,
            Expression::TemplateLiteral(e) => {
                let ghost expressions = self@->Template_expressions;
                let mut i: usize = 0;
                while i < e.expressions.len()
                    invariant
                        *self == Expression::TemplateLiteral(*e),
                        expressions == self@->Template_expressions,
                        i <= expressions.len() == e.expressions@.len(),
                        forall|j: int| 0 <= j < i ==> !(#[trigger] expressions[j]).side_effects(),
                    decreases e.expressions.len() - i,
                {
                    let effects: bool = e.expressions[i].may_have_side_effects();
                    assert(expressions[i as int] == e.expressions@[i as int]@);
                    if effects {
                        return true;
                    }
                    i = i + 1;
                }
                false
            },
            Expression::UnaryExpression(e) => e.operator == UnaryOperator::Delete
                || e.argument.may_have_side_effects(),
            Expression::ParenthesizedExpression(e) => e.expression.may_have_side_effects(),
            Expression::ConditionalExpression(e) => e.test.may_have_side_effects()
                || e.consequent.may_have_side_effects() || e.alternate.may_have_side_effects(),
            Expression::SequenceExpression(e) => {
                let ghost expressions = self@->Sequence_expressions;
                let mut i: usize = 0;
                while i < e.expressions.len()
                    invariant
                        *self == Expression::SequenceExpression(*e),
                        expressions == self@->Sequence_expressions,
                        i <= expressions.len() == e.expressions@.len(),
                        forall|j: int| 0 <= j < i ==> !(#[trigger] expressions[j]).side_effects(),
                    decreases e.expressions.len() - i,
                {
                    let effects: bool = e.expressions[i].may_have_side_effects();
                    assert(expressions[i as int] == e.expressions@[i as int]@);
                    if effects {
                        return true;
                    }
                    i = i + 1;
                }
                false
            },
            Expression::BinaryExpression(e) => e.left.may_have_side_effects()
                || e.right.may_have_side_effects(),
            Expression::LogicalExpression(e) => e.left.may_have_side_effects()
                || e.right.may_have_side_effects(),
            Expression::ObjectExpression(e) => {
                let ghost properties = self@->Object_properties;
                let mut i: usize = 0;
                while i < e.properties.len()
                    invariant
                        *self == Expression::ObjectExpression(*e),
                        properties == self@->Object_properties,
                        i <= properties.len() == e.properties@.len(),
                        forall|j: int|
                            0 <= j < i ==> !(match #[trigger] properties[j] {
                                Property::Value { key, value, .. } => value.side_effects()
                                    || match key {
                                    Some(k) => k.side_effects(),
                                    None => false,
                                },
                                Property::Spread(_) => true,
                            }),
                    decreases e.properties.len() - i,
                {
                    let effects: bool = match &e.properties[i] {
                        ObjectPropertyKind::ObjectProperty(p) => p.value.may_have_side_effects()
                            || match &p.key {
                            Some(key) => key.may_have_side_effects(),
                            None => false,
                        },
                        ObjectPropertyKind::SpreadProperty(_) => true,
                    };
                    assert(effects == match properties[i as int] {
                        Property::Value { key, value, .. } => value.side_effects() || match key {
                            Some(k) => k.side_effects(),
                            None => false,
                        },
                        Property::Spread(_) => true,
                    });
                    if effects {
                        return true;
                    }
                    i = i + 1;
                }
                false
            },
            Expression::ArrayExpression(e) => {
                let ghost elements = self@->Array_elements;
                let mut i: usize = 0;
                while i < e.elements.len()
                    invariant
                        *self == Expression::ArrayExpression(*e),
                        elements == self@->Array_elements,
                        i <= elements.len() == e.elements@.len(),
                        forall|j: int|
                            0 <= j < i ==> !(match #[trigger] elements[j] {
                                Element::Value(x) => x.side_effects(),
                                Element::Spread(_) => true,
                                Element::Elision(_) => false,
                            }),
                    decreases e.elements.len() - i,
                {
                    let effects: bool = match &e.elements[i] {
                        ArrayExpressionElement::Expression(x) => x.may_have_side_effects(),
                        ArrayExpressionElement::SpreadElement(_) => true,
                        ArrayExpressionElement::Elision(_) => false,
                    };
                    assert(effects == match elements[i as int] {
                        Element::Value(x) => x.side_effects(),
                        Element::Spread(_) => true,
                        Element::Elision(_) => false,
                    });
                    if effects {
                        return true;
                    }
                    i = i + 1;
                }
                false
            },
            _ => true,
        }
    }
}

impl Expression {
    pub fn is_immutable_value(&self) -> (r: bool)
        ensures
            r == self@.immutable(),
        decreases self,
    {
        match self {
            Expression::BooleanLiteral(_)
            | Expression::NullLiteral(_)
            | Expression::NumericLiteral(_)
            | Expression::BigIntLiteral(_)
            | Expression::RegExpLiteral(_)
            | Expression::StringLiteral(_) => true,
            Expression::TemplateLiteral(e) => e.expressions.len() == 0,
            Expression::UnaryExpression(e) => e.argument.is_immutable_value(),
            Expression::Identifier(e) => text::is_text(e.name.as_str(), "undefined")
                || text::is_text(e.name.as_str(), "Infinity") || text::is_text(
                e.name.as_str(),
                "NaN",
            ),
            _ => false,
        }
    }

    pub fn is_literal_value(&self, include_functions: bool) -> (r: bool)
        ensures
            r == self@.literal(include_functions),
        decreases self,
    {
        match self {
            Expression::FunctionExpression(_) | Expression::ArrowFunctionExpression(
                _,
            ) => include_functions,
            Expression::ArrayExpression(e) => {
                let ghost elements = self@->Array_elements;
                let mut i: usize = 0;
                while i < e.elements.len()
                    invariant
                        *self == Expression::ArrayExpression(*e),
                        elements == self@->Array_elements,
                        i <= elements.len() == e.elements@.len(),
                        forall|j: int|
                            0 <= j < i ==> match #[trigger] elements[j] {
                                Element::Value(x) => x.literal(include_functions),
                                Element::Spread(_) => false,
                                Element::Elision(_) => true,
                            },
                    decreases e.elements.len() - i,
                {
                    let literal: bool = match &e.elements[i] {
                        ArrayExpressionElement::Expression(x) => x.is_literal_value(
                            include_functions,
                        ),
                        ArrayExpressionElement::SpreadElement(_) => false,
                        ArrayExpressionElement::Elision(_) => true,
                    };
                    assert(literal == match elements[i as int] {
                        Element::Value(x) => x.literal(include_functions),
                        Element::Spread(_) => false,
                        Element::Elision(_) => true,
                    });
                    if !literal {
                        return false;
                    }
                    i = i + 1;
                }
                true
            },
            Expression::ObjectExpression(e) => {
                let ghost properties = self@->Object_properties;
                let mut i: usize = 0;
                while i < e.properties.len()
                    invariant
                        *self == Expression::ObjectExpression(*e),
                        properties == self@->Object_properties,
                        i <= properties.len() == e.properties@.len(),
                        forall|j: int|
                            0 <= j < i ==> match #[trigger] properties[j] {
                                Property::Value { key, value, .. } => value.literal(
                                    include_functions,
                                ) && match key {
                                    Some(k) => k.literal(include_functions),
                                    None => true,
                                },
                                Property::Spread(_) => false,
                            },
                    decreases e.properties.len() - i,
                {
                    let literal: bool = match &e.properties[i] {
                        ObjectPropertyKind::ObjectProperty(p) => p.value.is_literal_value(
                            include_functions,
                        ) && match &p.key {
                            Some(key) => key.is_literal_value(include_functions),
                            None => true,
                        },
                        ObjectPropertyKind::SpreadProperty(_) => false,
                    };
                    assert(literal == match properties[i as int] {
                        Property::Value { key, value, .. } => value.literal(include_functions)
                            && match key {
                            Some(k) => k.literal(include_functions),
                            None => true,
                        },
                        Property::Spread(_) => false,
                    });
                    if !literal {
                        return false;
                    }
                    i = i + 1;
                }
                true
            },
            _ => self.is_immutable_value(),
        }
    }

    /// The truth value of a literal of a primitive type or of a regular expression.
    pub fn to_boolean(&self) -> (r: Option<bool>)
        ensures
            r == self@.literal_boolean(),
    {
        match self {
            Expression::BooleanLiteral(e) => Some(e.value),
            Expression::NullLiteral(_) => Some(false),
            Expression::NumericLiteral(e) => Some(!e.value.is_same(Number { bits: 0 })),
            Expression::BigIntLiteral(e) => Some(!text::is_text(e.raw.as_str(), "0n")),
            Expression::RegExpLiteral(_) => Some(true),
            Expression::StringLiteral(e) => Some(!e.value.as_str().is_empty()),
            _ => None,
        }
    }

    pub fn is_nan(&self) -> (r: bool)
        ensures
            r == self@.named_nan(),
    {
        match self {
            Expression::Identifier(e) => text::is_text(e.name.as_str(), "NaN"),
            _ => false,
        }
    }

    pub fn is_number(&self) -> (r: bool)
        ensures
            r == (self@ is Numeric),
    {
        match self {
            Expression::NumericLiteral(_) => true,
            _ => false,
        }
    }

    pub fn is_number_0(&self) -> (r: bool)
        ensures
            r == self@.number_0(),
    {
        match self {
            Expression::NumericLiteral(e) => e.value.is_same(Number { bits: 0 }),
            _ => false,
        }
    }

    pub fn is_specific_id(&self, name: &str) -> (r: bool)
        ensures
            r == self@.specific_id(name@),
        decreases self,
    {
        match self {
            Expression::ParenthesizedExpression(e) => e.expression.is_specific_id(name),
            Expression::TSExpression(e) => e.expression.is_specific_id(name),
            Expression::Identifier(e) => text::is_text(e.name.as_str(), name),
            _ => false,
        }
    }
}

impl MemberExpression {
    /// Whether this is the member `property` of the variable `object`.
    pub fn is_specific_member_access(&self, object: &str, property: &str) -> (r: bool)
        ensures
            r == (self.object@.specific_id(object@) && model::optional_text(self.property) == Some(
                property@,
            )),
    {
        self.object.is_specific_id(object) && match &self.property {
            Some(name) => text::is_text(name.as_str(), property),
            None => false,
        }
    }
}

impl AssignmentTarget {
    pub fn as_member_expression(&self) -> (r: Option<&MemberExpression>)
        ensures
            match self {
                AssignmentTarget::MemberExpression(m) => r == Some(&**m),
                AssignmentTarget::Other(_) => r is None,
            },
    {
        match self {
            AssignmentTarget::MemberExpression(m) => Some(&**m),
            AssignmentTarget::Other(_) => None,
        }
    }
}

impl UnaryExpression {
    pub fn may_have_side_effects(&self) -> (r: bool)
        ensures
            r == self@.side_effects(),
    {
        self.operator == UnaryOperator::Delete || self.argument.may_have_side_effects()
    }
}

impl TraverseCtx {
    pub fn is_identifier_undefined(&self, ident: &IdentifierReference) -> (r: bool)
        ensures
            r == ident@.undefined(),
    {
        ident.global && text::is_text(ident.name.as_str(), "undefined")
    }

    /// The truth value of an expression.
    pub fn get_boolean_value(&self, expr: &Expression) -> (r: Tri)
        ensures
            r == expr@.boolean(self),
        decreases expr, 1nat,
    {
        match expr {
            Expression::RegExpLiteral(_)
            | Expression::ArrayExpression(_)
            | Expression::ArrowFunctionExpression(_)
            | Expression::ClassExpression(_)
            | Expression::FunctionExpression(_)
            | Expression::NewExpression(_)
            | Expression::ObjectExpression(_) => Tri::True,
            Expression::NullLiteral(_) => Tri::False,
            Expression::BooleanLiteral(e) => Tri::from(e.value),
            Expression::NumericLiteral(e) => Tri::from(NumberValue::Number(e.value).is_truthy()),
            Expression::BigIntLiteral(e) => match bigint::read_literal(e.raw.as_str()) {
                Some(n) => Tri::from(!n.is_equal(&BigInt::from_i64(0))),
                None => Tri::Unknown,
            },
            Expression::StringLiteral(e) => Tri::from(!e.value.as_str().is_empty()),
            Expression::TemplateLiteral(e) => match &e.cooked {
                Some(s) => {
                    if e.expressions.len() == 0 {
                        Tri::from(!s.as_str().is_empty())
                    } else {
                        Tri::Unknown
                    }
                },
                None => Tri::Unknown,
            },
            Expression::Identifier(e) => {
                if self.is_identifier_undefined(e) || (e.global && text::is_text(
                    e.name.as_str(),
                    "NaN",
                )) {
                    Tri::False
                } else if e.global && text::is_text(e.name.as_str(), "Infinity") {
                    Tri::True
                } else {
                    Tri::Unknown
                }
            },
            Expression::AssignmentExpression(e) => {
                if e.operator == AssignmentOperator::Assign {
                    self.get_boolean_value(&e.right)
                } else {
                    Tri::Unknown
                }
            },
            Expression::LogicalExpression(e) => match e.operator {
                LogicalOperator::And => self.get_boolean_value(&e.left).and(
                    self.get_boolean_value(&e.right),
                ),
                LogicalOperator::Or => self.get_boolean_value(&e.left).or(
                    self.get_boolean_value(&e.right),
                ),
                LogicalOperator::Coalesce => Tri::Unknown,
            },
            Expression::SequenceExpression(e) => {
                if e.expressions.len() > 0 {
                    self.get_boolean_value(&e.expressions[e.expressions.len() - 1])
                } else {
                    Tri::Unknown
                }
            },
            Expression::UnaryExpression(e) => match e.operator {
                UnaryOperator::Void => Tri::False,
                UnaryOperator::LogicalNot => self.get_boolean_value(&e.argument).not(),
                UnaryOperator::BitwiseNot
                | UnaryOperator::UnaryPlus
                | UnaryOperator::UnaryNegation => match self.get_number_value(expr) {
                    Some(value) => Tri::from(value.is_truthy()),
                    None => Tri::Unknown,
                },
                _ => Tri::Unknown,
            },
            _ => Tri::Unknown,
        }
    }

    /// The value of an expression as a number.
    pub fn get_number_value(&self, expr: &Expression) -> (r: Option<NumberValue>)
        ensures
            r == expr@.number(self),
        decreases expr, 0nat,
    {
        match expr {
            Expression::NumericLiteral(e) => Some(
                if e.value.is_nan() {
                    NumberValue::NaN
                } else {
                    NumberValue::Number(e.value)
                },
            ),
            Expression::BooleanLiteral(e) => Some(
                NumberValue::Number(Number::from_i64(if e.value { 1 } else { 0 })),
            ),
            Expression::NullLiteral(_) => Some(NumberValue::Number(Number::from_i64(0))),
            Expression::StringLiteral(e) => self.string_to_number(e.value.as_str()),
            Expression::TemplateLiteral(e) => match &e.cooked {
                Some(s) => {
                    if e.expressions.len() == 0 {
                        self.string_to_number(s.as_str())
                    } else {
                        None
                    }
                },
                None => None,
            },
            Expression::Identifier(e) => {
                if e.global && text::is_text(e.name.as_str(), "Infinity") {
                    Some(NumberValue::PositiveInfinity)
                } else if (e.global && text::is_text(e.name.as_str(), "NaN"))
                    || self.is_identifier_undefined(e) {
                    Some(NumberValue::NaN)
                } else {
                    None
                }
            },
            Expression::UnaryExpression(e) => match e.operator {
                UnaryOperator::UnaryPlus => self.get_number_value(&e.argument),
                UnaryOperator::UnaryNegation => match self.get_number_value(&e.argument) {
                    Some(value) => Some(value.negate()),
                    None => None,
                },
                UnaryOperator::BitwiseNot => match self.get_number_value(&e.argument) {
                    Some(NumberValue::Number(n)) => Some(
                        NumberValue::Number(Number::from_i64(-(n.to_low_int32() as i64) - 1)),
                    ),
                    Some(_) => Some(NumberValue::Number(Number::from_i64(-1))),
                    None => None,
                },
                UnaryOperator::LogicalNot => match self.get_boolean_value(&e.argument) {
                    Tri::True => Some(NumberValue::Number(Number::from_i64(0))),
                    Tri::False => Some(NumberValue::Number(Number::from_i64(1))),
                    Tri::Unknown => None,
                },
                UnaryOperator::Void => Some(NumberValue::NaN),
                _ => None,
            },
            _ => None,
        }
    }

    /// The integer that a number value is, where it is one below `2^53` in magnitude.
    fn small_bigint(value: Option<NumberValue>) -> (r: Option<BigInt>)
        ensures
            bigint::optional_view(r) == small_integer(value),
    {
        match value {
            Some(NumberValue::Number(n)) => {
                if n.is_integral() && !n.is_at_least_2_53() {
                    Some(BigInt::from_i64(n.to_i64()))
                } else {
                    None
                }
            },
            _ => None,
        }
    }

    /// The value of an expression as an integer of any size.
    pub fn get_bigint_value(&self, expr: &Expression) -> (r: Option<BigInt>)
        ensures
            bigint::optional_view(r) == expr@.bigint(self),
        decreases expr,
    {
        match expr {
            Expression::NumericLiteral(e) => Self::small_bigint(Some(NumberValue::Number(e.value))),
            Expression::BigIntLiteral(e) => bigint::read_literal(e.raw.as_str()),
            Expression::BooleanLiteral(e) => Some(BigInt::from_i64(if e.value { 1 } else { 0 })),
            Expression::StringLiteral(e) => bigint::read_string(e.value.as_str()),
            Expression::TemplateLiteral(e) => match &e.cooked {
                Some(s) => {
                    if e.expressions.len() == 0 {
                        bigint::read_string(s.as_str())
                    } else {
                        None
                    }
                },
                None => None,
            },
            Expression::UnaryExpression(e) => match e.operator {
                UnaryOperator::LogicalNot => match self.get_boolean_value(&e.argument) {
                    Tri::True => Some(BigInt::from_i64(0)),
                    Tri::False => Some(BigInt::from_i64(1)),
                    Tri::Unknown => None,
                },
                UnaryOperator::UnaryNegation => {
                    if Ty::from(&e.argument) == Ty::BigInt {
                        match self.get_bigint_value(&e.argument) {
                            Some(n) => Some(n.negate()),
                            None => None,
                        }
                    } else {
                        Self::small_bigint(self.get_number_value(expr))
                    }
                },
                UnaryOperator::BitwiseNot => match self.get_bigint_value(&e.argument) {
                    Some(n) => {
                        if Ty::from(&e.argument) == Ty::BigInt {
                            Some(n.complement())
                        } else {
                            None
                        }
                    },
                    None => None,
                },
                UnaryOperator::UnaryPlus => {
                    if Ty::from(&e.argument) == Ty::BigInt {
                        None
                    } else {
                        Self::small_bigint(self.get_number_value(expr))
                    }
                },
                _ => None,
            },
            _ => None,
        }
    }

    /// The value of an expression as a string.
    pub fn get_string_value(&self, expr: &Expression) -> (r: Option<String>)
        ensures
            model::optional_text(r) == expr@.string(self),
    {
        match expr {
            Expression::StringLiteral(e) => Some(e.value.clone()),
            Expression::TemplateLiteral(e) => {
                if e.expressions.len() == 0 {
                    match &e.cooked {
                        Some(s) => Some(s.clone()),
                        None => None,
                    }
                } else {
                    None
                }
            },
            Expression::Identifier(e) => {
                if e.global && (text::is_text(e.name.as_str(), "undefined") || text::is_text(
                    e.name.as_str(),
                    "Infinity",
                ) || text::is_text(e.name.as_str(), "NaN")) {
                    Some(e.name.clone())
                } else {
                    None
                }
            },
            Expression::NumericLiteral(e) => {
                if e.value.is_nan() {
                    Some("NaN".to_owned())
                } else {
                    self.number_to_string(e.value)
                }
            },
            Expression::BigIntLiteral(e) => match bigint::read_literal(e.raw.as_str()) {
                Some(n) => Some(n.to_decimal()),
                None => None,
            },
            Expression::NullLiteral(_) => Some("null".to_owned()),
            Expression::BooleanLiteral(e) => Some(
                if e.value { "true" } else { "false" }.to_owned(),
            ),
            Expression::UnaryExpression(e) => match e.operator {
                UnaryOperator::Void => Some("undefined".to_owned()),
                UnaryOperator::LogicalNot => match self.get_boolean_value(&e.argument) {
                    Tri::True => Some("false".to_owned()),
                    Tri::False => Some("true".to_owned()),
                    Tri::Unknown => None,
                },
                _ => None,
            },
            Expression::ObjectExpression(e) => {
                if e.properties.len() == 0 {
                    Some("[object Object]".to_owned())
                } else {
                    None
                }
            },
            _ => None,
        }
    }

    pub fn get_side_free_number_value(&self, expr: &Expression) -> (r: Option<NumberValue>)
        ensures
            r == expr@.side_free_number(self),
    {
        if expr.may_have_side_effects() {
            None
        } else {
            self.get_number_value(expr)
        }
    }

    pub fn get_side_free_bigint_value(&self, expr: &Expression) -> (r: Option<BigInt>)
        ensures
            bigint::optional_view(r) == expr@.side_free_bigint(self),
    {
        if expr.may_have_side_effects() {
            None
        } else {
            self.get_bigint_value(expr)
        }
    }

    /// Whether the integer that a string denotes is read wherever there is one.
    pub fn is_text_read(&self, expr: &Expression) -> (r: bool)
        ensures
            r == expr@.text_is_read(self),
    {
        if let Expression::UnaryExpression(_) = expr {
            true
        } else {
            match self.get_side_free_string_value(expr) {
                Some(s) => !text::contains(s.as_str(), '\u{b}'),
                None => false,
            }
        }
    }

    pub fn get_side_free_string_value(&self, expr: &Expression) -> (r: Option<String>)
        ensures
            model::optional_text(r) == expr@.side_free_string(self),
    {
        if expr.may_have_side_effects() {
            None
        } else {
            self.get_string_value(expr)
        }
    }
}

} // verus!
