use fold_constants::ast::{
    ArrayExpression, ArrayExpressionElement, AssignmentExpression, AssignmentTarget,
    BigIntLiteral, BigintBase, BinaryExpression, BindingIdentifier, BlockStatement,
    BooleanLiteral, ConditionalExpression, EmptyStatement, Expression, ForStatement,
    IdentifierReference, IfStatement, LogicalExpression, MemberExpression, NodeRef, NullLiteral,
    NumberBase, NumericLiteral, ObjectExpression, ObjectProperty, ObjectPropertyKind,
    ParenthesizedExpression, SequenceExpression, Span, Statement, StringLiteral,
    TSExpression, TemplateLiteral, UnaryExpression, VariableDeclaration, VariableDeclarationKind,
    WhileStatement,
};
use fold_constants::bigint;
use fold_constants::builder::AstBuilder;
use fold_constants::context::{Ancestor, NumberString, StringNumber, TraverseCtx};
use fold_constants::fold_constants::FoldConstants;
use fold_constants::keep_var::KeepVar;
use fold_constants::number::Number;
use fold_constants::number_value::NumberValue;
use fold_constants::operator::{
    AssignmentOperator, BinaryOperator, LogicalOperator, UnaryOperator,
};
use fold_constants::tri::Tri;
use fold_constants::ty::Ty;

fn span(start: u32) -> Span {
    Span { start, end: start + 1 }
}

fn node(id: u32) -> NodeRef {
    NodeRef { span: span(id), id }
}

fn number(value: f64) -> Number {
    Number { bits: value.to_bits() }
}

fn num(value: f64) -> Expression {
    Expression::NumericLiteral(NumericLiteral {
        span: span(1),
        value: number(value),
        raw: value.to_string(),
        base: NumberBase::Decimal,
    })
}

fn folded_num(value: f64, raw: &str, base: NumberBase) -> Expression {
    Expression::NumericLiteral(NumericLiteral {
        span: span(9),
        value: number(value),
        raw: raw.to_string(),
        base,
    })
}

fn string(value: &str) -> Expression {
    Expression::StringLiteral(StringLiteral { span: span(2), value: value.to_string() })
}

fn template(value: &str) -> Expression {
    Expression::TemplateLiteral(Box::new(TemplateLiteral {
        node: node(3),
        cooked: Some(value.to_string()),
        expressions: vec![],
    }))
}

fn boolean(value: bool) -> Expression {
    Expression::BooleanLiteral(BooleanLiteral { span: span(4), value })
}

fn null() -> Expression {
    Expression::NullLiteral(NullLiteral { span: span(5) })
}

fn big(raw: &str) -> Expression {
    Expression::BigIntLiteral(BigIntLiteral {
        span: span(6),
        raw: raw.to_string(),
        base: BigintBase::Decimal,
    })
}

fn global(name: &str) -> Expression {
    Expression::Identifier(IdentifierReference {
        node: node(7),
        name: name.to_string(),
        global: true,
    })
}

fn local(name: &str) -> Expression {
    Expression::Identifier(IdentifierReference {
        node: node(7),
        name: name.to_string(),
        global: false,
    })
}

fn call(id: u32) -> Expression {
    Expression::Other(node(id))
}

fn object() -> Expression {
    Expression::ObjectExpression(Box::new(ObjectExpression { node: node(8), properties: vec![] }))
}

fn array(elements: Vec<Expression>) -> Expression {
    Expression::ArrayExpression(Box::new(ArrayExpression {
        node: node(8),
        elements: elements.into_iter().map(ArrayExpressionElement::Expression).collect(),
    }))
}

fn unary(operator: UnaryOperator, argument: Expression) -> Expression {
    Expression::UnaryExpression(Box::new(UnaryExpression { span: span(9), operator, argument }))
}

fn binary(operator: BinaryOperator, left: Expression, right: Expression) -> Expression {
    Expression::BinaryExpression(Box::new(BinaryExpression {
        span: span(9),
        left,
        operator,
        right,
    }))
}

fn logical(operator: LogicalOperator, left: Expression, right: Expression) -> Expression {
    Expression::LogicalExpression(Box::new(LogicalExpression {
        span: span(9),
        left,
        operator,
        right,
    }))
}

fn conditional(test: Expression, consequent: Expression, alternate: Expression) -> Expression {
    Expression::ConditionalExpression(Box::new(ConditionalExpression {
        span: span(9),
        test,
        consequent,
        alternate,
    }))
}

fn sequence(expressions: Vec<Expression>) -> Expression {
    Expression::SequenceExpression(Box::new(SequenceExpression { span: span(9), expressions }))
}

fn assign(left: AssignmentTarget, right: Expression) -> Expression {
    Expression::AssignmentExpression(Box::new(AssignmentExpression {
        span: span(9),
        operator: AssignmentOperator::Assign,
        left,
        right,
    }))
}

fn member(object: Expression, property: Option<&str>) -> AssignmentTarget {
    AssignmentTarget::MemberExpression(Box::new(MemberExpression {
        node: node(10),
        object,
        property: property.map(|name| name.to_string()),
    }))
}

fn truth(value: bool) -> Expression {
    Expression::BooleanLiteral(BooleanLiteral { span: span(9), value })
}

fn unspanned_truth(value: bool) -> Expression {
    Expression::BooleanLiteral(BooleanLiteral { span: Span::unspanned(), value })
}

fn unspanned_string(value: &str) -> Expression {
    Expression::StringLiteral(StringLiteral {
        span: Span::unspanned(),
        value: value.to_string(),
    })
}

fn zero() -> Expression {
    Expression::NumericLiteral(NumericLiteral {
        span: Span::unspanned(),
        value: number(0.0),
        raw: "0".to_string(),
        base: NumberBase::Decimal,
    })
}

fn ctx_under(parent: Ancestor) -> TraverseCtx {
    let mut string_numbers = vec![];
    for text in ["1", "1.5", "-0", "17", "", "9007199254740993"] {
        let value = if text.is_empty() { 0.0 } else { text.parse::<f64>().unwrap() };
        string_numbers.push(StringNumber {
            text: text.to_string(),
            value: NumberValue::Number(number(value)),
        });
    }
    string_numbers.push(StringNumber { text: "abc".to_string(), value: NumberValue::NaN });
    string_numbers.push(StringNumber {
        text: "Infinity".to_string(),
        value: NumberValue::PositiveInfinity,
    });
    let mut number_strings = vec![];
    for value in [0.0, 1.0, 1.5, 17.0] {
        number_strings.push(NumberString { value: number(value), text: value.to_string() });
    }
    TraverseCtx { parent, string_numbers, number_strings }
}

fn ctx() -> TraverseCtx {
    ctx_under(Ancestor::Other)
}

fn pass() -> FoldConstants {
    FoldConstants::new(AstBuilder {}).with_evaluate(true)
}

fn fold(mut expr: Expression) -> Expression {
    pass().fold_expression(&mut expr, &ctx());
    expr
}

fn compare(operator: BinaryOperator, left: Expression, right: Expression) -> Tri {
    pass().evaluate_comparison(operator, &left, &right, &ctx())
}

const EQ: BinaryOperator = BinaryOperator::Equality;
const NE: BinaryOperator = BinaryOperator::Inequality;
const SEQ: BinaryOperator = BinaryOperator::StrictEquality;
const SNE: BinaryOperator = BinaryOperator::StrictInequality;
const LT: BinaryOperator = BinaryOperator::LessThan;
const LE: BinaryOperator = BinaryOperator::LessEqualThan;
const GT: BinaryOperator = BinaryOperator::GreaterThan;
const GE: BinaryOperator = BinaryOperator::GreaterEqualThan;
const ADD: BinaryOperator = BinaryOperator::Addition;

#[test]
fn evaluate_is_off_at_first() {
    let pass = FoldConstants::new(AstBuilder {});
    assert!(!pass.evaluate);
    assert!(pass.with_evaluate(true).evaluate);
    assert!(!pass.with_evaluate(true).with_evaluate(false).evaluate);
}

#[test]
fn equality_of_null_and_undefined() {
    assert_eq!(compare(EQ, null(), global("undefined")), Tri::True);
    assert_eq!(compare(EQ, global("undefined"), null()), Tri::True);
    assert_eq!(compare(EQ, unary(UnaryOperator::Void, num(0.0)), null()), Tri::True);
    assert_eq!(compare(SEQ, null(), global("undefined")), Tri::False);
    assert_eq!(compare(SEQ, null(), null()), Tri::True);
    assert_eq!(compare(SEQ, global("undefined"), global("undefined")), Tri::True);
    assert_eq!(compare(EQ, null(), num(0.0)), Tri::False);
    assert_eq!(compare(EQ, null(), string("")), Tri::False);
    assert_eq!(compare(EQ, null(), local("x")), Tri::Unknown);
    assert_eq!(compare(EQ, null(), local("undefined")), Tri::Unknown);
}

#[test]
fn equality_of_numbers() {
    assert_eq!(compare(SEQ, num(1.0), num(1.0)), Tri::True);
    assert_eq!(compare(SEQ, num(1.0), num(2.0)), Tri::False);
    assert_eq!(compare(SEQ, num(0.0), num(-0.0)), Tri::True);
    assert_eq!(compare(EQ, num(1.0), string("1")), Tri::True);
    assert_eq!(compare(SEQ, num(1.0), string("1")), Tri::False);
    assert_eq!(compare(EQ, string("1"), num(2.0)), Tri::False);
    assert_eq!(compare(EQ, num(1.0), string("2")), Tri::Unknown);
    assert_eq!(compare(EQ, num(1.0), boolean(true)), Tri::True);
    assert_eq!(compare(EQ, boolean(false), num(1.0)), Tri::False);
    assert_eq!(compare(EQ, string("1"), boolean(true)), Tri::True);
    assert_eq!(compare(EQ, num(1.0), object()), Tri::Unknown);
    assert_eq!(compare(EQ, object(), string("a")), Tri::Unknown);
    assert_eq!(compare(EQ, null(), object()), Tri::False);
    assert_eq!(compare(SEQ, object(), object()), Tri::Unknown);
    assert_eq!(
        compare(SEQ, global("Infinity"), unary(UnaryOperator::UnaryNegation, global("Infinity"))),
        Tri::False
    );
    assert_eq!(compare(SEQ, global("Infinity"), global("Infinity")), Tri::True);
}

#[test]
fn an_infinite_literal_is_the_infinity() {
    let minus = |argument| unary(UnaryOperator::UnaryNegation, argument);
    assert_eq!(compare(SEQ, global("Infinity"), num(f64::INFINITY)), Tri::True);
    assert_eq!(compare(SEQ, num(f64::INFINITY), global("Infinity")), Tri::True);
    assert_eq!(compare(EQ, minus(global("Infinity")), num(f64::INFINITY)), Tri::False);
    assert_eq!(compare(SEQ, minus(num(f64::INFINITY)), minus(global("Infinity"))), Tri::True);
    assert_eq!(compare(LT, num(1.0), num(f64::INFINITY)), Tri::True);
    let sum = || binary(ADD, num(f64::INFINITY), minus(global("Infinity")));
    assert_eq!(fold(sum()), sum());
    let sum = || binary(ADD, num(f64::INFINITY), num(f64::NEG_INFINITY));
    assert_eq!(fold(sum()), sum());
}

#[test]
fn equality_of_strings() {
    assert_eq!(compare(SEQ, string("a"), string("a")), Tri::True);
    assert_eq!(compare(SEQ, string("a"), template("a")), Tri::True);
    assert_eq!(compare(EQ, string("a"), string("b")), Tri::False);
    assert_eq!(compare(SEQ, string("a\u{b}"), string("a\u{b}")), Tri::Unknown);
    assert_eq!(compare(SEQ, string("a"), string("\u{b}")), Tri::Unknown);
}

#[test]
fn nan_is_strictly_equal_to_nothing() {
    assert_eq!(compare(SEQ, global("NaN"), global("NaN")), Tri::False);
    assert_eq!(compare(SEQ, global("NaN"), num(1.0)), Tri::False);
    assert_eq!(compare(SEQ, global("NaN"), string("a")), Tri::False);
    assert_eq!(compare(SEQ, global("NaN"), local("x")), Tri::False);
    assert_eq!(compare(SEQ, local("x"), global("NaN")), Tri::False);
    assert_eq!(compare(SNE, global("NaN"), local("x")), Tri::True);
    assert_eq!(
        compare(SEQ, global("NaN"), unary(UnaryOperator::UnaryPlus, local("x"))),
        Tri::Unknown
    );
}

#[test]
fn typeof_of_one_variable() {
    let typeof_ = |name| unary(UnaryOperator::Typeof, local(name));
    assert_eq!(compare(EQ, typeof_("a"), typeof_("a")), Tri::True);
    assert_eq!(compare(SEQ, typeof_("a"), typeof_("a")), Tri::True);
    assert_eq!(compare(SNE, typeof_("a"), typeof_("a")), Tri::False);
    assert_eq!(compare(LT, typeof_("a"), typeof_("a")), Tri::False);
    assert_eq!(compare(SEQ, typeof_("a"), typeof_("b")), Tri::Unknown);
    assert_eq!(compare(LT, typeof_("a"), typeof_("b")), Tri::Unknown);
}

#[test]
fn order_of_numbers() {
    assert_eq!(compare(LT, num(1.0), num(2.0)), Tri::True);
    assert_eq!(compare(LT, num(2.0), num(1.0)), Tri::False);
    assert_eq!(compare(LE, num(2.0), num(2.0)), Tri::True);
    assert_eq!(compare(GE, num(1.5), num(2.5)), Tri::False);
    assert_eq!(compare(GT, num(2.5), num(1.5)), Tri::True);
    assert_eq!(compare(LT, string("1"), num(2.0)), Tri::True);
    assert_eq!(compare(LT, null(), num(1.5)), Tri::True);
    assert_eq!(compare(LT, boolean(true), num(1.5)), Tri::True);
    assert_eq!(compare(LT, num(1.0), global("Infinity")), Tri::Unknown);
    assert_eq!(compare(LT, local("x"), num(1.0)), Tri::Unknown);
}

#[test]
fn order_with_nan_is_false() {
    for operator in [LT, LE, GT, GE] {
        assert_eq!(compare(operator, global("NaN"), num(1.0)), Tri::False);
        assert_eq!(compare(operator, num(1.0), global("undefined")), Tri::False);
        assert_eq!(compare(operator, string("abc"), num(1.0)), Tri::False);
        assert_eq!(compare(operator, big("1n"), global("NaN")), Tri::False);
    }
}

#[test]
fn order_of_strings() {
    assert_eq!(compare(LT, string("a"), string("b")), Tri::True);
    assert_eq!(compare(LT, string("17"), string("2")), Tri::True);
    assert_eq!(compare(GE, string("a"), string("a")), Tri::True);
    assert_eq!(compare(LT, string("a"), string("\u{b}")), Tri::Unknown);
}

#[test]
fn strings_are_ordered_by_code_units() {
    assert_eq!(compare(LT, string("\u{ff5e}"), string("\u{1f600}")), Tri::False);
    assert_eq!(compare(LT, string("\u{1f600}"), string("\u{ff5e}")), Tri::True);
    assert_eq!(compare(LT, string("\u{ffff}"), string("\u{10000}")), Tri::False);
    assert_eq!(compare(LT, string("\u{1f600}"), string("\u{1f601}")), Tri::True);
    assert_eq!(compare(GE, string("\u{d7ff}"), string("\u{10000}")), Tri::False);
}

#[test]
fn bigints_compare_by_value() {
    assert_eq!(compare(LT, big("1n"), big("2n")), Tri::True);
    assert_eq!(compare(LT, big("2n"), big("1n")), Tri::False);
    assert_eq!(compare(LE, big("2n"), big("2n")), Tri::True);
    assert_eq!(
        compare(LT, big("99999999999999999999n"), big("100000000000000000000n")),
        Tri::True
    );
    assert_eq!(compare(LT, big("0xffn"), big("256n")), Tri::True);
    assert_eq!(compare(LT, big("255n"), big("0xffn")), Tri::False);
    assert_eq!(compare(GE, big("0b101n"), big("0o5n")), Tri::True);
    assert_eq!(compare(GE, big("1_000n"), big("999n")), Tri::True);
    let minus = |raw| unary(UnaryOperator::UnaryNegation, big(raw));
    assert_eq!(compare(LT, minus("5n"), minus("4n")), Tri::True);
    assert_eq!(compare(LT, minus("5n"), big("5n")), Tri::True);
    let complement = |raw| unary(UnaryOperator::BitwiseNot, big(raw));
    assert_eq!(compare(LT, complement("5n"), minus("5n")), Tri::True);
    assert_eq!(compare(LE, complement("5n"), minus("6n")), Tri::True);
    assert_eq!(compare(GE, complement("5n"), minus("6n")), Tri::True);
}

#[test]
fn bigints_equal_by_value() {
    assert_eq!(compare(EQ, big("1n"), num(1.0)), Tri::True);
    assert_eq!(compare(EQ, num(2.0), big("1n")), Tri::False);
    assert_eq!(compare(EQ, big("16n"), string("0x10")), Tri::True);
    assert_eq!(compare(EQ, big("0n"), string("  ")), Tri::True);
    assert_eq!(compare(EQ, big("5n"), string(" +5\n")), Tri::True);
    assert_eq!(
        compare(EQ, unary(UnaryOperator::UnaryNegation, big("5n")), string("-5")),
        Tri::True
    );
    assert_eq!(compare(EQ, big("5n"), string("5_0")), Tri::False);
    assert_eq!(compare(EQ, big("1000n"), string("1e3")), Tri::False);
    assert_eq!(compare(EQ, big("1n"), boolean(true)), Tri::True);
    assert_eq!(compare(EQ, big("1n"), num(1.5)), Tri::False);
    assert_eq!(compare(EQ, big("0n"), null()), Tri::False);
    assert_eq!(compare(SEQ, big("1n"), num(1.0)), Tri::False);
    assert_eq!(compare(SEQ, big("1n"), big("1n")), Tri::Unknown);
    assert_eq!(
        compare(EQ, big("100000000000000000000n"), string("100000000000000000000")),
        Tri::True
    );
}

#[test]
fn bigints_and_numbers_compare_exactly() {
    assert_eq!(compare(LT, big("1n"), num(1.5)), Tri::True);
    assert_eq!(compare(LT, num(1.5), big("1n")), Tri::False);
    assert_eq!(compare(LT, num(1.5), big("2n")), Tri::True);
    assert_eq!(compare(LE, big("2n"), num(1.5)), Tri::False);
    assert_eq!(compare(LT, big("1n"), global("Infinity")), Tri::True);
    assert_eq!(compare(LT, global("Infinity"), big("1n")), Tri::False);
    let minus = unary(UnaryOperator::UnaryNegation, global("Infinity"));
    assert_eq!(compare(LT, minus, big("1n")), Tri::True);
    assert_eq!(compare(LT, big("1n"), num(9007199254740992.0)), Tri::Unknown);
    assert_eq!(compare(LT, big("1n"), num(1e300)), Tri::Unknown);
    assert_eq!(compare(LT, big("0n"), num(-0.5)), Tri::False);
    assert_eq!(compare(GT, big("0n"), num(-0.5)), Tri::True);
}

#[test]
fn bigint_less_than_number_in_both_directions() {
    let one = bigint::read_literal("1n").unwrap();
    let less = |value: NumberValue, invert: Tri, nan: bool| {
        FoldConstants::bigint_less_than_number(&one, &value, invert, nan)
    };
    let n = |value: f64| NumberValue::Number(number(value));
    assert_eq!(less(n(2.0), Tri::False, false), Tri::True);
    assert_eq!(less(n(2.0), Tri::True, false), Tri::False);
    assert_eq!(less(n(1.0), Tri::False, false), Tri::False);
    assert_eq!(less(n(1.0), Tri::True, false), Tri::False);
    assert_eq!(less(n(0.5), Tri::False, false), Tri::False);
    assert_eq!(less(n(0.5), Tri::True, false), Tri::True);
    assert_eq!(less(n(1.25), Tri::False, false), Tri::True);
    assert_eq!(less(n(1.25), Tri::True, false), Tri::False);
    assert_eq!(less(NumberValue::NaN, Tri::False, false), Tri::False);
    assert_eq!(less(NumberValue::NaN, Tri::True, true), Tri::True);
    assert_eq!(less(NumberValue::PositiveInfinity, Tri::False, false), Tri::True);
    assert_eq!(less(NumberValue::PositiveInfinity, Tri::True, false), Tri::False);
    assert_eq!(less(NumberValue::NegativeInfinity, Tri::False, false), Tri::False);
    assert_eq!(less(NumberValue::NegativeInfinity, Tri::True, false), Tri::True);
    assert_eq!(less(n(9007199254740992.0), Tri::False, false), Tri::Unknown);
    assert_eq!(less(n(-9007199254740992.0), Tri::False, false), Tri::Unknown);
    assert_eq!(less(n(9007199254740991.0), Tri::False, false), Tri::True);
    assert_eq!(less(n(f64::INFINITY), Tri::False, false), Tri::Unknown);
    assert_eq!(less(n(2.0), Tri::Unknown, false), Tri::Unknown);
    let zero = bigint::read_literal("0n").unwrap();
    let near = |value: f64| {
        FoldConstants::bigint_less_than_number(&zero, &n(value), Tri::False, false)
    };
    assert_eq!(near(0.25), Tri::True);
    assert_eq!(near(-0.25), Tri::False);
    assert_eq!(near(-0.0), Tri::False);
}

#[test]
fn a_text_that_is_no_integer_is_not_comparable_with_a_bigint() {
    for operator in [LT, LE, GT, GE] {
        assert_eq!(compare(operator, string("1.5"), big("2n")), Tri::False);
        assert_eq!(compare(operator, big("1n"), string("1.5")), Tri::False);
        assert_eq!(compare(operator, big("1n"), string("unlisted")), Tri::False);
        assert_eq!(
            compare(operator, unary(UnaryOperator::BitwiseNot, big("5n")), string("1.5")),
            Tri::False
        );
        assert_eq!(
            compare(operator, big("1n"), unary(UnaryOperator::Typeof, local("x"))),
            Tri::False
        );
        assert_eq!(compare(operator, big("1n"), string("\u{b}2")), Tri::Unknown);
    }
    assert_eq!(compare(LT, big("1n"), string("2")), Tri::True);
    assert_eq!(compare(LT, string("2"), big("3n")), Tri::True);
    assert_eq!(compare(LT, num(1.0), string("unlisted")), Tri::Unknown);
    assert_eq!(compare(LT, string("2"), global("Infinity")), Tri::Unknown);
}

#[test]
fn large_numbers_equal_a_bigint_by_their_value() {
    assert_eq!(compare(EQ, big("1n"), num(9007199254740992.0)), Tri::False);
    assert_eq!(compare(EQ, num(9007199254740992.0), big("1n")), Tri::False);
    assert_eq!(compare(EQ, big("1n"), num(1e300)), Tri::False);
    assert_eq!(compare(EQ, big("9007199254740992n"), num(9007199254740992.0)), Tri::True);
    assert_eq!(compare(NE, big("9007199254740992n"), num(9007199254740992.0)), Tri::False);
    assert_eq!(compare(EQ, big("9007199254740993n"), num(9007199254740992.0)), Tri::False);
    assert_eq!(compare(EQ, big("9007199254740994n"), num(9007199254740994.0)), Tri::True);
    assert_eq!(compare(EQ, big("100000000000000000000n"), num(1e20)), Tri::True);
    assert_eq!(compare(EQ, num(1e23), big("100000000000000000000000n")), Tri::False);
    assert_eq!(compare(EQ, num(1e23), big("99999999999999991611392n")), Tri::True);
    let largest = format!("0x{}{}n", "fffffffffffff8", "0".repeat(242));
    assert_eq!(compare(EQ, big(&largest), num(f64::MAX)), Tri::True);
    assert_eq!(compare(EQ, big(&largest), num(-f64::MAX)), Tri::False);
    let minus = unary(UnaryOperator::UnaryNegation, big(&largest));
    assert_eq!(compare(EQ, minus, num(-f64::MAX)), Tri::True);
    assert_eq!(compare(EQ, big("1n"), num(1.5)), Tri::False);
    assert_eq!(compare(EQ, big("0n"), num(5e-324)), Tri::False);
    assert_eq!(compare(EQ, big("0n"), num(-0.0)), Tri::True);
    assert_eq!(compare(EQ, big("1n"), num(f64::NAN)), Tri::False);
    assert_eq!(compare(LT, big("1n"), num(1e300)), Tri::Unknown);
}

#[test]
fn integers_that_are_not_read_leave_equality_open() {
    assert_eq!(compare(EQ, big("1n"), num(f64::INFINITY)), Tri::False);
    assert_eq!(compare(EQ, big("1n"), global("NaN")), Tri::False);
    assert_eq!(compare(EQ, big("1n"), string("\u{b}1")), Tri::Unknown);
    assert_eq!(compare(EQ, string("\u{b}"), big("0n")), Tri::Unknown);
    assert_eq!(compare(EQ, big("1n"), string("\u{b}2")), Tri::False);
    assert_eq!(compare(EQ, big("1n"), string("1\u{b}1")), Tri::False);
    assert_eq!(compare(EQ, big("1n"), string("abc")), Tri::False);
    assert_eq!(compare(EQ, big("1n"), unary(UnaryOperator::UnaryPlus, local("x"))), Tri::Unknown);
    assert_eq!(compare(EQ, big("1n"), unary(UnaryOperator::Typeof, local("x"))), Tri::False);
    assert_eq!(
        compare(EQ, big("12n"), binary(ADD, string("1"), string("2"))),
        Tri::Unknown
    );
    assert_eq!(compare(EQ, big("1n"), array(vec![num(1.0)])), Tri::Unknown);
    assert_eq!(compare(EQ, array(vec![]), big("0n")), Tri::Unknown);
    assert_eq!(compare(NE, big("0n"), object()), Tri::Unknown);
    assert_eq!(compare(EQ, big("1n"), global("undefined")), Tri::False);
    assert_eq!(compare(EQ, null(), big("0n")), Tri::False);
}

#[test]
fn inverting_twice_restores() {
    for operator in [EQ, NE, SEQ, SNE, LT, ADD] {
        let mut expr = binary(operator, local("a"), local("b"));
        let first = FoldConstants::try_minimize_not(&mut expr);
        let second = FoldConstants::try_minimize_not(&mut expr);
        assert_eq!(first, second);
        assert_eq!(first, operator.equality_inverse_operator().is_some());
        assert_eq!(expr, binary(operator, local("a"), local("b")));
    }
    let mut other = local("a");
    assert!(!FoldConstants::try_minimize_not(&mut other));
    assert_eq!(other, local("a"));
    let mut equality = binary(EQ, local("a"), local("b"));
    assert!(FoldConstants::try_minimize_not(&mut equality));
    assert_eq!(equality, binary(NE, local("a"), local("b")));
}

#[test]
fn operands_with_effects_are_not_compared() {
    for operator in [EQ, NE, SEQ, SNE, LT, LE, GT, GE] {
        assert_eq!(compare(operator, call(1), num(1.0)), Tri::Unknown);
        assert_eq!(compare(operator, num(1.0), call(1)), Tri::Unknown);
    }
    assert_eq!(compare(SEQ, global("NaN"), call(1)), Tri::Unknown);
    assert_eq!(compare(ADD, num(1.0), num(1.0)), Tri::Unknown);
}

#[test]
fn inverse_operators_negate() {
    let pairs = [(EQ, NE), (SEQ, SNE)];
    for (operator, inverse) in pairs {
        assert_eq!(operator.equality_inverse_operator(), Some(inverse));
        assert_eq!(inverse.equality_inverse_operator(), Some(operator));
        assert_eq!(
            compare(inverse, num(1.0), num(1.0)),
            compare(operator, num(1.0), num(1.0)).not()
        );
        assert_eq!(
            compare(inverse, num(1.0), local("x")),
            compare(operator, num(1.0), local("x")).not()
        );
    }
    assert_eq!(LT.equality_inverse_operator(), None);
}

fn operands() -> Vec<fn() -> Expression> {
    vec![
        || num(1.0),
        || num(1.5),
        || string("1"),
        || string("abc"),
        || big("1n"),
        || boolean(true),
        || null(),
        || global("undefined"),
        || global("NaN"),
        || global("Infinity"),
        || local("x"),
        || object(),
        || template("17"),
    ]
}

#[test]
fn orders_mirror() {
    for left in operands() {
        for right in operands() {
            assert_eq!(compare(GT, left(), right()), compare(LT, right(), left()));
            assert_eq!(compare(LE, left(), right()), compare(GE, right(), left()));
        }
    }
}

#[test]
fn equality_is_symmetric() {
    for left in operands() {
        for right in operands() {
            assert_eq!(compare(EQ, left(), right()), compare(EQ, right(), left()));
            assert_eq!(compare(SEQ, left(), right()), compare(SEQ, right(), left()));
        }
    }
}

#[test]
fn less_excludes_greater_or_equal() {
    for left in operands() {
        for right in operands() {
            let less = compare(LT, left(), right());
            let at_least = compare(GE, left(), right());
            assert_eq!(less == Tri::Unknown, at_least == Tri::Unknown);
            assert!(!(less == Tri::True && at_least == Tri::True));
            if less == Tri::True {
                assert_eq!(compare(LT, right(), left()), Tri::False);
            }
        }
    }
}

#[test]
fn comparisons_are_folded_to_literals() {
    assert_eq!(fold(binary(LT, num(1.0), num(2.0))), truth(true));
    assert_eq!(fold(binary(EQ, num(1.0), num(2.0))), truth(false));
    assert_eq!(
        fold(binary(EQ, local("x"), num(2.0))),
        binary(EQ, local("x"), num(2.0))
    );
    assert_eq!(fold(fold(binary(LT, num(1.0), num(2.0)))), truth(true));
}

fn shift(operator: BinaryOperator, left: f64, right: f64) -> Expression {
    fold(binary(operator, num(left), num(right)))
}

#[test]
fn shifts_are_folded() {
    let decimal = NumberBase::Decimal;
    let left = BinaryOperator::ShiftLeft;
    let right = BinaryOperator::ShiftRight;
    let unsigned = BinaryOperator::ShiftRightZeroFill;
    assert_eq!(shift(left, 1.0, 0.0), folded_num(1.0, "1", decimal));
    assert_eq!(shift(left, 1.0, 31.0), folded_num(-2147483648.0, "-2147483648", decimal));
    assert_eq!(shift(left, 3.0, 31.0), folded_num(-2147483648.0, "-2147483648", decimal));
    assert_eq!(shift(left, -1.0, 4.0), folded_num(-16.0, "-16", decimal));
    assert_eq!(shift(right, -1.0, 31.0), folded_num(-1.0, "-1", decimal));
    assert_eq!(shift(right, -5.0, 1.0), folded_num(-3.0, "-3", decimal));
    assert_eq!(shift(right, 2147483647.0, 5.0), folded_num(67108863.0, "67108863", decimal));
    assert_eq!(shift(unsigned, -1.0, 0.0), folded_num(4294967295.0, "4294967295", decimal));
    assert_eq!(shift(unsigned, -1.0, 1.0), folded_num(2147483647.0, "2147483647", decimal));
    assert_eq!(shift(unsigned, 10.0, 1.0), folded_num(5.0, "5", decimal));
    assert_eq!(shift(left, 4294967297.0, 1.0), folded_num(2.0, "2", decimal));
    assert_eq!(shift(right, 1.0, -0.0), folded_num(1.0, "1", decimal));
    assert_eq!(
        fold(binary(left, string("17"), boolean(true))),
        folded_num(34.0, "34", decimal)
    );
}

#[test]
fn shifts_cut_off_below_the_least() {
    assert_eq!(
        shift(BinaryOperator::ShiftRight, -3000000000.0, 0.0),
        folded_num(-2147483648.0, "-2147483648", NumberBase::Decimal)
    );
}

#[test]
fn shifts_that_stay() {
    let left = BinaryOperator::ShiftLeft;
    for (a, b) in [(1.5, 1.0), (1.0, 1.5), (1.0, 32.0), (1.0, -1.0), (1.0, 1e300)] {
        assert_eq!(shift(left, a, b), binary(left, num(a), num(b)));
    }
    assert_eq!(
        fold(binary(left, global("NaN"), num(1.0))),
        binary(left, global("NaN"), num(1.0))
    );
    assert_eq!(fold(binary(left, call(1), num(1.0))), binary(left, call(1), num(1.0)));
    assert_eq!(
        fold(binary(left, big("1n"), num(1.0))),
        binary(left, big("1n"), num(1.0))
    );
}

fn folded_string(value: &str) -> Expression {
    Expression::StringLiteral(StringLiteral { span: span(9), value: value.to_string() })
}

#[test]
fn strings_are_concatenated() {
    assert_eq!(fold(binary(ADD, string("a"), string("b"))), folded_string("ab"));
    assert_eq!(fold(binary(ADD, string("a"), num(1.5))), folded_string("a1.5"));
    assert_eq!(fold(binary(ADD, num(17.0), template("b"))), folded_string("17b"));
    assert_eq!(fold(binary(ADD, string("a"), null())), folded_string("anull"));
    assert_eq!(fold(binary(ADD, boolean(true), string("a"))), folded_string("truea"));
    assert_eq!(fold(binary(ADD, string(""), boolean(false))), folded_string("false"));
    assert_eq!(fold(binary(ADD, string("a"), global("undefined"))), folded_string("aundefined"));
    assert_eq!(fold(binary(ADD, string("a"), global("NaN"))), folded_string("aNaN"));
    assert_eq!(fold(binary(ADD, string(""), big("0x10n"))), folded_string("16"));
    assert_eq!(
        fold(binary(ADD, string(""), big("123456789012345678901234567890n"))),
        folded_string("123456789012345678901234567890")
    );
    assert_eq!(fold(binary(ADD, object(), string("!"))), folded_string("[object Object]!"));
    assert_eq!(
        fold(binary(ADD, string("a"), unary(UnaryOperator::LogicalNot, local("x")))),
        binary(ADD, string("a"), unary(UnaryOperator::LogicalNot, local("x")))
    );
    assert_eq!(
        fold(binary(ADD, string("a"), num(2.25))),
        binary(ADD, string("a"), num(2.25))
    );
}

#[test]
fn numbers_are_added() {
    assert_eq!(
        fold(binary(ADD, num(0.1), num(0.2))),
        folded_num(0.30000000000000004, "", NumberBase::Float)
    );
    assert_eq!(
        fold(binary(ADD, num(1.0), num(2.0))),
        folded_num(3.0, "", NumberBase::Decimal)
    );
    assert_eq!(
        fold(binary(ADD, boolean(true), boolean(true))),
        folded_num(2.0, "", NumberBase::Decimal)
    );
    assert_eq!(
        fold(binary(ADD, num(1.0), null())),
        folded_num(1.0, "", NumberBase::Decimal)
    );
    assert_eq!(
        fold(binary(ADD, global("Infinity"), num(1.0))),
        folded_num(f64::INFINITY, "", NumberBase::Float)
    );
    for (left, right) in [
        (num(1.0), global("NaN")),
        (num(1.0), global("undefined")),
        (num(1.0), big("1n")),
        (big("1n"), big("1n")),
        (num(1.0), object()),
        (boolean(true), null()),
        (num(1.0), local("x")),
        (num(1.0), call(1)),
    ] {
        assert!(matches!(fold(binary(ADD, left, right)), Expression::BinaryExpression(_)));
    }
}

#[test]
fn numbers_are_added_in_any_order() {
    for left in operands() {
        for right in operands() {
            let (l, r) = (Ty::from(&left()), Ty::from(&right()));
            if l != Ty::Str && r != Ty::Str {
                let there = pass().try_fold_addition(span(9), &left(), &right(), &ctx());
                let back = pass().try_fold_addition(span(9), &right(), &left(), &ctx());
                assert_eq!(there, back);
            }
        }
    }
}

#[test]
fn additions_wait_for_evaluation() {
    let mut expr = binary(ADD, num(1.0), num(2.0));
    FoldConstants::new(AstBuilder {}).fold_expression(&mut expr, &ctx());
    assert_eq!(expr, binary(ADD, num(1.0), num(2.0)));
    let mut other = binary(LT, num(1.0), num(2.0));
    FoldConstants::new(AstBuilder {}).fold_expression(&mut other, &ctx());
    assert_eq!(other, truth(true));
}

#[test]
fn typeof_of_literals() {
    let typeof_ = |argument| fold(unary(UnaryOperator::Typeof, argument));
    assert_eq!(typeof_(Expression::FunctionExpression(node(1))), unspanned_string("function"));
    assert_eq!(typeof_(string("bar")), unspanned_string("string"));
    assert_eq!(typeof_(num(6.0)), unspanned_string("number"));
    assert_eq!(typeof_(boolean(true)), unspanned_string("boolean"));
    assert_eq!(typeof_(null()), unspanned_string("object"));
    assert_eq!(typeof_(object()), unspanned_string("object"));
    assert_eq!(typeof_(array(vec![num(1.0)])), unspanned_string("object"));
    assert_eq!(typeof_(unary(UnaryOperator::Void, num(0.0))), unspanned_string("undefined"));
    assert_eq!(typeof_(big("1n")), unspanned_string("bigint"));
    assert_eq!(typeof_(global("undefined")), unspanned_string("undefined"));
    for argument in [
        local("x"),
        local("undefined"),
        call(1),
        array(vec![call(1)]),
        Expression::ArrowFunctionExpression(node(1)),
        global("NaN"),
        template("a"),
        unary(UnaryOperator::LogicalNot, num(1.0)),
    ] {
        assert!(matches!(typeof_(argument), Expression::UnaryExpression(_)));
    }
    let keyed = |key| {
        Expression::ObjectExpression(Box::new(ObjectExpression {
            node: node(1),
            properties: vec![ObjectPropertyKind::ObjectProperty(ObjectProperty {
                node: node(2),
                key,
                value: num(1.0),
            })],
        }))
    };
    assert_eq!(typeof_(keyed(None)), unspanned_string("object"));
    assert!(matches!(typeof_(keyed(Some(call(1)))), Expression::UnaryExpression(_)));
}

#[test]
fn not_of_literals() {
    let not = |argument| fold(unary(UnaryOperator::LogicalNot, argument));
    assert_eq!(not(boolean(true)), unspanned_truth(false));
    assert_eq!(not(null()), unspanned_truth(true));
    assert_eq!(not(num(0.0)), unspanned_truth(true));
    assert_eq!(not(num(-0.0)), unspanned_truth(true));
    assert_eq!(not(num(2.0)), unspanned_truth(false));
    assert_eq!(not(string("")), unspanned_truth(true));
    assert_eq!(not(string("a")), unspanned_truth(false));
    assert_eq!(not(big("0n")), unspanned_truth(true));
    assert_eq!(not(big("1n")), unspanned_truth(false));
    assert_eq!(not(Expression::RegExpLiteral(node(1))), unspanned_truth(false));
    assert!(matches!(not(local("x")), Expression::UnaryExpression(_)));
    assert!(matches!(not(object()), Expression::UnaryExpression(_)));
}

#[test]
fn a_zero_bigint_is_known_by_its_text() {
    assert_eq!(fold(unary(UnaryOperator::LogicalNot, big("0x0n"))), unspanned_truth(false));
}

#[test]
fn signs_that_go_away() {
    assert_eq!(fold(unary(UnaryOperator::UnaryNegation, global("NaN"))), global("NaN"));
    assert_eq!(fold(unary(UnaryOperator::UnaryPlus, num(1.0))), num(1.0));
    assert!(matches!(
        fold(unary(UnaryOperator::UnaryNegation, num(1.0))),
        Expression::UnaryExpression(_)
    ));
    assert!(matches!(
        fold(unary(UnaryOperator::UnaryPlus, string("1"))),
        Expression::UnaryExpression(_)
    ));
    assert!(matches!(
        fold(unary(UnaryOperator::BitwiseNot, num(1.0))),
        Expression::UnaryExpression(_)
    ));
}

#[test]
fn void_is_reduced() {
    let void = |argument| unary(UnaryOperator::Void, argument);
    assert_eq!(fold(void(num(1.0))), void(zero()));
    assert_eq!(fold(void(local("x"))), void(zero()));
    assert_eq!(fold(void(num(0.0))), void(num(0.0)));
    assert_eq!(fold(void(call(1))), void(call(1)));
    assert_eq!(fold(fold(void(string("a")))), void(zero()));
}

#[test]
fn and_or_with_a_known_left_side() {
    let and = LogicalOperator::And;
    let or = LogicalOperator::Or;
    assert_eq!(fold(logical(or, num(3.0), call(1))), num(3.0));
    assert_eq!(fold(logical(and, boolean(false), call(1))), boolean(false));
    assert_eq!(fold(logical(or, boolean(false), call(1))), call(1));
    assert_eq!(fold(logical(and, boolean(true), call(1))), call(1));
    assert_eq!(fold(logical(and, string(""), call(1))), string(""));
    assert_eq!(fold(logical(or, global("undefined"), call(1))), call(1));
    assert_eq!(
        fold(logical(and, local("x"), call(1))),
        logical(and, local("x"), call(1))
    );
    let coalesce = LogicalOperator::Coalesce;
    assert_eq!(
        fold(logical(coalesce, null(), call(1))),
        logical(coalesce, null(), call(1))
    );
}

#[test]
fn and_or_keeps_the_effects_of_the_left_side() {
    let and = LogicalOperator::And;
    let or = LogicalOperator::Or;
    let effect = |value| sequence(vec![call(1), boolean(value)]);
    assert_eq!(fold(logical(or, effect(true), call(2))), effect(true));
    assert_eq!(fold(logical(and, effect(false), call(2))), effect(false));
    assert_eq!(
        fold(logical(or, effect(false), call(2))),
        sequence(vec![effect(false), call(2)])
    );
    assert_eq!(
        fold(logical(and, effect(true), call(2))),
        sequence(vec![effect(true), call(2)])
    );
}

#[test]
fn and_or_drops_an_idle_middle() {
    let and = LogicalOperator::And;
    let or = LogicalOperator::Or;
    assert_eq!(
        fold(logical(or, logical(or, local("a"), boolean(false)), local("b"))),
        logical(or, local("a"), local("b"))
    );
    assert_eq!(
        fold(logical(and, logical(and, local("a"), boolean(true)), local("b"))),
        logical(and, local("a"), local("b"))
    );
    for expr in [
        || logical(LogicalOperator::Or, logical(LogicalOperator::And, local("a"), boolean(true)), local("b")),
        || logical(LogicalOperator::Or, logical(LogicalOperator::Or, local("a"), call(1)), local("b")),
        || {
            logical(
                LogicalOperator::Or,
                logical(
                    LogicalOperator::Or,
                    local("a"),
                    sequence(vec![call(1), boolean(false)]),
                ),
                local("b"),
            )
        },
    ] {
        assert_eq!(fold(expr()), expr());
    }
}

#[test]
fn and_or_leaves_null_where_it_takes_out() {
    let mut expr = LogicalExpression {
        span: span(9),
        left: boolean(true),
        operator: LogicalOperator::And,
        right: call(1),
    };
    let folded = pass().try_fold_and_or(&mut expr, &ctx());
    assert_eq!(folded, Some(call(1)));
    assert_eq!(expr.left, boolean(true));
    assert_eq!(expr.right, Expression::NullLiteral(NullLiteral { span: span(1) }));
    let mut kept = LogicalExpression {
        span: span(9),
        left: local("x"),
        operator: LogicalOperator::And,
        right: call(1),
    };
    assert_eq!(pass().try_fold_and_or(&mut kept, &ctx()), None);
    assert_eq!(kept.left, local("x"));
    assert_eq!(kept.right, call(1));
}

#[test]
fn assignments_to_module_exports_stay() {
    let and = LogicalOperator::And;
    let or = LogicalOperator::Or;
    let exports = || assign(member(global("module"), Some("exports")), object());
    for operator in [and, or] {
        assert_eq!(
            fold(logical(operator, num(0.0), exports())),
            logical(operator, num(0.0), exports())
        );
    }
    assert_eq!(fold(logical(and, num(1.0), exports())), exports());
    let other = || assign(member(global("module"), Some("export")), object());
    assert_eq!(fold(logical(and, num(0.0), other())), num(0.0));
    let computed = || assign(member(global("module"), None), object());
    assert_eq!(fold(logical(and, num(0.0), computed())), num(0.0));
    let wrapped = || {
        assign(
            member(
                Expression::ParenthesizedExpression(Box::new(ParenthesizedExpression {
                    span: span(1),
                    expression: Expression::TSExpression(Box::new(TSExpression {
                        node: node(1),
                        expression: global("module"),
                    })),
                })),
                Some("exports"),
            ),
            object(),
        )
    };
    assert_eq!(
        fold(logical(and, num(0.0), wrapped())),
        logical(and, num(0.0), wrapped())
    );
    let plain = || assign(AssignmentTarget::Other(node(1)), object());
    assert_eq!(fold(logical(and, num(0.0), plain())), num(0.0));
}

#[test]
fn callees_stay_in_place() {
    for parent in [Ancestor::CallExpression, Ancestor::TaggedTemplateExpression] {
        let mut expr = logical(LogicalOperator::And, boolean(true), call(1));
        pass().fold_expression(&mut expr, &ctx_under(parent));
        assert_eq!(expr, logical(LogicalOperator::And, boolean(true), call(1)));
        let mut expr = conditional(boolean(true), call(1), call(2));
        pass().fold_expression(&mut expr, &ctx_under(parent));
        assert_eq!(expr, conditional(boolean(true), call(1), call(2)));
        let mut expr = conditional(boolean(false), call(1), call(2));
        pass().fold_expression(&mut expr, &ctx_under(parent));
        assert_eq!(expr, call(2));
    }
}

#[test]
fn conditionals_choose_a_branch() {
    assert_eq!(fold(conditional(boolean(true), call(1), call(2))), call(1));
    assert_eq!(fold(conditional(num(0.0), call(1), call(2))), call(2));
    assert_eq!(
        fold(conditional(binary(LT, num(1.0), num(2.0)), call(1), call(2))),
        call(1)
    );
    assert_eq!(
        fold(conditional(unary(UnaryOperator::Void, local("x")), call(1), call(2))),
        call(2)
    );
    assert_eq!(
        fold(conditional(
            logical(LogicalOperator::And, boolean(true), local("x")),
            call(1),
            call(2)
        )),
        conditional(local("x"), call(1), call(2))
    );
}

#[test]
fn a_test_with_an_effect_is_dropped_with_its_branch() {
    let test = || sequence(vec![call(3), boolean(true)]);
    assert_eq!(fold(conditional(test(), call(1), call(2))), call(1));
    assert_eq!(fold_statement(if_(test(), other(1), None)), other(1));
}

#[test]
fn other_expressions_are_left_alone() {
    for expr in operands() {
        assert_eq!(fold(expr()), expr());
    }
    let minus = || binary(BinaryOperator::Subtraction, num(1.0), num(1.0));
    assert_eq!(fold(minus()), minus());
}

#[test]
fn exit_expression_folds() {
    let mut expr = binary(LT, num(1.0), num(2.0));
    pass().exit_expression(&mut expr, &ctx());
    assert_eq!(expr, truth(true));
}

fn binding(name: &str) -> BindingIdentifier {
    BindingIdentifier { span: span(20), name: name.to_string() }
}

fn var(names: &[&str]) -> Statement {
    Statement::VariableDeclaration(VariableDeclaration {
        span: span(21),
        kind: VariableDeclarationKind::Var,
        names: names.iter().map(|name| binding(name)).collect(),
        source: Some(1),
    })
}

fn kept(names: &[&str]) -> Statement {
    Statement::VariableDeclaration(VariableDeclaration {
        span: Span::unspanned(),
        kind: VariableDeclarationKind::Var,
        names: names.iter().map(|name| binding(name)).collect(),
        source: None,
    })
}

fn other(id: u32) -> Statement {
    Statement::Other(node(id))
}

fn block(body: Vec<Statement>) -> Statement {
    Statement::BlockStatement(Box::new(BlockStatement { node: node(22), body }))
}

fn empty() -> Statement {
    Statement::EmptyStatement(EmptyStatement { span: Span::unspanned() })
}

fn if_(test: Expression, consequent: Statement, alternate: Option<Statement>) -> Statement {
    Statement::IfStatement(Box::new(IfStatement { span: span(23), test, consequent, alternate }))
}

fn fold_statement(mut stmt: Statement) -> Statement {
    pass().exit_statement(&mut stmt, &ctx());
    stmt
}

#[test]
fn if_statements_choose_a_branch() {
    assert_eq!(fold_statement(if_(boolean(true), other(1), Some(other(2)))), other(1));
    assert_eq!(fold_statement(if_(boolean(false), other(1), Some(other(2)))), other(2));
    assert_eq!(fold_statement(if_(boolean(false), other(1), None)), empty());
    assert_eq!(
        fold_statement(if_(binary(SEQ, num(1.0), num(2.0)), other(1), Some(other(2)))),
        other(2)
    );
    assert_eq!(
        fold_statement(if_(local("x"), other(1), Some(other(2)))),
        if_(local("x"), other(1), Some(other(2)))
    );
    assert_eq!(
        fold_statement(if_(
            logical(LogicalOperator::Or, boolean(false), local("x")),
            other(1),
            None
        )),
        if_(local("x"), other(1), None)
    );
}

#[test]
fn else_branches_are_folded_first() {
    assert_eq!(
        fold_statement(if_(
            local("x"),
            other(1),
            Some(if_(boolean(false), other(2), None))
        )),
        if_(local("x"), other(1), None)
    );
    assert_eq!(
        fold_statement(if_(
            local("x"),
            other(1),
            Some(if_(boolean(true), other(2), Some(other(3))))
        )),
        if_(local("x"), other(1), Some(other(2)))
    );
    assert_eq!(
        fold_statement(if_(boolean(false), var(&["a"]), Some(empty()))),
        kept(&["a"])
    );
}

#[test]
fn variables_of_a_dropped_branch_are_kept() {
    assert_eq!(fold_statement(if_(boolean(false), var(&["a", "b"]), None)), kept(&["a", "b"]));
    let nested = block(vec![
        var(&["a"]),
        Statement::ForStatement(Box::new(ForStatement {
            node: node(1),
            init: Some(VariableDeclaration {
                span: span(1),
                kind: VariableDeclarationKind::Var,
                names: vec![binding("i")],
                source: Some(2),
            }),
            test: None,
            body: if_(local("x"), var(&["c"]), Some(block(vec![var(&["d"])]))),
        })),
        Statement::VariableDeclaration(VariableDeclaration {
            span: span(1),
            kind: VariableDeclarationKind::Let,
            names: vec![binding("hidden")],
            source: Some(3),
        }),
        Statement::WhileStatement(Box::new(WhileStatement {
            span: span(1),
            test: local("x"),
            body: block(vec![other(4), var(&["e"])]),
        })),
    ]);
    assert_eq!(
        fold_statement(if_(num(0.0), nested, None)),
        kept(&["a", "i", "c", "d", "e"])
    );
}

#[test]
fn kept_variables_are_collected() {
    let mut keep_var = KeepVar::new();
    keep_var.visit_statement(&other(1));
    assert_eq!(keep_var.get_variable_declaration_statement(), None);
    let mut keep_var = KeepVar::new();
    keep_var.visit_statement(&var(&["a"]));
    keep_var.visit_statement(&var(&["b"]));
    assert_eq!(keep_var.get_variable_declaration_statement(), Some(kept(&["a", "b"])));
}

#[test]
fn negated_equalities_in_loops_are_inverted() {
    let not = |operator| unary(UnaryOperator::LogicalNot, binary(operator, local("a"), local("b")));
    for (operator, inverse) in [(EQ, NE), (NE, EQ), (SEQ, SNE), (SNE, SEQ)] {
        let stmt = Statement::WhileStatement(Box::new(WhileStatement {
            span: span(1),
            test: not(operator),
            body: other(1),
        }));
        let expected = Statement::WhileStatement(Box::new(WhileStatement {
            span: span(1),
            test: binary(inverse, local("a"), local("b")),
            body: other(1),
        }));
        assert_eq!(fold_statement(stmt), expected);
        let stmt = Statement::ForStatement(Box::new(ForStatement {
            node: node(1),
            init: None,
            test: Some(not(operator)),
            body: other(1),
        }));
        let expected = Statement::ForStatement(Box::new(ForStatement {
            node: node(1),
            init: None,
            test: Some(binary(inverse, local("a"), local("b"))),
            body: other(1),
        }));
        assert_eq!(fold_statement(stmt), expected);
    }
}

#[test]
fn other_loop_conditions_stay() {
    let while_ = |test| {
        Statement::WhileStatement(Box::new(WhileStatement { span: span(1), test, body: other(1) }))
    };
    for test in [
        || unary(UnaryOperator::LogicalNot, binary(LT, local("a"), local("b"))),
        || unary(UnaryOperator::LogicalNot, local("a")),
        || unary(UnaryOperator::Typeof, binary(EQ, local("a"), local("b"))),
        || binary(EQ, local("a"), local("b")),
        || boolean(false),
    ] {
        assert_eq!(fold_statement(while_(test())), while_(test()));
    }
    let endless = || {
        Statement::ForStatement(Box::new(ForStatement {
            node: node(1),
            init: None,
            test: None,
            body: other(1),
        }))
    };
    assert_eq!(fold_statement(endless()), endless());
    assert_eq!(fold_statement(other(1)), other(1));
}

#[test]
fn truth_values() {
    let ctx = ctx();
    let truth = |expr: Expression| ctx.get_boolean_value(&expr);
    assert_eq!(truth(object()), Tri::True);
    assert_eq!(truth(template("")), Tri::False);
    assert_eq!(truth(big("0n")), Tri::False);
    assert_eq!(truth(big("0x0n")), Tri::False);
    assert_eq!(truth(big("0x10n")), Tri::True);
    assert_eq!(truth(num(f64::NAN)), Tri::False);
    assert_eq!(truth(global("NaN")), Tri::False);
    assert_eq!(truth(global("Infinity")), Tri::True);
    assert_eq!(truth(local("NaN")), Tri::Unknown);
    assert_eq!(truth(assign(AssignmentTarget::Other(node(1)), num(1.0))), Tri::True);
    assert_eq!(truth(sequence(vec![call(1), num(0.0)])), Tri::False);
    assert_eq!(truth(sequence(vec![])), Tri::Unknown);
    assert_eq!(
        truth(logical(LogicalOperator::And, local("x"), boolean(false))),
        Tri::False
    );
    assert_eq!(
        truth(logical(LogicalOperator::Or, local("x"), boolean(false))),
        Tri::Unknown
    );
    assert_eq!(truth(unary(UnaryOperator::BitwiseNot, num(-1.0))), Tri::False);
    assert_eq!(truth(unary(UnaryOperator::UnaryPlus, string("abc"))), Tri::False);
    assert_eq!(truth(unary(UnaryOperator::Void, call(1))), Tri::False);
}

#[test]
fn number_values_of_expressions() {
    let ctx = ctx();
    let value = |expr: Expression| ctx.get_number_value(&expr);
    let n = |value: f64| Some(NumberValue::Number(number(value)));
    assert_eq!(value(unary(UnaryOperator::BitwiseNot, num(-3000000000.0))), n(-1294967297.0));
    assert_eq!(value(unary(UnaryOperator::BitwiseNot, global("Infinity"))), n(-1.0));
    assert_eq!(value(unary(UnaryOperator::UnaryNegation, string("17"))), n(-17.0));
    assert_eq!(value(unary(UnaryOperator::LogicalNot, num(1.0))), n(0.0));
    assert_eq!(value(template("1.5")), n(1.5));
    assert_eq!(value(string("unlisted")), None);
    assert_eq!(value(big("1n")), None);
}

#[test]
fn integers_of_texts() {
    let read = |text: &str| bigint::read_string(text).map(|n| n.bytes);
    assert_eq!(read("255"), Some(vec![255, 0]));
    assert_eq!(read("-1"), Some(vec![255]));
    assert_eq!(read(" 0b11 "), Some(vec![3]));
    assert_eq!(read("0o17"), Some(vec![15]));
    assert_eq!(read(""), Some(vec![0]));
    assert_eq!(read("-0x10"), None);
    assert_eq!(read("1.5"), None);
    assert_eq!(read("\u{b}1"), None);
    assert_eq!(read("0x"), None);
    assert_eq!(bigint::read_literal("1_0n").map(|n| n.bytes), Some(vec![10]));
    assert_eq!(bigint::read_literal("_1n").map(|n| n.bytes), None);
}
