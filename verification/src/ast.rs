//! The syntax tree that the folding rules read and rewrite.
//!
//! The tree holds what some rule reads. A part that no rule looks into is a [`NodeRef`]: it has a
//! place in the source and a number by which its owner finds it again.
use vstd::prelude::*;

use crate::number::Number;
use crate::operator::{AssignmentOperator, BinaryOperator, LogicalOperator, UnaryOperator};

verus! {

/// A range of the source text.
#[derive(Clone, Copy, Debug, PartialEq, Eq, Structural)]
pub struct Span {
    pub start: u32,
    pub end: u32,
}

impl Span {
    /// The span of nodes that stand nowhere in the source text.
    #[verifier::allow_in_spec]
    pub fn unspanned() -> Span
        returns
            (Span { start: 0, end: 0 }),
    {
        Span { start: 0, end: 0 }
    }
}

/// A part of the program that no rule looks into.
#[derive(Clone, Copy, Debug, PartialEq, Eq, Structural)]
pub struct NodeRef {
    pub span: Span,
    pub id: u32,
}

/// How a number is written.
#[derive(Clone, Copy, Debug, PartialEq, Eq, Structural)]
pub enum NumberBase {
    Float,
    Decimal,
    Binary,
    Octal,
    Hex,
}

/// How a BigInt is written.
#[derive(Clone, Copy, Debug, PartialEq, Eq, Structural)]
pub enum BigintBase {
    Decimal,
    Binary,
    Octal,
    Hex,
}

#[derive(Debug, PartialEq)]
pub struct BooleanLiteral {
    pub span: Span,
    pub value: bool,
}

#[derive(Debug, PartialEq)]
pub struct NullLiteral {
    pub span: Span,
}

#[derive(Debug, PartialEq)]
pub struct NumericLiteral {
    pub span: Span,
    pub value: Number,
    pub raw: String,
    pub base: NumberBase,
}

#[derive(Debug, PartialEq)]
pub struct BigIntLiteral {
    pub span: Span,
    pub raw: String,
    pub base: BigintBase,
}

#[derive(Debug, PartialEq)]
pub struct StringLiteral {
    pub span: Span,
    pub value: String,
}

/// A template: the text in front of the first substitution, where it has a meaning as a string,
/// and the substituted expressions.
#[derive(Debug, PartialEq)]
pub struct TemplateLiteral {
    pub node: NodeRef,
    pub cooked: Option<String>,
    pub expressions: Vec<Expression>,
}

/// A name that is read. It is global where no declaration in the program binds it.
#[derive(Debug, PartialEq)]
pub struct IdentifierReference {
    pub node: NodeRef,
    pub name: String,
    pub global: bool,
}

#[derive(Debug, PartialEq)]
pub enum ArrayExpressionElement {
    Expression(Expression),
    SpreadElement(NodeRef),
    Elision(Span),
}

#[derive(Debug, PartialEq)]
pub struct ArrayExpression {
    pub node: NodeRef,
    pub elements: Vec<ArrayExpressionElement>,
}

/// A property of an object literal. `key` is there where it is computed.
#[derive(Debug, PartialEq)]
pub struct ObjectProperty {
    pub node: NodeRef,
    pub key: Option<Expression>,
    pub value: Expression,
}

#[derive(Debug, PartialEq)]
pub enum ObjectPropertyKind {
    ObjectProperty(ObjectProperty),
    SpreadProperty(NodeRef),
}

#[derive(Debug, PartialEq)]
pub struct ObjectExpression {
    pub node: NodeRef,
    pub properties: Vec<ObjectPropertyKind>,
}

/// A member of an object. `property` is its name, where the name is fixed in the source.
#[derive(Debug, PartialEq)]
pub struct MemberExpression {
    pub node: NodeRef,
    pub object: Expression,
    pub property: Option<String>,
}

#[derive(Debug, PartialEq)]
pub enum AssignmentTarget {
    MemberExpression(Box<MemberExpression>),
    Other(NodeRef),
}

#[derive(Debug, PartialEq)]
pub struct AssignmentExpression {
    pub span: Span,
    pub operator: AssignmentOperator,
    pub left: AssignmentTarget,
    pub right: Expression,
}

#[derive(Debug, PartialEq)]
pub struct BinaryExpression {
    pub span: Span,
    pub left: Expression,
    pub operator: BinaryOperator,
    pub right: Expression,
}

#[derive(Debug, PartialEq)]
pub struct LogicalExpression {
    pub span: Span,
    pub left: Expression,
    pub operator: LogicalOperator,
    pub right: Expression,
}

#[derive(Debug, PartialEq)]
pub struct ConditionalExpression {
    pub span: Span,
    pub test: Expression,
    pub consequent: Expression,
    pub alternate: Expression,
}

#[derive(Debug, PartialEq)]
pub struct UnaryExpression {
    pub span: Span,
    pub operator: UnaryOperator,
    pub argument: Expression,
}

#[derive(Debug, PartialEq)]
pub struct SequenceExpression {
    pub span: Span,
    pub expressions: Vec<Expression>,
}

#[derive(Debug, PartialEq)]
pub struct ParenthesizedExpression {
    pub span: Span,
    pub expression: Expression,
}

/// An expression under a TypeScript annotation.
#[derive(Debug, PartialEq)]
pub struct TSExpression {
    pub node: NodeRef,
    pub expression: Expression,
}

/// An expression. `Other` stands for the kinds that no rule tells apart: calls, members, updates
/// and the like.
#[derive(Debug, PartialEq)]
pub enum Expression {
    BooleanLiteral(BooleanLiteral),
    NullLiteral(NullLiteral),
    NumericLiteral(NumericLiteral),
    BigIntLiteral(BigIntLiteral),
    RegExpLiteral(NodeRef),
    StringLiteral(StringLiteral),
    TemplateLiteral(Box<TemplateLiteral>),
    Identifier(IdentifierReference),
    MetaProperty(NodeRef),
    ArrayExpression(Box<ArrayExpression>),
    ArrowFunctionExpression(NodeRef),
    AssignmentExpression(Box<AssignmentExpression>),
    BinaryExpression(Box<BinaryExpression>),
    ClassExpression(NodeRef),
    ConditionalExpression(Box<ConditionalExpression>),
    FunctionExpression(NodeRef),
    LogicalExpression(Box<LogicalExpression>),
    NewExpression(NodeRef),
    ObjectExpression(Box<ObjectExpression>),
    ParenthesizedExpression(Box<ParenthesizedExpression>),
    SequenceExpression(Box<SequenceExpression>),
    ThisExpression(NodeRef),
    UnaryExpression(Box<UnaryExpression>),
    TSExpression(Box<TSExpression>),
    Other(NodeRef),
}

/// A name that a declaration binds.
#[derive(Debug, PartialEq)]
pub struct BindingIdentifier {
    pub span: Span,
    pub name: String,
}

#[derive(Clone, Copy, Debug, PartialEq, Eq, Structural)]
pub enum VariableDeclarationKind {
    Var,
    Let,
    Const,
}

/// A declaration of variables. `source` is the number by which the owner finds the declarators of
/// one that stands in the program; one without it declares the names and gives them no values.
#[derive(Debug, PartialEq)]
pub struct VariableDeclaration {
    pub span: Span,
    pub kind: VariableDeclarationKind,
    pub names: Vec<BindingIdentifier>,
    pub source: Option<u32>,
}

/// A block, or another statement that no rule rewrites and that has statements in it, which are
/// listed in the order of the source: a labelled statement, a `switch`, a `try` and the like.
#[derive(Debug, PartialEq)]
pub struct BlockStatement {
    pub node: NodeRef,
    pub body: Vec<Statement>,
}

#[derive(Debug, PartialEq)]
pub struct EmptyStatement {
    pub span: Span,
}

/// A `for` loop: the declaration in its head, where there is one, its test and its body.
#[derive(Debug, PartialEq)]
pub struct ForStatement {
    pub node: NodeRef,
    pub init: Option<VariableDeclaration>,
    pub test: Option<Expression>,
    pub body: Statement,
}

#[derive(Debug, PartialEq)]
pub struct IfStatement {
    pub span: Span,
    pub test: Expression,
    pub consequent: Statement,
    pub alternate: Option<Statement>,
}

#[derive(Debug, PartialEq)]
pub struct WhileStatement {
    pub span: Span,
    pub test: Expression,
    pub body: Statement,
}

/// A statement. `Other` stands for the kinds that no rule rewrites and that have no statements in
/// them.
#[derive(Debug, PartialEq)]
pub enum Statement {
    BlockStatement(Box<BlockStatement>),
    EmptyStatement(EmptyStatement),
    ForStatement(Box<ForStatement>),
    IfStatement(Box<IfStatement>),
    VariableDeclaration(VariableDeclaration),
    WhileStatement(Box<WhileStatement>),
    Other(NodeRef),
}

} // verus!
