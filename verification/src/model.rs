//! The syntax tree as a mathematical value: the same shape with sequences for strings and lists.
use vstd::prelude::*;

use crate::ast::{
    ArrayExpressionElement, AssignmentTarget, BigintBase, BinaryExpression, BindingIdentifier,
    ConditionalExpression, Expression, IdentifierReference, LogicalExpression, NodeRef, NumberBase,
    ObjectPropertyKind, Span, Statement, UnaryExpression, VariableDeclaration,
    VariableDeclarationKind,
};
use crate::number::Number;
use crate::operator::{AssignmentOperator, BinaryOperator, LogicalOperator, UnaryOperator};

verus! {

pub struct Identifier {
    pub node: NodeRef,
    pub name: Seq<char>,
    pub global: bool,
}

pub enum Element {
    Value(Expr),
    Spread(NodeRef),
    Elision(Span),
}

pub enum Property {
    Value { node: NodeRef, key: Option<Expr>, value: Expr },
    Spread(NodeRef),
}

pub enum Target {
    Member { node: NodeRef, object: Box<Expr>, property: Option<Seq<char>> },
    Other(NodeRef),
}

pub struct Binary {
    pub span: Span,
    pub left: Box<Expr>,
    pub operator: BinaryOperator,
    pub right: Box<Expr>,
}

pub struct Logical {
    pub span: Span,
    pub left: Box<Expr>,
    pub operator: LogicalOperator,
    pub right: Box<Expr>,
}

pub struct Conditional {
    pub span: Span,
    pub test: Box<Expr>,
    pub consequent: Box<Expr>,
    pub alternate: Box<Expr>,
}

pub struct Unary {
    pub span: Span,
    pub operator: UnaryOperator,
    pub argument: Box<Expr>,
}

/// An expression.
#[allow(inconsistent_fields)]
pub enum Expr {
    Boolean { span: Span, value: bool },
    Null { span: Span },
    Numeric { span: Span, value: Number, raw: Seq<char>, base: NumberBase },
    BigInt { span: Span, raw: Seq<char>, base: BigintBase },
    RegExp(NodeRef),
    Str { span: Span, value: Seq<char> },
    Template { node: NodeRef, cooked: Option<Seq<char>>, expressions: Seq<Expr> },
    Identifier(Identifier),
    MetaProperty(NodeRef),
    Array { node: NodeRef, elements: Seq<Element> },
    ArrowFunction(NodeRef),
    Assignment { span: Span, operator: AssignmentOperator, left: Target, right: Box<Expr> },
    Binary(Binary),
    Class(NodeRef),
    Conditional(Conditional),
    Function(NodeRef),
    Logical(Logical),
    New(NodeRef),
    Object { node: NodeRef, properties: Seq<Property> },
    Parenthesized { span: Span, expression: Box<Expr> },
    Sequence { span: Span, expressions: Seq<Expr> },
    This(NodeRef),
    Unary(Unary),
    TypeScript { node: NodeRef, expression: Box<Expr> },
    Other(NodeRef),
}

pub open spec fn optional_text(text: Option<String>) -> Option<Seq<char>> {
    match text {
        Some(s) => Some(s@),
        None => None,
    }
}

impl IdentifierReference {
    pub open spec fn view(&self) -> Identifier {
        Identifier { node: self.node, name: self.name@, global: self.global }
    }
}

impl Expression {
    pub open spec fn view(&self) -> Expr
        decreases self,
    {
        match self {
            Expression::BooleanLiteral(e) => Expr::Boolean { span: e.span, value: e.value },
            Expression::NullLiteral(e) => Expr::Null { span: e.span },
            Expression::NumericLiteral(e) => Expr::Numeric {
                span: e.span,
                value: e.value,
                raw: e.raw@,
                base: e.base,
            },
            Expression::BigIntLiteral(e) => Expr::BigInt {
                span: e.span,
                raw: e.raw@,
                base: e.base,
            },
            Expression::RegExpLiteral(node) => Expr::RegExp(*node),
            Expression::StringLiteral(e) => Expr::Str { span: e.span, value: e.value@ },
            Expression::TemplateLiteral(e) => Expr::Template {
                node: e.node,
                cooked: optional_text(e.cooked),
                expressions: Seq::new(
                    e.expressions@.len(),
                    |i: int|
                        if 0 <= i < e.expressions@.len() {
                            e.expressions@[i].view()
                        } else {
                            arbitrary()
                        },
                ),
            },
            Expression::Identifier(e) => Expr::Identifier(e.view()),
            Expression::MetaProperty(node) => Expr::MetaProperty(*node),
            Expression::ArrayExpression(e) => Expr::Array {
                node: e.node,
                elements: Seq::new(
                    e.elements@.len(),
                    |i: int|
                        if 0 <= i < e.elements@.len() {
                            match e.elements@[i] {
                                ArrayExpressionElement::Expression(x) => Element::Value(x.view()),
                                ArrayExpressionElement::SpreadElement(node) => Element::Spread(
                                    node,
                                ),
                                ArrayExpressionElement::Elision(span) => Element::Elision(span),
                            }
                        } else {
                            arbitrary()
                        },
                ),
            },
            Expression::ArrowFunctionExpression(node) => Expr::ArrowFunction(*node),
            Expression::AssignmentExpression(e) => Expr::Assignment {
                span: e.span,
                operator: e.operator,
                left: match e.left {
                    AssignmentTarget::MemberExpression(m) => Target::Member {
                        node: m.node,
                        object: Box::new(m.object.view()),
                        property: optional_text(m.property),
                    },
                    AssignmentTarget::Other(node) => Target::Other(node),
                },
                right: Box::new(e.right.view()),
            },
            Expression::BinaryExpression(e) => Expr::Binary(
                Binary {
                    span: e.span,
                    left: Box::new(e.left.view()),
                    operator: e.operator,
                    right: Box::new(e.right.view()),
                },
            ),
            Expression::ClassExpression(node) => Expr::Class(*node),
            Expression::ConditionalExpression(e) => Expr::Conditional(
                Conditional {
                    span: e.span,
                    test: Box::new(e.test.view()),
                    consequent: Box::new(e.consequent.view()),
                    alternate: Box::new(e.alternate.view()),
                },
            ),
            Expression::FunctionExpression(node) => Expr::Function(*node),
            Expression::LogicalExpression(e) => Expr::Logical(
                Logical {
                    span: e.span,
                    left: Box::new(e.left.view()),
                    operator: e.operator,
                    right: Box::new(e.right.view()),
                },
            ),
            Expression::NewExpression(node) => Expr::New(*node),
            Expression::ObjectExpression(e) => Expr::Object {
                node: e.node,
                properties: Seq::new(
                    e.properties@.len(),
                    |i: int|
                        if 0 <= i < e.properties@.len() {
                            match e.properties@[i] {
                                ObjectPropertyKind::ObjectProperty(p) => Property::Value {
                                    node: p.node,
                                    key: match p.key {
                                        Some(k) => Some(k.view()),
                                        None => None,
                                    },
                                    value: p.value.view(),
                                },
                                ObjectPropertyKind::SpreadProperty(node) => Property::Spread(node),
                            }
                        } else {
                            arbitrary()
                        },
                ),
            },
            Expression::ParenthesizedExpression(e) => Expr::Parenthesized {
                span: e.span,
                expression: Box::new(e.expression.view()),
            },
            Expression::SequenceExpression(e) => Expr::Sequence {
                span: e.span,
                expressions: Seq::new(
                    e.expressions@.len(),
                    |i: int|
                        if 0 <= i < e.expressions@.len() {
                            e.expressions@[i].view()
                        } else {
                            arbitrary()
                        },
                ),
            },
            Expression::ThisExpression(node) => Expr::This(*node),
            Expression::UnaryExpression(e) => Expr::Unary(
                Unary {
                    span: e.span,
                    operator: e.operator,
                    argument: Box::new(e.argument.view()),
                },
            ),
            Expression::TSExpression(e) => Expr::TypeScript {
                node: e.node,
                expression: Box::new(e.expression.view()),
            },
            Expression::Other(node) => Expr::Other(*node),
        }
    }
}

impl BinaryExpression {
    pub open spec fn view(&self) -> Binary {
        Binary {
            span: self.span,
            left: Box::new(self.left@),
            operator: self.operator,
            right: Box::new(self.right@),
        }
    }
}

impl LogicalExpression {
    pub open spec fn view(&self) -> Logical {
        Logical {
            span: self.span,
            left: Box::new(self.left@),
            operator: self.operator,
            right: Box::new(self.right@),
        }
    }
}

impl ConditionalExpression {
    pub open spec fn view(&self) -> Conditional {
        Conditional {
            span: self.span,
            test: Box::new(self.test@),
            consequent: Box::new(self.consequent@),
            alternate: Box::new(self.alternate@),
        }
    }
}

impl UnaryExpression {
    pub open spec fn view(&self) -> Unary {
        Unary { span: self.span, operator: self.operator, argument: Box::new(self.argument@) }
    }
}

/// The expression of an optional one.
pub open spec fn optional_expr(e: Option<Expression>) -> Option<Expr> {
    match e {
        Some(e) => Some(e@),
        None => None,
    }
}

impl Expr {
    pub open spec fn span(self) -> Span {
        match self {
            Expr::Boolean { span, .. } => span,
            Expr::Null { span } => span,
            Expr::Numeric { span, .. } => span,
            Expr::BigInt { span, .. } => span,
            Expr::RegExp(node) => node.span,
            Expr::Str { span, .. } => span,
            Expr::Template { node, .. } => node.span,
            Expr::Identifier(identifier) => identifier.node.span,
            Expr::MetaProperty(node) => node.span,
            Expr::Array { node, .. } => node.span,
            Expr::ArrowFunction(node) => node.span,
            Expr::Assignment { span, .. } => span,
            Expr::Binary(e) => e.span,
            Expr::Class(node) => node.span,
            Expr::Conditional(e) => e.span,
            Expr::Function(node) => node.span,
            Expr::Logical(e) => e.span,
            Expr::New(node) => node.span,
            Expr::Object { node, .. } => node.span,
            Expr::Parenthesized { span, .. } => span,
            Expr::Sequence { span, .. } => span,
            Expr::This(node) => node.span,
            Expr::Unary(e) => e.span,
            Expr::TypeScript { node, .. } => node.span,
            Expr::Other(node) => node.span,
        }
    }
}

pub struct Binding {
    pub span: Span,
    pub name: Seq<char>,
}

pub struct Variables {
    pub span: Span,
    pub kind: VariableDeclarationKind,
    pub names: Seq<Binding>,
    pub source: Option<u32>,
}

/// A statement.
#[allow(inconsistent_fields)]
pub enum Stmt {
    Block { node: NodeRef, body: Seq<Stmt> },
    Empty { span: Span },
    For { node: NodeRef, init: Option<Variables>, test: Option<Expr>, body: Box<Stmt> },
    If { span: Span, test: Expr, consequent: Box<Stmt>, alternate: Option<Box<Stmt>> },
    Variables(Variables),
    While { span: Span, test: Expr, body: Box<Stmt> },
    Other(NodeRef),
}

impl BindingIdentifier {
    pub open spec fn view(&self) -> Binding {
        Binding { span: self.span, name: self.name@ }
    }
}

pub open spec fn bindings(names: Seq<BindingIdentifier>) -> Seq<Binding> {
    names.map_values(|b: BindingIdentifier| b.view())
}

impl VariableDeclaration {
    pub open spec fn view(&self) -> Variables {
        Variables {
            span: self.span,
            kind: self.kind,
            names: bindings(self.names@),
            source: self.source,
        }
    }
}

impl Statement {
    pub open spec fn view(&self) -> Stmt
        decreases self,
    {
        match self {
            Statement::BlockStatement(s) => Stmt::Block {
                node: s.node,
                body: Seq::new(
                    s.body@.len(),
                    |i: int|
                        if 0 <= i < s.body@.len() {
                            s.body@[i].view()
                        } else {
                            arbitrary()
                        },
                ),
            },
            Statement::EmptyStatement(s) => Stmt::Empty { span: s.span },
            Statement::ForStatement(s) => Stmt::For {
                node: s.node,
                init: match s.init {
                    Some(declaration) => Some(declaration.view()),
                    None => None,
                },
                test: optional_expr(s.test),
                body: Box::new(s.body.view()),
            },
            Statement::IfStatement(s) => Stmt::If {
                span: s.span,
                test: s.test@,
                consequent: Box::new(s.consequent.view()),
                alternate: match s.alternate {
                    Some(a) => Some(Box::new(a.view())),
                    None => None,
                },
            },
            Statement::VariableDeclaration(s) => Stmt::Variables(s.view()),
            Statement::WhileStatement(s) => Stmt::While {
                span: s.span,
                test: s.test@,
                body: Box::new(s.body.view()),
            },
            Statement::Other(node) => Stmt::Other(*node),
        }
    }
}

impl Stmt {
    pub open spec fn span(self) -> Span {
        match self {
            Stmt::Block { node, .. } => node.span,
            Stmt::Empty { span } => span,
            Stmt::For { node, .. } => node.span,
            Stmt::If { span, .. } => span,
            Stmt::Variables(declaration) => declaration.span,
            Stmt::While { span, .. } => span,
            Stmt::Other(node) => node.span,
        }
    }
}

} // verus!
