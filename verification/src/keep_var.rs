//! The variables that a statement which is dropped still declares.
use vstd::prelude::*;

use crate::ast::{
    BindingIdentifier, NodeRef, Span, Statement, VariableDeclaration, VariableDeclarationKind,
};
use crate::model;
use crate::model::{Binding, Stmt, Variables};

verus! {

impl Variables {
    /// The names that the declaration binds in the enclosing function.
    pub open spec fn hoisted(self) -> Seq<Binding> {
        if self.kind is Var {
            self.names
        } else {
            Seq::empty()
        }
    }
}

impl Stmt {
    /// The names that `var` declarations in the statement bind in the enclosing function, in the
    /// order of the source.
    pub open spec fn hoisted(self) -> Seq<Binding>
        decreases self, 0nat,
    {
        match self {
            Stmt::Block { body, .. } => hoisted_in(body),
            Stmt::Empty { .. } | Stmt::Other(_) => Seq::empty(),
            Stmt::For { init, body, .. } => match init {
                Some(declaration) => declaration.hoisted() + body.hoisted(),
                None => body.hoisted(),
            },
            Stmt::If { consequent, alternate, .. } => match alternate {
                Some(a) => consequent.hoisted() + a.hoisted(),
                None => consequent.hoisted(),
            },
            Stmt::Variables(declaration) => declaration.hoisted(),
            Stmt::While { body, .. } => body.hoisted(),
        }
    }

    /// The declaration that keeps the variables of a dropped statement; an empty statement where
    /// it has none.
    pub open spec fn kept_variables(self) -> Stmt {
        if self.hoisted().len() == 0 {
            Stmt::Empty { span: Span::unspanned() }
        } else {
            Stmt::Variables(
                Variables {
                    span: Span::unspanned(),
                    kind: VariableDeclarationKind::Var,
                    names: self.hoisted(),
                    source: None,
                },
            )
        }
    }
}

/// The names that the statements of a list bind in the enclosing function.
pub open spec fn hoisted_in(body: Seq<Stmt>) -> Seq<Binding>
    decreases body, body.len(),
{
    if body.len() == 0 {
        Seq::empty()
    } else {
        hoisted_in(body.drop_last()) + body.last().hoisted()
    }
}

/// The names of two lists of statements are those of the one and then those of the other.
proof fn lemma_hoisted_in_both(first: Seq<Stmt>, second: Seq<Stmt>)
    ensures
        hoisted_in(first + second) == hoisted_in(first) + hoisted_in(second),
    decreases second.len(),
{
    if second.len() == 0 {
        assert(first + second =~= first);
        assert(hoisted_in(first) + hoisted_in(second) =~= hoisted_in(first));
    } else {
        let front = second.drop_last();
        lemma_hoisted_in_both(first, front);
        assert((first + second).drop_last() =~= first + front);
        assert((first + second).last() == second.last());
        assert(hoisted_in(first + second) =~= hoisted_in(first) + hoisted_in(second));
    }
}

/// The names of one statement in a list.
proof fn lemma_hoisted_in_one(s: Stmt)
    ensures
        hoisted_in(seq![s]) == s.hoisted(),
{
    assert(seq![s].drop_last() =~= Seq::<Stmt>::empty());
    assert(hoisted_in(Seq::<Stmt>::empty()) =~= Seq::<Binding>::empty());
    assert(hoisted_in(seq![s]) =~= s.hoisted());
}

/// The names come in the order of the source: those of a statement before those of the next, those
/// of the head of a loop before those of its body, and those of a branch before those of the
/// `else` branch. A `var` declaration gives its names as they stand, any other one none.
pub proof fn law_names_come_in_the_order_of_the_source(
    node: NodeRef,
    first: Seq<Stmt>,
    second: Seq<Stmt>,
    s: Stmt,
)
    ensures
        (Stmt::Block { node, body: first + second }).hoisted() == (Stmt::Block {
            node,
            body: first,
        }).hoisted() + (Stmt::Block { node, body: second }).hoisted(),
        (Stmt::Block { node, body: seq![s] }).hoisted() == s.hoisted(),
        match s {
            Stmt::For { init: Some(declaration), body, .. } => s.hoisted() == Stmt::Variables(
                declaration,
            ).hoisted() + body.hoisted(),
            Stmt::For { init: None, body, .. } => s.hoisted() == body.hoisted(),
            Stmt::While { body, .. } => s.hoisted() == body.hoisted(),
            Stmt::If { consequent, alternate: Some(a), .. } => s.hoisted() == consequent.hoisted()
                + a.hoisted(),
            Stmt::If { consequent, alternate: None, .. } => s.hoisted() == consequent.hoisted(),
            Stmt::Variables(declaration) => s.hoisted() == if declaration.kind is Var {
                declaration.names
            } else {
                Seq::empty()
            },
            _ => true,
        },
{
    lemma_hoisted_in_both(first, second);
    lemma_hoisted_in_one(s);
}

/// A name of a list of statements is one of a statement in it.
proof fn lemma_hoisted_in(body: Seq<Stmt>, name: Binding)
    ensures
        hoisted_in(body).contains(name) <==> exists|i: int|
            0 <= i < body.len() && (#[trigger] body[i]).hoisted().contains(name),
    decreases body.len(),
{
    if body.len() > 0 {
        let front = body.drop_last();
        lemma_hoisted_in(front, name);
        lemma_contains_in_either(hoisted_in(front), body.last().hoisted(), name);
        assert forall|i: int| 0 <= i < front.len() implies #[trigger] front[i] == body[i] by {}
        if hoisted_in(front).contains(name) {
            let i = choose|i: int|
                0 <= i < front.len() && (#[trigger] front[i]).hoisted().contains(name);
            assert(body[i].hoisted().contains(name));
        }
        if exists|i: int| 0 <= i < body.len() && (#[trigger] body[i]).hoisted().contains(name) {
            let i = choose|i: int|
                0 <= i < body.len() && (#[trigger] body[i]).hoisted().contains(name);
            if i < front.len() {
                assert(front[i].hoisted().contains(name));
            }
        }
    }
}

proof fn lemma_contains_in_either(a: Seq<Binding>, b: Seq<Binding>, name: Binding)
    ensures
        (a + b).contains(name) <==> a.contains(name) || b.contains(name),
{
    if a.contains(name) {
        let i = choose|i: int| 0 <= i < a.len() && a[i] == name;
        assert((a + b)[i] == name);
    }
    if b.contains(name) {
        let i = choose|i: int| 0 <= i < b.len() && b[i] == name;
        assert((a + b)[a.len() + i] == name);
    }
}

/// Whether the statement itself declares the name, whatever stands in it.
spec fn heads(s: Stmt, name: Binding) -> bool {
    s.declaration() matches Some(declaration) && declaration.kind is Var
        && declaration.names.contains(name)
}

/// The names that a statement binds in the enclosing function are those for which a `var`
/// declaration stands in it, at any depth.
pub proof fn law_hoisted_names_are_those_declared(s: Stmt, name: Binding)
    ensures
        s.hoisted().contains(name) <==> s.declares(name),
    decreases s,
{
    assert(s.occurs(s));
    match s {
        Stmt::Block { body, .. } => {
            lemma_hoisted_in(body, name);
            assert forall|i: int| 0 <= i < body.len() implies (
            #[trigger] body[i]).hoisted().contains(name) == body[i].declares(name) by {
                law_hoisted_names_are_those_declared(body[i], name);
            }
            if s.hoisted().contains(name) {
                let i = choose|i: int|
                    0 <= i < body.len() && (#[trigger] body[i]).hoisted().contains(name);
                let part = choose|part: Stmt| #[trigger] part.occurs(body[i]) && heads(part, name);
                assert(part.occurs(s));
            }
            if s.declares(name) {
                let part = choose|part: Stmt| #[trigger] part.occurs(s) && heads(part, name);
                let i = choose|i: int| 0 <= i < body.len() && part.occurs(#[trigger] body[i]);
                assert(body[i].declares(name));
            }
        },
        Stmt::For { init, body, .. } => {
            law_hoisted_names_are_those_declared(*body, name);
            match init {
                Some(declaration) => lemma_contains_in_either(
                    declaration.hoisted(),
                    body.hoisted(),
                    name,
                ),
                None => {},
            }
            lemma_declared_within(*body, *body, s, name);
        },
        Stmt::While { body, .. } => {
            law_hoisted_names_are_those_declared(*body, name);
            lemma_declared_within(*body, *body, s, name);
        },
        Stmt::If { consequent, alternate, .. } => {
            law_hoisted_names_are_those_declared(*consequent, name);
            match alternate {
                Some(a) => {
                    law_hoisted_names_are_those_declared(*a, name);
                    lemma_contains_in_either(consequent.hoisted(), a.hoisted(), name);
                    lemma_declared_within(*consequent, *a, s, name);
                },
                None => lemma_declared_within(*consequent, *consequent, s, name),
            }
        },
        _ => {
            if s.declares(name) {
                let part = choose|part: Stmt| #[trigger] part.occurs(s) && heads(part, name);
                assert(part == s);
            }
        },
    }
}

/// A statement of one or two parts declares what its head and its parts do.
proof fn lemma_declared_within(first: Stmt, second: Stmt, whole: Stmt, name: Binding)
    requires
        forall|p: Stmt| #[trigger]
            p.occurs(whole) <==> p == whole || p.occurs(first) || p.occurs(second),
    ensures
        whole.declares(name) <==> heads(whole, name) || first.declares(name) || second.declares(
            name,
        ),
{
    assert(whole.occurs(whole));
    if whole.declares(name) {
        let part = choose|part: Stmt| #[trigger] part.occurs(whole) && heads(part, name);
        assert(part == whole || part.occurs(first) || part.occurs(second));
    }
    if first.declares(name) {
        let part = choose|part: Stmt| #[trigger] part.occurs(first) && heads(part, name);
        assert(part.occurs(whole));
    }
    if second.declares(name) {
        let part = choose|part: Stmt| #[trigger] part.occurs(second) && heads(part, name);
        assert(part.occurs(whole));
    }
}

/// What is kept of a dropped statement declares just the names for which a `var` declaration
/// stands in it, and does nothing else.
pub proof fn law_kept_variables_are_those_declared(s: Stmt, name: Binding)
    ensures
        s.kept_variables().declares(name) <==> s.declares(name),
        s.kept_variables() is Variables || s.kept_variables() is Empty,
        s.kept_variables() matches Stmt::Variables(declaration) ==> declaration.source is None
            && declaration.names.len() > 0 && declaration.names == s.hoisted() && declaration.span
            == Span::unspanned(),
{
    law_hoisted_names_are_those_declared(s, name);
    law_hoisted_names_are_those_declared(s.kept_variables(), name);
}

/// Collects the variables of statements that are dropped.
#[derive(Debug, PartialEq)]
pub struct KeepVar {
    pub vars: Vec<BindingIdentifier>,
}

impl KeepVar {
    pub fn new() -> (r: KeepVar)
        ensures
            model::bindings(r.vars@) == Seq::<Binding>::empty(),
    {
        let r = KeepVar { vars: Vec::new() };
        assert(model::bindings(r.vars@) =~= Seq::<Binding>::empty());
        r
    }

    fn visit_names(&mut self, names: &Vec<BindingIdentifier>)
        ensures
            model::bindings(final(self).vars@) == model::bindings(old(self).vars@)
                + model::bindings(names@),
    {
        let ghost before = model::bindings(self.vars@);
        let mut i: usize = 0;
        proof {
            assert(before =~= before + model::bindings(names@).take(0));
        }
        while i < names.len()
            invariant
                i <= names.len(),
                model::bindings(self.vars@) == before + model::bindings(names@).take(i as int),
            decreases names.len() - i,
        {
            let ghost previous = self.vars@;
            self.vars.push(
                BindingIdentifier { span: names[i].span, name: names[i].name.clone() },
            );
            i = i + 1;
            proof {
                assert(model::bindings(self.vars@) =~= model::bindings(previous).push(
                    names@[i - 1]@,
                ));
                assert(model::bindings(self.vars@) =~= before + model::bindings(names@).take(
                    i as int,
                ));
            }
        }
        proof {
            assert(model::bindings(names@).take(names.len() as int) =~= model::bindings(names@));
        }
    }

    fn visit_variable_declaration(&mut self, declaration: &VariableDeclaration)
        ensures
            model::bindings(final(self).vars@) == model::bindings(old(self).vars@)
                + declaration@.hoisted(),
    {
        if declaration.kind == VariableDeclarationKind::Var {
            self.visit_names(&declaration.names);
        } else {
            assert(model::bindings(self.vars@) =~= model::bindings(self.vars@) + Seq::<
                Binding,
            >::empty());
        }
    }

    /// Collects the variables of a statement.
    pub fn visit_statement(&mut self, stmt: &Statement)
        ensures
            model::bindings(final(self).vars@) == model::bindings(old(self).vars@)
                + stmt@.hoisted(),
        decreases stmt,
    {
        let ghost before = model::bindings(self.vars@);
        match stmt {
            Statement::BlockStatement(s) => {
                let ghost body = stmt@->Block_body;
                let mut i: usize = 0;
                proof {
                    assert(before =~= before + hoisted_in(body.take(0)));
                }
                while i < s.body.len()
                    invariant
                        *stmt == Statement::BlockStatement(*s),
                        body == stmt@->Block_body,
                        i <= body.len() == s.body@.len(),
                        model::bindings(self.vars@) == before + hoisted_in(body.take(i as int)),
                    decreases s.body.len() - i,
                {
                    self.visit_statement(&s.body[i]);
                    proof {
                        assert(body.take(i + 1).drop_last() =~= body.take(i as int));
                        assert(body[i as int] == s.body@[i as int]@);
                        assert(model::bindings(self.vars@) =~= before + hoisted_in(
                            body.take(i + 1),
                        ));
                    }
                    i = i + 1;
                }
                proof {
                    assert(body.take(body.len() as int) =~= body);
                }
            },
            Statement::EmptyStatement(_) | Statement::Other(_) => {
                assert(before =~= before + Seq::<Binding>::empty());
            },
            Statement::ForStatement(s) => {
                match &s.init {
                    Some(declaration) => self.visit_variable_declaration(declaration),
                    None => {},
                }
                self.visit_statement(&s.body);
                assert(model::bindings(self.vars@) =~= before + stmt@.hoisted());
            },
            Statement::IfStatement(s) => {
                self.visit_statement(&s.consequent);
                match &s.alternate {
                    Some(alternate) => self.visit_statement(alternate),
                    None => {},
                }
                assert(model::bindings(self.vars@) =~= before + stmt@.hoisted());
            },
            Statement::VariableDeclaration(s) => self.visit_variable_declaration(s),
            Statement::WhileStatement(s) => self.visit_statement(&s.body),
        }
    }

    /// The declaration of the collected variables, where there are any.
    pub fn get_variable_declaration_statement(self) -> (r: Option<Statement>)
        ensures
            r is None <==> model::bindings(self.vars@).len() == 0,
            r is Some ==> r->0@ == Stmt::Variables(
                Variables {
                    span: Span::unspanned(),
                    kind: VariableDeclarationKind::Var,
                    names: model::bindings(self.vars@),
                    source: None,
                },
            ),
    {
        if self.vars.len() == 0 {
            None
        } else {
            Some(
                Statement::VariableDeclaration(
                    VariableDeclaration {
                        span: Span::unspanned(),
                        kind: VariableDeclarationKind::Var,
                        names: self.vars,
                        source: None,
                    },
                ),
            )
        }
    }
}

} // verus!
