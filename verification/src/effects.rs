//! Folding keeps the effects of an expression, whatever values an environment gives to what the
//! text does not fix.
use vstd::prelude::*;

use crate::context::TraverseCtx;
use crate::model::{Binary, Conditional, Expr, Logical, Stmt, Unary};
use crate::operator::BinaryOperator;
use crate::parts;
use crate::soundness;
use crate::value::Environment;

verus! {

/// The effects of expressions that are evaluated one after another, up to one that ends in an
/// exception.
pub open spec fn effects_in(expressions: Seq<Expr>, env: Environment) -> Seq<Expr>
    decreases expressions, expressions.len(),
{
    if expressions.len() == 0 {
        Seq::empty()
    } else {
        let front = expressions.drop_last();
        effects_in(front, env) + if complete(front, env) {
            expressions[expressions.len() - 1].effects(env)
        } else {
            Seq::empty()
        }
    }
}

/// Whether none of the expressions ends in an exception.
pub open spec fn complete(expressions: Seq<Expr>, env: Environment) -> bool {
    forall|i: int| 0 <= i < expressions.len() ==> (#[trigger] expressions[i]).value(env) is Some
}

impl Expr {
    /// The parts that act and that evaluating the expression comes to, in the order in which it
    /// does. Nothing is evaluated after an exception.
    pub open spec fn effects(self, env: Environment) -> Seq<Expr>
        decreases self, 0nat,
    {
        match self {
            Expr::Parenthesized { expression, .. } => expression.effects(env),
            Expr::Sequence { expressions, .. } => effects_in(expressions, env),
            Expr::Binary(e) => e.left.effects(env) + if e.left.value(env) is Some {
                e.right.effects(env)
            } else {
                Seq::empty()
            },
            Expr::Unary(e) => if e.operator is Delete {
                seq![self]
            } else {
                e.argument.effects(env)
            },
            Expr::Logical(e) => e.left.effects(env) + if e.left.value(env) is Some && e.goes_on(
                e.left.value(env)->0,
            ) {
                e.right.effects(env)
            } else {
                Seq::empty()
            },
            Expr::Conditional(e) => e.test.effects(env) + match e.test.value(env) {
                Some(test) => if test.truthy() {
                    e.consequent.effects(env)
                } else {
                    e.alternate.effects(env)
                },
                None => Seq::empty(),
            },
            _ => if self.active() {
                seq![self]
            } else {
                Seq::empty()
            },
        }
    }
}

/// Expressions of which none may have an effect have none.
proof fn lemma_no_effects_in(expressions: Seq<Expr>, env: Environment)
    requires
        forall|i: int|
            0 <= i < expressions.len() ==> !(#[trigger] expressions[i]).side_effects(),
    ensures
        effects_in(expressions, env) == Seq::<Expr>::empty(),
    decreases expressions, expressions.len(),
{
    if expressions.len() > 0 {
        let front = expressions.drop_last();
        assert forall|i: int| 0 <= i < front.len() implies !(
        #[trigger] front[i]).side_effects() by {
            assert(front[i] == expressions[i]);
        }
        lemma_no_effects_in(front, env);
        law_effect_free_expressions_have_no_effects(expressions[expressions.len() - 1], env);
        assert(effects_in(expressions, env) =~= Seq::<Expr>::empty());
    }
}

/// An expression that may have no effect has none.
pub proof fn law_effect_free_expressions_have_no_effects(e: Expr, env: Environment)
    requires
        !e.side_effects(),
    ensures
        e.effects(env) == Seq::<Expr>::empty(),
    decreases e, 0nat,
{
    parts::law_side_effects_are_acts_of_parts(e);
    match e {
        Expr::Parenthesized { expression, .. } => law_effect_free_expressions_have_no_effects(
            *expression,
            env,
        ),
        Expr::Sequence { expressions, .. } => lemma_no_effects_in(expressions, env),
        Expr::Binary(x) => {
            law_effect_free_expressions_have_no_effects(*x.left, env);
            law_effect_free_expressions_have_no_effects(*x.right, env);
        },
        Expr::Unary(x) => law_effect_free_expressions_have_no_effects(*x.argument, env),
        Expr::Logical(x) => {
            law_effect_free_expressions_have_no_effects(*x.left, env);
            law_effect_free_expressions_have_no_effects(*x.right, env);
        },
        Expr::Conditional(x) => {
            law_effect_free_expressions_have_no_effects(*x.test, env);
            law_effect_free_expressions_have_no_effects(*x.consequent, env);
            law_effect_free_expressions_have_no_effects(*x.alternate, env);
        },
        _ => {},
    }
    assert(e.effects(env) =~= Seq::<Expr>::empty());
}

/// Whether no test whose branch is chosen has an effect, and no operand of a folded `typeof` holds a
/// `delete`: the rules drop these without asking.
pub open spec fn drops_no_effects(e: Expr, evaluate: bool, ctx: &TraverseCtx) -> bool
    decreases e,
{
    match e {
        Expr::Conditional(x) => drops_no_effects(*x.test, evaluate, ctx) && (x.chosen(
            x.test.folded(evaluate, ctx),
            ctx,
        ) is Some ==> !x.test.side_effects()),
        Expr::Unary(x) => x.operator is Typeof && x.folded(ctx) is Some ==> !x.argument.deletes(),
        _ => true,
    }
}

/// Folding an AND or OR keeps its effects.
#[verifier::spinoff_prover]
#[verifier::rlimit(40)]
pub proof fn law_and_or_keeps_the_effects(e: Logical, ctx: &TraverseCtx, env: Environment)
    requires
        !(e.operator is Coalesce),
        ctx.lists(env),
        env.standard(),
        e.folded(ctx) is Some,
    ensures
        e.folded(ctx)->0.effects(env) == Expr::Logical(e).effects(env),
{
    match e.left.boolean(ctx).known() {
        Some(value) => {
            if e.left.value(env) is Some {
                soundness::law_truth_is_that_of_the_value(*e.left, ctx, env);
            }
            if e.decided_by(value) {
                assert(Expr::Logical(e).effects(env) =~= e.left.effects(env));
            } else if e.left.side_effects() {
                lemma_two_effects(*e.left, *e.right, env);
            } else {
                soundness::law_effect_free_expressions_have_values(*e.left, env);
                law_effect_free_expressions_have_no_effects(*e.left, env);
                assert(Expr::Logical(e).effects(env) =~= e.right.effects(env));
            }
        },
        None => lemma_idle_middle(e, (*e.left)->Logical_0, ctx, env),
    }
}

/// An idle middle has no effect on what is evaluated.
#[verifier::spinoff_prover]
proof fn lemma_idle_middle(e: Logical, left: Logical, ctx: &TraverseCtx, env: Environment)
    requires
        ctx.lists(env),
        env.standard(),
        *e.left == Expr::Logical(left),
        e.idle_middle(ctx),
    ensures
        Expr::Logical(Logical { left: left.left, ..e }).effects(env) == Expr::Logical(e).effects(
            env,
        ),
{
    assert(Expr::Logical(left).value(env) == e.left.value(env));
    assert(Expr::Logical(left).effects(env) == e.left.effects(env));
    soundness::law_effect_free_expressions_have_values(*left.right, env);
    soundness::law_truth_is_that_of_the_value(*left.right, ctx, env);
    law_effect_free_expressions_have_no_effects(*left.right, env);
    assert(Expr::Logical(Logical { left: left.left, ..e }).effects(env) =~= Expr::Logical(
        e,
    ).effects(env));
}

/// The effects of two expressions in a sequence.
proof fn lemma_two_effects(left: Expr, right: Expr, env: Environment)
    ensures
        effects_in(seq![left, right], env) == left.effects(env) + if left.value(env) is Some {
            right.effects(env)
        } else {
            Seq::empty()
        },
{
    let both = seq![left, right];
    let one = seq![left];
    assert(both.drop_last() =~= one);
    assert(one.drop_last() =~= Seq::<Expr>::empty());
    assert(effects_in(Seq::<Expr>::empty(), env) =~= Seq::<Expr>::empty());
    assert(effects_in(one, env) =~= left.effects(env));
    assert(one[0] == left);
    assert(complete(one, env) == (left.value(env) is Some));
    assert(both[1] == right);
}

/// A binary expression that is folded has no effects, nor has the literal.
#[verifier::spinoff_prover]
#[verifier::rlimit(40)]
proof fn lemma_binary_effects(e: Binary, evaluate: bool, ctx: &TraverseCtx, env: Environment)
    requires
        e.folded(evaluate, ctx) is Some,
    ensures
        e.folded(evaluate, ctx)->0.effects(env) == Seq::<Expr>::empty(),
        Expr::Binary(e).effects(env) == Seq::<Expr>::empty(),
{
    law_effect_free_expressions_have_no_effects(*e.left, env);
    law_effect_free_expressions_have_no_effects(*e.right, env);
    assert(Expr::Binary(e).effects(env) =~= Seq::<Expr>::empty());
}

/// Choosing a branch keeps the effects, where the test has none.
#[verifier::spinoff_prover]
#[verifier::rlimit(40)]
proof fn lemma_conditional_effects(
    e: Conditional,
    test: Expr,
    ctx: &TraverseCtx,
    env: Environment,
)
    requires
        ctx.lists(env),
        env.standard(),
        test.value(env) == e.test.value(env),
        test.effects(env) == e.test.effects(env),
        e.chosen(test, ctx) is Some ==> !e.test.side_effects(),
    ensures
        match e.chosen(test, ctx) {
            Some(branch) => branch.effects(env) == Expr::Conditional(e).effects(env),
            None => Expr::Conditional(Conditional { test: Box::new(test), ..e }).effects(env)
                == Expr::Conditional(e).effects(env),
        },
{
    match e.chosen(test, ctx) {
        Some(branch) => {
            soundness::law_effect_free_expressions_have_values(*e.test, env);
            soundness::law_truth_is_that_of_the_value(test, ctx, env);
            law_effect_free_expressions_have_no_effects(*e.test, env);
            assert(Expr::Conditional(e).effects(env) =~= branch.effects(env));
        },
        None => {},
    }
}

/// Folding keeps the effects of an expression, and their order, in any environment.
///
/// Left out are the expressions of which the value may change, the conditional expressions whose
/// test has an effect and chooses a branch, and `typeof` of an operand that holds a `delete`.
#[verifier::spinoff_prover]
#[verifier::rlimit(40)]
pub proof fn law_folding_keeps_the_effects(
    e: Expr,
    evaluate: bool,
    ctx: &TraverseCtx,
    env: Environment,
)
    requires
        ctx.lists(env),
        env.standard(),
        soundness::decidable(e, evaluate, ctx, env),
        drops_no_effects(e, evaluate, ctx),
    ensures
        e.folded(evaluate, ctx).effects(env) == e.effects(env),
    decreases e,
{
    match e {
        Expr::Binary(x) => {
            if x.folded(evaluate, ctx) is Some {
                lemma_binary_effects(x, evaluate, ctx, env);
            }
        },
        Expr::Logical(x) => {
            if !(x.operator is Coalesce) && x.folded(ctx) is Some {
                law_and_or_keeps_the_effects(x, ctx, env);
            }
        },
        Expr::Conditional(x) => {
            let test = x.test.folded(evaluate, ctx);
            law_folding_keeps_the_effects(*x.test, evaluate, ctx, env);
            soundness::law_folding_keeps_the_value(*x.test, evaluate, ctx, env);
            lemma_conditional_effects(x, test, ctx, env);
        },
        Expr::Unary(x) => lemma_unary_effects(x, ctx, env),
        _ => {},
    }
}

/// Folding a unary expression keeps its effects.
#[verifier::spinoff_prover]
#[verifier::rlimit(40)]
proof fn lemma_unary_effects(e: Unary, ctx: &TraverseCtx, env: Environment)
    requires
        e.operator is Typeof && e.folded(ctx) is Some ==> !e.argument.deletes(),
    ensures
        match e.folded(ctx) {
            Some(folded) => folded.effects(env) == Expr::Unary(e).effects(env),
            None => Expr::Unary(e.reduced()).effects(env) == Expr::Unary(e).effects(env),
        },
{
    if e.operator is Typeof && e.folded(ctx) is Some {
        soundness::law_literals_have_no_effects(*e.argument, true);
    }
    if e.operator is Delete {
    } else if !e.argument.side_effects() {
        law_effect_free_expressions_have_no_effects(*e.argument, env);
        assert(Expr::zero().effects(env) == Seq::<Expr>::empty());
    }
}

impl Stmt {
    /// The effects of the tests that an `if` statement comes to, in the order in which it does.
    pub open spec fn test_effects(self, env: Environment) -> Seq<Expr>
        decreases self,
    {
        match self {
            Stmt::If { test, consequent, alternate, .. } => test.effects(env) + match test.value(
                env,
            ) {
                Some(value) => if value.truthy() {
                    consequent.test_effects(env)
                } else {
                    match alternate {
                        Some(a) => a.test_effects(env),
                        None => Seq::empty(),
                    }
                },
                None => Seq::empty(),
            },
            _ => Seq::empty(),
        }
    }

    /// Whether no test whose branch is chosen has an effect.
    pub open spec fn drops_no_effects(self, evaluate: bool, ctx: &TraverseCtx) -> bool
        decreases self,
    {
        match self {
            Stmt::If { test, alternate, .. } => drops_no_effects(test, evaluate, ctx) && (
            !(test.folded(evaluate, ctx).boolean(ctx) is Unknown) ==> !test.side_effects())
                && match alternate {
                Some(a) => a.drops_no_effects(evaluate, ctx),
                None => true,
            },
            _ => true,
        }
    }
}

/// A loop condition that is made the opposite equality keeps its effects.
pub proof fn law_loop_condition_keeps_the_effects(e: Expr, env: Environment)
    ensures
        e.loop_condition().effects(env) == e.effects(env),
{
    match e {
        Expr::Unary(u) => match *u.argument {
            Expr::Binary(b) => {
                if e.minimized_not() is Some {
                    assert(*u.argument == Expr::Binary(b));
                    let inverse = Binary { operator: b.operator.inverse()->0, ..b };
                    assert(e.loop_condition() == Expr::Binary(inverse));
                    assert(Expr::Binary(b).effects(env) == u.argument.effects(env));
                }
            },
            _ => {},
        },
        _ => {},
    }
}

/// Whether the operators are equalities with opposite answers.
pub open spec fn opposite_equalities(a: BinaryOperator, b: BinaryOperator) -> bool {
    ||| a is Equality && b is Inequality
    ||| a is Inequality && b is Equality
    ||| a is StrictEquality && b is StrictInequality
    ||| a is StrictInequality && b is StrictEquality
}

/// Whether a condition is made another: a negated equality is made the opposite equality of the
/// same operands, and any other condition is left as it is.
pub open spec fn condition_becomes(before: Expr, after: Expr) -> bool {
    match before {
        Expr::Unary(u) => match *u.argument {
            Expr::Binary(b) => if u.operator is LogicalNot && (b.operator is Equality || b.operator
                is Inequality || b.operator is StrictEquality || b.operator is StrictInequality) {
                after matches Expr::Binary(c) && c.span == b.span && c.left == b.left && c.right
                    == b.right && opposite_equalities(b.operator, c.operator)
            } else {
                after == before
            },
            _ => after == before,
        },
        _ => after == before,
    }
}

/// A loop has a test after folding just where it had one before.
pub proof fn law_loops_keep_having_a_test(s: Stmt, evaluate: bool, ctx: &TraverseCtx)
    requires
        s is For || s is While,
    ensures
        s.folded(evaluate, ctx).loop_test() is Some <==> s.loop_test() is Some,
{
}

/// Folding keeps a loop one of the same kind with the same head and body. It has a test just where
/// it had one. A negated equality is made the opposite one, and any other test stays as it is. A
/// statement that is no loop and no `if` stays as it is.
pub proof fn law_loops_keep_their_form(s: Stmt, evaluate: bool, ctx: &TraverseCtx)
    ensures
        match s {
            Stmt::While { span, test, body } => {
                &&& s.folded(evaluate, ctx) matches Stmt::While { span: sp, test: t, body: b }
                &&& sp == span
                &&& b == body
                &&& condition_becomes(test, t)
            },
            Stmt::For { node, init, test, body } => {
                &&& s.folded(evaluate, ctx) matches Stmt::For { node: n, init: i, test: t, body: b }
                &&& n == node
                &&& i == init
                &&& b == body
                &&& t is Some <==> test is Some
                &&& test is Some ==> condition_becomes(test->0, t->0)
            },
            Stmt::If { .. } => true,
            _ => s.folded(evaluate, ctx) == s,
        },
{
}

impl Stmt {
    /// The test of a loop.
    pub open spec fn loop_test(self) -> Option<Expr> {
        match self {
            Stmt::While { test, .. } => Some(test),
            Stmt::For { test, .. } => test,
            _ => None,
        }
    }
}

/// The test of a folded loop has the value and the effects of the test of the loop, in every
/// environment.
pub proof fn law_loops_keep_what_they_test(
    s: Stmt,
    evaluate: bool,
    ctx: &TraverseCtx,
    env: Environment,
)
    requires
        s.loop_test() is Some,
    ensures
        s.folded(evaluate, ctx).loop_test() is Some,
        s.folded(evaluate, ctx).loop_test()->0.value(env) == s.loop_test()->0.value(env),
        s.folded(evaluate, ctx).loop_test()->0.effects(env) == s.loop_test()->0.effects(env),
{
    law_loops_keep_their_form(s, evaluate, ctx);
    let test = s.loop_test()->0;
    assert(s.folded(evaluate, ctx).loop_test() == Some(test.loop_condition()));
    soundness::law_loop_condition_keeps_the_value(test, env);
    law_loop_condition_keeps_the_effects(test, env);
}

/// Folding an `if` statement keeps the effects of its tests, and their order, unless a test has an
/// effect and chooses a branch.
#[verifier::spinoff_prover]
#[verifier::rlimit(40)]
pub proof fn law_if_keeps_the_effects_of_tests(
    s: Stmt,
    evaluate: bool,
    ctx: &TraverseCtx,
    env: Environment,
)
    requires
        ctx.lists(env),
        env.standard(),
        s.decidable(evaluate, ctx, env),
        s.drops_no_effects(evaluate, ctx),
    ensures
        s.folded_if(evaluate, ctx).test_effects(env) == s.test_effects(env),
    decreases s,
{
    match s {
        Stmt::If { test, alternate, .. } => {
            let folded = test.folded(evaluate, ctx);
            law_folding_keeps_the_effects(test, evaluate, ctx, env);
            soundness::law_folding_keeps_the_value(test, evaluate, ctx, env);
            match alternate {
                Some(a) => law_if_keeps_the_effects_of_tests(*a, evaluate, ctx, env),
                None => {},
            }
            if !(folded.boolean(ctx) is Unknown) {
                soundness::law_truth_is_that_of_the_value(folded, ctx, env);
                law_effect_free_expressions_have_no_effects(test, env);
            }
            assert(s.folded_if(evaluate, ctx).test_effects(env) =~= s.test_effects(env));
        },
        _ => {},
    }
}

} // verus!
