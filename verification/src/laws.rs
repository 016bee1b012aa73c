//! What holds of substitution, renaming, stepping and evaluation, whatever
//! the term.

use crate::alpha::alpha_equivalent;
use crate::eval::{evaluate_within, evaluate_within_gives_normal_form, normal_form, normalizes};
use crate::path::{leads_to_first_redex, rebound_on, replace_at, subterm, Turn};
use crate::rename::{
    distinctly_bound, distinctly_bound_children, uniquify, uniquify_properties,
};
use crate::term::{step_finds_redex, Name, Term};
use vstd::prelude::*;

verus! {

/// Whatever evaluation ends with has no redex.
pub proof fn evaluation_ends_without_redex(t: Term, steps: nat)
    requires
        evaluate_within(t, steps) is Some,
    ensures
        !evaluate_within(t, steps)->0.has_redex(),
    decreases steps,
{
    match uniquify(t).step() {
        None => {
            step_finds_redex(uniquify(t));
        },
        Some(next) => {
            evaluation_ends_without_redex(next, (steps - 1) as nat);
        },
    }
}

/// A normal form stays one: where evaluation of `t` ends with a term, renaming
/// the binders of that term once more and looking for a step finds no redex,
/// so evaluating the result again ends at once.
pub proof fn normal_form_is_stable(t: Term)
    requires
        normalizes(t),
    ensures
        normal_form(t).step() is None,
        uniquify(normal_form(t)).step() is None,
        evaluate_within(normal_form(t), 0) == Some(uniquify(normal_form(t))),
{
    let steps = choose|steps: nat| evaluate_within(t, steps) is Some;
    evaluate_within_gives_normal_form(t, steps);
    evaluation_ends_without_redex(t, steps);
    let r = normal_form(t);
    step_finds_redex(r);
    uniquify_properties(r);
    step_finds_redex(uniquify(r));
}

/// Renaming preserves meaning: the renamed term differs from the given one in
/// the names of bound variables only. Structure and free variables are the
/// same, every bound variable is bound by the binder at the same place, and
/// in the renamed term no binder is named like another binder or like a free
/// variable.
pub proof fn renaming_preserves_meaning(t: Term)
    ensures
        alpha_equivalent(uniquify(t), t),
        uniquify(t).free_names() == t.free_names(),
        distinctly_bound(uniquify(t)),
{
    uniquify_properties(t);
}

/// Substitution is local: below an abstraction that binds `target` again
/// nothing changes, so a variable named `target` that stands there stays as
/// it is.
pub proof fn substitution_spares_rebound_variables(
    t: Term,
    path: Seq<Turn>,
    target: Seq<char>,
    replacement: Term,
)
    requires
        subterm(t, path) is Some,
        rebound_on(t, path, target),
    ensures
        subterm(t.substitute(target, replacement), path) == subterm(t, path),
    decreases path.len(),
{
    if path.len() > 0 {
        let rest = path.drop_first();
        match (t, path[0]) {
            (Term::Abstraction(parameter, body), Turn::Body) => {
                if parameter.current != target {
                    substitution_spares_rebound_variables(*body, rest, target, replacement);
                }
            },
            (Term::Application(function, _), Turn::Function) => {
                substitution_spares_rebound_variables(*function, rest, target, replacement);
            },
            (Term::Application(_, argument), Turn::Argument) => {
                substitution_spares_rebound_variables(*argument, rest, target, replacement);
            },
            _ => {},
        }
    }
}

/// Substitution replaces free occurrences only: an abstraction that binds
/// `target` is left as it is, and so is any term in which `target` is not
/// free.
pub proof fn substitution_replaces_free_occurrences_only(
    t: Term,
    target: Seq<char>,
    replacement: Term,
)
    ensures
        t matches Term::Abstraction(parameter, _) && parameter.current == target
            ==> t.substitute(target, replacement) == t,
        !t.free_names().contains(target) ==> t.substitute(target, replacement) == t,
    decreases t,
{
    match t {
        Term::Variable(_) => {},
        Term::Abstraction(parameter, body) => {
            substitution_replaces_free_occurrences_only(*body, target, replacement);
        },
        Term::Application(function, argument) => {
            substitution_replaces_free_occurrences_only(*function, target, replacement);
            substitution_replaces_free_occurrences_only(*argument, target, replacement);
        },
    }
}

/// The outer redex goes first: an abstraction applied to an argument is
/// contracted as a whole, whatever redexes its body and its argument hold.
pub proof fn outer_redex_goes_first(parameter: Name, body: Term, argument: Term)
    ensures
        Term::Application(
            Box::new(Term::Abstraction(parameter, Box::new(body))),
            Box::new(argument),
        ).step() == Some(body.substitute(parameter.current, argument)),
{
}

/// A step contracts the leftmost-outermost redex and nothing else: where a
/// path leads to a redex through terms that are no redexes, past functions
/// that hold none, the step puts the contracted redex in its place and
/// leaves the rest of the term as it is.
pub proof fn step_contracts_first_redex(t: Term, path: Seq<Turn>)
    requires
        leads_to_first_redex(t, path),
    ensures
        subterm(t, path) matches Some(redex) && redex.is_redex() && t.step() == Some(
            replace_at(t, path, redex.contract()),
        ),
    decreases path.len(),
{
    if path.len() > 0 {
        let rest = path.drop_first();
        match (t, path[0]) {
            (Term::Abstraction(_, body), Turn::Body) => {
                step_contracts_first_redex(*body, rest);
            },
            (Term::Application(function, _), Turn::Function) => {
                step_contracts_first_redex(*function, rest);
            },
            (Term::Application(function, argument), Turn::Argument) => {
                step_finds_redex(*function);
                step_contracts_first_redex(*argument, rest);
            },
            _ => {},
        }
    }
}

/// In a term whose binders are named apart, the binders of every subterm are
/// named apart too.
pub proof fn subterms_are_distinctly_bound(t: Term, path: Seq<Turn>)
    requires
        distinctly_bound(t),
        subterm(t, path) is Some,
    ensures
        distinctly_bound(subterm(t, path)->0),
    decreases path.len(),
{
    if path.len() > 0 {
        let rest = path.drop_first();
        distinctly_bound_children(t);
        match (t, path[0]) {
            (Term::Abstraction(_, body), Turn::Body) => {
                subterms_are_distinctly_bound(*body, rest);
            },
            (Term::Application(function, _), Turn::Function) => {
                subterms_are_distinctly_bound(*function, rest);
            },
            (Term::Application(_, argument), Turn::Argument) => {
                subterms_are_distinctly_bound(*argument, rest);
            },
            _ => {},
        }
    }
}

/// Renaming makes plain substitution safe: in a term whose binders are named
/// apart, as every renamed term is, no binder inside the abstraction of a
/// redex is named like a free variable of its argument, wherever the redex
/// stands. Contracting it can capture nothing.
pub proof fn contraction_captures_nothing(
    t: Term,
    path: Seq<Turn>,
    parameter: Name,
    body: Term,
    argument: Term,
)
    requires
        distinctly_bound(t),
        subterm(t, path) == Some(
            Term::Application(
                Box::new(Term::Abstraction(parameter, Box::new(body))),
                Box::new(argument),
            ),
        ),
    ensures
        forall|i: int|
            0 <= i < body.binders().len() ==> !argument.free_names().contains(
                #[trigger] body.binders()[i],
            ),
        !argument.free_names().contains(parameter.current),
{
    subterms_are_distinctly_bound(t, path);
    let function = Term::Abstraction(parameter, Box::new(body));
    let redex = Term::Application(Box::new(function), Box::new(argument));
    let all = redex.binders();
    assert(function.binders() == seq![parameter.current] + body.binders());
    assert(all == function.binders() + argument.binders());
    assert(function.binders()[0] == parameter.current);
    assert(all[0] == parameter.current);
    assert forall|i: int| 0 <= i < body.binders().len() implies !argument.free_names().contains(
        #[trigger] body.binders()[i],
    ) by {
        assert(function.binders()[i + 1] == body.binders()[i]);
        assert(all[i + 1] == body.binders()[i]);
        assert(!redex.free_names().contains(all[i + 1]));
    }
    assert(!redex.free_names().contains(all[0]));
}

} // verus!
