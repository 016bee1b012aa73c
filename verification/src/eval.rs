//! The reduction engine: substitution, renaming to fresh names, the
//! single-step reducer and the evaluation loop.

use crate::alpha::alpha_equivalent;
use crate::ast::{Ast, Identifier};
use crate::names::FreshNames;
use crate::rename::{
    distinctly_bound, relabel, uniquify, uniquify_properties, variable_for_variable_keeps_size,
};
use crate::term::{names_are_finite, step_finds_redex, Term};
use vstd::hash_set::StringHashSet;
use vstd::prelude::*;

verus! {

/// The model of what a step returns.
pub open spec fn optional_view(result: Option<Ast>) -> Option<Term> {
    match result {
        Some(term) => Some(term@),
        None => None,
    }
}

/// What the evaluation loop gives when it may contract at most `steps`
/// redexes: before each attempt every binder is renamed to a fresh name, and
/// the loop ends with the renamed term as soon as that term has no redex.
/// `None` where `steps` contractions do not reach a normal form.
pub open spec fn evaluate_within(t: Term, steps: nat) -> Option<Term>
    decreases steps,
{
    let unique = uniquify(t);
    match unique.step() {
        None => Some(unique),
        Some(next) => if steps == 0 {
            None
        } else {
            evaluate_within(next, (steps - 1) as nat)
        },
    }
}

/// Normal-order evaluation of the term reaches a normal form.
pub open spec fn normalizes(t: Term) -> bool {
    exists|steps: nat| evaluate_within(t, steps) is Some
}

/// The normal form that evaluation of a normalizing term ends with.
pub open spec fn normal_form(t: Term) -> Term
    recommends
        normalizes(t),
{
    evaluate_within(t, choose|steps: nat| evaluate_within(t, steps) is Some)->0
}

/// More steps than needed change nothing.
pub proof fn evaluate_within_is_stable(t: Term, steps: nat, more: nat)
    requires
        evaluate_within(t, steps) is Some,
        steps <= more,
    ensures
        evaluate_within(t, more) == evaluate_within(t, steps),
    decreases steps,
{
    match uniquify(t).step() {
        None => {},
        Some(next) => {
            evaluate_within_is_stable(next, (steps - 1) as nat, (more - 1) as nat);
        },
    }
}

/// Whatever number of steps suffices, the result is the normal form.
pub proof fn evaluate_within_gives_normal_form(t: Term, steps: nat)
    requires
        evaluate_within(t, steps) is Some,
    ensures
        normalizes(t),
        evaluate_within(t, steps) == Some(normal_form(t)),
{
    let chosen = choose|steps: nat| evaluate_within(t, steps) is Some;
    if chosen <= steps {
        evaluate_within_is_stable(t, chosen, steps);
    } else {
        evaluate_within_is_stable(t, steps, chosen);
    }
}

/// A term normalizes exactly if renaming its binders leaves no redex or the
/// term after one step normalizes, and its normal form is then the renamed
/// term or the normal form of that next term.
pub proof fn normal_form_unfolds(t: Term)
    ensures
        normalizes(t) <==> match uniquify(t).step() {
            None => true,
            Some(next) => normalizes(next),
        },
        normalizes(t) ==> normal_form(t) == match uniquify(t).step() {
            None => uniquify(t),
            Some(next) => normal_form(next),
        },
{
    match uniquify(t).step() {
        None => {
            assert(evaluate_within(t, 0) is Some);
            evaluate_within_gives_normal_form(t, 0);
        },
        Some(next) => {
            if normalizes(t) {
                let steps = choose|steps: nat| evaluate_within(t, steps) is Some;
                assert(evaluate_within(next, (steps - 1) as nat) is Some);
                evaluate_within_gives_normal_form(next, (steps - 1) as nat);
            }
            if normalizes(next) {
                let steps = choose|steps: nat| evaluate_within(next, steps) is Some;
                assert(evaluate_within(t, steps + 1) == evaluate_within(next, steps));
                evaluate_within_gives_normal_form(t, steps + 1);
            }
        },
    }
}

impl Ast {
    /// Reduces the term to its normal form in normal order: renames every
    /// binder to a fresh name, contracts the leftmost-outermost redex, and
    /// repeats both until no redex is left.
    ///
    /// The loop has no bound of its own, so the term must have a normal form
    /// that normal order reaches; [`Ast::eval_within`] takes any term.
    pub fn eval(self) -> (result: Ast)
        requires
            normalizes(self@),
        ensures
            result@ == normal_form(self@),
            !result@.has_redex(),
            uniquify(result@).step() is None,
    {
        let ghost start = self@;
        let ghost mut steps = choose|steps: nat| evaluate_within(start, steps) is Some;
        proof {
            evaluate_within_gives_normal_form(start, steps);
        }
        let mut current = self;
        loop
            invariant
                start == self@,
                evaluate_within(current@, steps) == Some(normal_form(start)),
            decreases steps,
        {
            current = current.make_variables_unique();
            match current.reduce() {
                Ok(next) => {
                    current = next;
                    proof {
                        steps = (steps - 1) as nat;
                    }
                },
                Err(same) => {
                    proof {
                        step_finds_redex(same@);
                        uniquify_properties(same@);
                        step_finds_redex(uniquify(same@));
                    }
                    return same;
                },
            }
        }
    }

    /// Like [`Ast::eval`], but gives up after `limit` contractions: `None`
    /// where the term needs more than that to reach its normal form, or has
    /// none.
    pub fn eval_within(self, limit: u64) -> (result: Option<Ast>)
        ensures
            optional_view(result) == evaluate_within(self@, limit as nat),
            result matches Some(normal) ==> normalizes(self@) && normal@ == normal_form(self@),
    {
        let ghost start = self@;
        let mut current = self;
        let mut left = limit;
        loop
            invariant
                start == self@,
                evaluate_within(current@, left as nat) == evaluate_within(start, limit as nat),
            decreases left,
        {
            current = current.make_variables_unique();
            match current.reduce() {
                Ok(next) => {
                    if left == 0 {
                        return None;
                    }
                    current = next;
                    left = left - 1;
                },
                Err(same) => {
                    proof {
                        evaluate_within_gives_normal_form(start, limit as nat);
                    }
                    return Some(same);
                },
            }
        }
    }

    /// Every current name that occurs in the term, at a variable or at a
    /// binder.
    pub fn get_used_variables(&self) -> (used: StringHashSet)
        ensures
            used@ == self@.names(),
    {
        let mut used = StringHashSet::new();
        self.collect_names(&mut used);
        used
    }

    fn collect_names(&self, used: &mut StringHashSet)
        ensures
            final(used)@ == old(used)@.union(self@.names()),
        decreases self,
    {
        match self {
            Ast::Var { identifier } => {
                used.insert(identifier.identifier.clone());
            },
            Ast::Lambda { parameter, body } => {
                body.collect_names(used);
                used.insert(parameter.identifier.clone());
            },
            Ast::App { function, argument } => {
                function.collect_names(used);
                argument.collect_names(used);
            },
        }
    }

    /// Renames every bound variable to a generated name that occurs nowhere in
    /// the term, no two binders to the same; free variables keep their names.
    ///
    /// The binders are renamed in the order in which a walk meets them that
    /// visits a node before its children, and a function before its argument:
    /// the first gets the first of `v0`, `v1`, ... that the term does not
    /// hold, the second the next such name, and so on.
    pub fn make_variables_unique(self) -> (result: Ast)
        ensures
            result@ == uniquify(self@),
            alpha_equivalent(result@, self@),
            distinctly_bound(result@),
            result@.free_names() == self@.free_names(),
            forall|i: int|
                0 <= i < result@.binders().len() ==> !self@.names().contains(
                    #[trigger] result@.binders()[i],
                ),
    {
        let used = self.get_used_variables();
        proof {
            names_are_finite(self@);
            uniquify_properties(self@);
        }
        let mut names = FreshNames::new(used);
        self.rename_binders(&mut names)
    }

    fn rename_binders(self, names: &mut FreshNames) -> (result: Ast)
        requires
            old(names).wf(),
        ensures
            final(names).wf(),
            final(names).used() == old(names).used(),
            (result@, final(names).next_index()) == relabel(
                self@,
                old(names).used(),
                old(names).next_index(),
            ),
        decreases self@.size(),
    {
        match self {
            Ast::Var { identifier } => Ast::Var { identifier },
            Ast::Lambda { parameter, body } => {
                let new_identifier = Identifier {
                    identifier: names.next(),
                    original: parameter.original,
                };
                proof {
                    variable_for_variable_keeps_size(
                        body@,
                        parameter.identifier@,
                        new_identifier@,
                    );
                }
                let renamed_body = body.replace(
                    parameter.identifier,
                    Ast::Var { identifier: new_identifier.clone() },
                );
                let new_body = renamed_body.rename_binders(names);
                Ast::Lambda { parameter: new_identifier, body: Box::new(new_body) }
            },
            Ast::App { function, argument } => {
                let new_function = function.rename_binders(names);
                let new_argument = argument.rename_binders(names);
                Ast::App { function: Box::new(new_function), argument: Box::new(new_argument) }
            },
        }
    }

    /// Replaces every free occurrence of the variable `var` by `replacement`.
    ///
    /// Nothing is renamed: a binder of the term captures a free variable of
    /// `replacement` that has its name.
    pub fn replace(self, var: String, replacement: Ast) -> (result: Ast)
        ensures
            result@ == self@.substitute(var@, replacement@),
        decreases self,
    {
        match self {
            Ast::Var { identifier } => {
                if identifier.identifier == var {
                    replacement
                } else {
                    Ast::Var { identifier }
                }
            },
            Ast::Lambda { parameter, body } => {
                if parameter.identifier == var {
                    Ast::Lambda { parameter, body }
                } else {
                    Ast::Lambda { parameter, body: Box::new(body.replace(var, replacement)) }
                }
            },
            Ast::App { function, argument } => Ast::App {
                function: Box::new(function.replace(var.clone(), replacement.clone())),
                argument: Box::new(argument.replace(var, replacement)),
            },
        }
    }

    /// Contracts the leftmost-outermost redex, or hands the term back
    /// unchanged, as the error, where it has no redex.
    fn reduce(self) -> (result: Result<Ast, Ast>)
        ensures
            match result {
                Ok(reduced) => self@.step() == Some(reduced@),
                Err(same) => self@.step() is None && same@ == self@,
            },
        decreases self,
    {
        match self {
            Ast::Var { identifier } => Err(Ast::Var { identifier }),
            Ast::Lambda { parameter, body } => match body.reduce() {
                Ok(reduced) => Ok(Ast::Lambda { parameter, body: Box::new(reduced) }),
                Err(same) => Err(Ast::Lambda { parameter, body: Box::new(same) }),
            },
            Ast::App { function, argument } => match *function {
                Ast::Lambda { parameter, body } => Ok(body.replace(parameter.identifier, *argument)),
                other => match other.reduce() {
                    Ok(reduced) => Ok(Ast::App { function: Box::new(reduced), argument }),
                    Err(same_function) => match argument.reduce() {
                        Ok(reduced) => Ok(
                            Ast::App { function: Box::new(same_function), argument: Box::new(reduced) },
                        ),
                        Err(same_argument) => Err(
                            Ast::App {
                                function: Box::new(same_function),
                                argument: Box::new(same_argument),
                            },
                        ),
                    },
                },
            },
        }
    }

    /// One step of normal-order reduction: the term with its
    /// leftmost-outermost redex contracted, or `None` where the term is in
    /// normal form.
    pub fn step(self) -> (result: Option<Ast>)
        ensures
            optional_view(result) == self@.step(),
            result is None <==> !self@.has_redex(),
    {
        proof {
            step_finds_redex(self@);
        }
        match self.reduce() {
            Ok(reduced) => Some(reduced),
            Err(_) => None,
        }
    }
}

} // verus!
