//! Places inside a term.

use crate::term::Term;
use vstd::prelude::*;

verus! {

/// One move from a node of a term to a child of it.
pub enum Turn {
    /// From an abstraction into its body.
    Body,
    /// From an application into its function.
    Function,
    /// From an application into its argument.
    Argument,
}

/// The subterm that the path leads to from the root of `t`; `None` where the
/// path asks for a child that a node on its way does not have.
pub open spec fn subterm(t: Term, path: Seq<Turn>) -> Option<Term>
    decreases path.len(),
{
    if path.len() == 0 {
        Some(t)
    } else {
        match (t, path[0]) {
            (Term::Abstraction(_, body), Turn::Body) => subterm(*body, path.drop_first()),
            (Term::Application(function, _), Turn::Function) => subterm(
                *function,
                path.drop_first(),
            ),
            (Term::Application(_, argument), Turn::Argument) => subterm(
                *argument,
                path.drop_first(),
            ),
            _ => None,
        }
    }
}

/// The term `t` with `new` in the place that the path leads to; `t` itself
/// where the path leads nowhere.
pub open spec fn replace_at(t: Term, path: Seq<Turn>, new: Term) -> Term
    decreases path.len(),
{
    if path.len() == 0 {
        new
    } else {
        match (t, path[0]) {
            (Term::Abstraction(parameter, body), Turn::Body) => Term::Abstraction(
                parameter,
                Box::new(replace_at(*body, path.drop_first(), new)),
            ),
            (Term::Application(function, argument), Turn::Function) => Term::Application(
                Box::new(replace_at(*function, path.drop_first(), new)),
                argument,
            ),
            (Term::Application(function, argument), Turn::Argument) => Term::Application(
                function,
                Box::new(replace_at(*argument, path.drop_first(), new)),
            ),
            _ => t,
        }
    }
}

/// Some abstraction that the path passes through before its end binds `name`.
pub open spec fn rebound_on(t: Term, path: Seq<Turn>, name: Seq<char>) -> bool
    decreases path.len(),
{
    if path.len() == 0 {
        false
    } else {
        match (t, path[0]) {
            (Term::Abstraction(parameter, body), Turn::Body) => parameter.current == name
                || rebound_on(*body, path.drop_first(), name),
            (Term::Application(function, _), Turn::Function) => rebound_on(
                *function,
                path.drop_first(),
                name,
            ),
            (Term::Application(_, argument), Turn::Argument) => rebound_on(
                *argument,
                path.drop_first(),
                name,
            ),
            _ => false,
        }
    }
}

/// The path leads to a redex, and to the leftmost-outermost one: no term that
/// the path passes through before its end is a redex, and wherever the path
/// turns into an argument, the function beside it holds no redex. The redex
/// itself may hold any number of redexes, in its function and in its argument.
pub open spec fn leads_to_first_redex(t: Term, path: Seq<Turn>) -> bool
    decreases path.len(),
{
    if path.len() == 0 {
        t.is_redex()
    } else {
        !t.is_redex() && match (t, path[0]) {
            (Term::Abstraction(_, body), Turn::Body) => leads_to_first_redex(
                *body,
                path.drop_first(),
            ),
            (Term::Application(function, _), Turn::Function) => leads_to_first_redex(
                *function,
                path.drop_first(),
            ),
            (Term::Application(function, argument), Turn::Argument) => !function.has_redex()
                && leads_to_first_redex(*argument, path.drop_first()),
            _ => false,
        }
    }
}

} // verus!
