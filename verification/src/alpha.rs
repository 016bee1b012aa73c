//! Alpha-equivalence: equality of terms up to the names of bound variables.

use crate::term::{Name, Term};
use vstd::prelude::*;

verus! {

/// A term with the names of its bound variables taken away: a bound variable
/// is the number of binders between it and the one that binds it.
pub enum Nameless {
    /// A free variable, by its current name.
    Free(Seq<char>),
    /// A bound variable: 0 for the innermost enclosing binder, 1 for the next
    /// one out, and so on.
    Bound(nat),
    Lambda(Box<Nameless>),
    Apply(Box<Nameless>, Box<Nameless>),
}

/// The number of binders of `scope`, counted from its end, that lie inside
/// the innermost binder named `name`; `None` where no binder has that name.
/// A scope lists the binders around a position, outermost first.
pub open spec fn innermost(scope: Seq<Seq<char>>, name: Seq<char>) -> Option<nat>
    decreases scope.len(),
{
    if scope.len() == 0 {
        None
    } else if scope.last() == name {
        Some(0)
    } else {
        match innermost(scope.drop_last(), name) {
            Some(distance) => Some(distance + 1),
            None => None,
        }
    }
}

/// The nameless form of a term that stands inside the binders of `scope`.
pub open spec fn nameless(t: Term, scope: Seq<Seq<char>>) -> Nameless
    decreases t,
{
    match t {
        Term::Variable(id) => match innermost(scope, id.current) {
            Some(distance) => Nameless::Bound(distance),
            None => Nameless::Free(id.current),
        },
        Term::Abstraction(parameter, body) => Nameless::Lambda(
            Box::new(nameless(*body, scope.push(parameter.current))),
        ),
        Term::Application(function, argument) => Nameless::Apply(
            Box::new(nameless(*function, scope)),
            Box::new(nameless(*argument, scope)),
        ),
    }
}

/// The two terms differ at most in the names of their bound variables (and in
/// the original names that their labels carry for display): they have the
/// same structure, the same free variables in the same places, and each bound
/// variable is bound by the binder at the same place.
pub open spec fn alpha_equivalent(a: Term, b: Term) -> bool {
    nameless(a, Seq::empty()) == nameless(b, Seq::empty())
}

/// How one more binder changes what a name refers to.
pub proof fn innermost_under_binder(scope: Seq<Seq<char>>, binder: Seq<char>, name: Seq<char>)
    ensures
        innermost(scope.push(binder), name) == if name == binder {
            Some(0nat)
        } else {
            match innermost(scope, name) {
                Some(distance) => Some(distance + 1),
                None => None,
            }
        },
{
    assert(scope.push(binder).drop_last() =~= scope);
}

/// The nameless form of a term depends on the scope only through what the
/// names of the term refer to in it.
pub proof fn nameless_depends_on_names(t: Term, first: Seq<Seq<char>>, second: Seq<Seq<char>>)
    requires
        forall|x: Seq<char>| #[trigger]
            t.names().contains(x) ==> innermost(first, x) == innermost(second, x),
    ensures
        nameless(t, first) == nameless(t, second),
    decreases t,
{
    match t {
        Term::Variable(id) => {
            assert(t.names().contains(id.current));
        },
        Term::Abstraction(parameter, body) => {
            let q = parameter.current;
            assert forall|x: Seq<char>| #[trigger] body.names().contains(x) implies innermost(
                first.push(q),
                x,
            ) == innermost(second.push(q), x) by {
                innermost_under_binder(first, q, x);
                innermost_under_binder(second, q, x);
                assert(t.names().contains(x));
            }
            nameless_depends_on_names(*body, first.push(q), second.push(q));
        },
        Term::Application(function, argument) => {
            assert forall|x: Seq<char>| #[trigger] function.names().contains(x) implies innermost(
                first,
                x,
            ) == innermost(second, x) by {
                assert(t.names().contains(x));
            }
            assert forall|x: Seq<char>| #[trigger] argument.names().contains(x) implies innermost(
                first,
                x,
            ) == innermost(second, x) by {
                assert(t.names().contains(x));
            }
            nameless_depends_on_names(*function, first, second);
            nameless_depends_on_names(*argument, first, second);
        },
    }
}

/// Renaming a bound variable to a name that the term does not hold leaves the
/// nameless form as it was: the free occurrences of `old` in `t`, read in a
/// scope in which `old` is bound, are the occurrences of `new` in the
/// substituted term, read in a scope in which `new` is bound by the binder at
/// the same place and all other names of `t` refer to what they did.
pub proof fn renaming_keeps_nameless(
    t: Term,
    old_name: Seq<char>,
    new_label: Name,
    first: Seq<Seq<char>>,
    second: Seq<Seq<char>>,
)
    requires
        !t.names().contains(new_label.current),
        innermost(first, old_name) is Some,
        innermost(second, new_label.current) == innermost(first, old_name),
        forall|x: Seq<char>| #[trigger]
            t.names().contains(x) && x != old_name ==> innermost(first, x) == innermost(second, x),
    ensures
        nameless(t.substitute(old_name, Term::Variable(new_label)), second) == nameless(t, first),
    decreases t,
{
    let fresh = new_label.current;
    match t {
        Term::Variable(id) => {
            assert(t.names().contains(id.current));
        },
        Term::Abstraction(parameter, body) => {
            let q = parameter.current;
            assert(t.names().contains(q));
            if q == old_name {
                assert forall|x: Seq<char>| #[trigger] body.names().contains(x) implies innermost(
                    first.push(q),
                    x,
                ) == innermost(second.push(q), x) by {
                    innermost_under_binder(first, q, x);
                    innermost_under_binder(second, q, x);
                    assert(t.names().contains(x));
                }
                nameless_depends_on_names(*body, first.push(q), second.push(q));
            } else {
                innermost_under_binder(first, q, old_name);
                innermost_under_binder(second, q, fresh);
                assert forall|x: Seq<char>| #[trigger]
                    body.names().contains(x) && x != old_name implies innermost(first.push(q), x)
                    == innermost(second.push(q), x) by {
                    innermost_under_binder(first, q, x);
                    innermost_under_binder(second, q, x);
                    assert(t.names().contains(x));
                }
                renaming_keeps_nameless(*body, old_name, new_label, first.push(q), second.push(q));
            }
        },
        Term::Application(function, argument) => {
            assert forall|x: Seq<char>| #[trigger]
                function.names().contains(x) && x != old_name implies innermost(first, x)
                == innermost(second, x) by {
                assert(t.names().contains(x));
            }
            assert forall|x: Seq<char>| #[trigger]
                argument.names().contains(x) && x != old_name implies innermost(first, x)
                == innermost(second, x) by {
                assert(t.names().contains(x));
            }
            renaming_keeps_nameless(*function, old_name, new_label, first, second);
            renaming_keeps_nameless(*argument, old_name, new_label, first, second);
        },
    }
}

} // verus!
