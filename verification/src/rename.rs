//! Renaming of every bound variable to a fresh generated name.

use crate::alpha::{
    alpha_equivalent, innermost, innermost_under_binder, nameless, renaming_keeps_nameless,
};
use crate::names::{first_unused, first_unused_exists, fresh_name, fresh_name_injective};
use crate::term::{names_cover, Name, Term};
use vstd::prelude::*;

verus! {

/// The label that a binder gets when it is renamed to the generated name of
/// the given index: the original name stays.
pub open spec fn renamed(parameter: Name, index: nat) -> Name {
    Name { current: fresh_name(index), original: parameter.original }
}

/// Renames the binders of `t` in the order in which a walk meets them that
/// visits a node before its children, and a function before its argument.
///
/// Each binder gets the first generated name, from the index `from` on, that
/// is not in `used`, and the occurrences that it binds are renamed with it
/// before the walk goes on into its body. The result is the renamed term and
/// the index after the last one taken.
pub open spec fn relabel(t: Term, used: Set<Seq<char>>, from: nat) -> (Term, nat)
    decreases t.size(),
    via relabel_terminates
{
    match t {
        Term::Variable(_) => (t, from),
        Term::Abstraction(parameter, body) => {
            let index = first_unused(used, from);
            let label = renamed(parameter, index);
            let inner = relabel(
                body.substitute(parameter.current, Term::Variable(label)),
                used,
                index + 1,
            );
            (Term::Abstraction(label, Box::new(inner.0)), inner.1)
        },
        Term::Application(function, argument) => {
            let left = relabel(*function, used, from);
            let right = relabel(*argument, used, left.1);
            (Term::Application(Box::new(left.0), Box::new(right.0)), right.1)
        },
    }
}

#[via_fn]
proof fn relabel_terminates(t: Term, used: Set<Seq<char>>, from: nat) {
    match t {
        Term::Variable(_) => {},
        Term::Abstraction(parameter, body) => {
            let index = first_unused(used, from);
            variable_for_variable_keeps_size(*body, parameter.current, renamed(parameter, index));
        },
        Term::Application(function, argument) => {},
    }
}

/// The term with every binder renamed to a generated name that occurs
/// nowhere in it, no two binders to the same.
pub open spec fn uniquify(t: Term) -> Term {
    relabel(t, t.names(), 0).0
}

/// Putting a variable in the place of a variable leaves the size of a term as
/// it was.
pub proof fn variable_for_variable_keeps_size(t: Term, target: Seq<char>, label: Name)
    ensures
        t.substitute(target, Term::Variable(label)).size() == t.size(),
    decreases t,
{
    match t {
        Term::Variable(_) => {},
        Term::Abstraction(_, body) => {
            variable_for_variable_keeps_size(*body, target, label);
        },
        Term::Application(function, argument) => {
            variable_for_variable_keeps_size(*function, target, label);
            variable_for_variable_keeps_size(*argument, target, label);
        },
    }
}

/// Putting a variable in the place of a variable adds at most its name to the
/// names of a term, and leaves the binders, the kind of the root and the
/// redexes as they were.
pub proof fn variable_for_variable_keeps_shape(t: Term, target: Seq<char>, label: Name)
    ensures
        t.substitute(target, Term::Variable(label)).names().subset_of(
            t.names().insert(label.current),
        ),
        t.substitute(target, Term::Variable(label)).binders() == t.binders(),
        t.substitute(target, Term::Variable(label)) is Abstraction <==> t is Abstraction,
        t.substitute(target, Term::Variable(label)).has_redex() == t.has_redex(),
    decreases t,
{
    match t {
        Term::Variable(_) => {},
        Term::Abstraction(_, body) => {
            variable_for_variable_keeps_shape(*body, target, label);
        },
        Term::Application(function, argument) => {
            variable_for_variable_keeps_shape(*function, target, label);
            variable_for_variable_keeps_shape(*argument, target, label);
        },
    }
}

/// Putting a variable whose name the term does not hold in the place of
/// `target` renames `target` among the free names.
pub proof fn variable_for_variable_renames_free(t: Term, target: Seq<char>, label: Name)
    requires
        !t.names().contains(label.current),
    ensures
        t.substitute(target, Term::Variable(label)).free_names() == if t.free_names().contains(
            target,
        ) {
            t.free_names().remove(target).insert(label.current)
        } else {
            t.free_names()
        },
    decreases t,
{
    let result = t.substitute(target, Term::Variable(label));
    let expected = if t.free_names().contains(target) {
        t.free_names().remove(target).insert(label.current)
    } else {
        t.free_names()
    };
    match t {
        Term::Variable(_) => {},
        Term::Abstraction(parameter, body) => {
            names_cover(*body);
            if parameter.current != target {
                variable_for_variable_renames_free(*body, target, label);
            }
        },
        Term::Application(function, argument) => {
            variable_for_variable_renames_free(*function, target, label);
            variable_for_variable_renames_free(*argument, target, label);
        },
    }
    assert(result.free_names() =~= expected);
}

/// The names that a term may hold while its binders are being renamed: those
/// of `used`, and the generated names of an index below `from`.
pub open spec fn seen(used: Set<Seq<char>>, from: nat) -> Set<Seq<char>> {
    Set::new(|x: Seq<char>| used.contains(x) || exists|m: nat| m < from && x == fresh_name(m))
}

/// The name is a generated name of an index from `from` up to, not
/// including, `next`, and is not in `used`.
pub open spec fn generated_between(
    name: Seq<char>,
    used: Set<Seq<char>>,
    from: nat,
    next: nat,
) -> bool {
    !used.contains(name) && exists|m: nat| from <= m < next && name == fresh_name(m)
}

/// The first unused index gives a name that no term under renaming holds yet.
pub proof fn first_unused_is_new(used: Set<Seq<char>>, from: nat)
    requires
        used.finite(),
    ensures
        from <= first_unused(used, from),
        !seen(used, from).contains(fresh_name(first_unused(used, from))),
        generated_between(
            fresh_name(first_unused(used, from)),
            used,
            from,
            first_unused(used, from) + 1,
        ),
{
    first_unused_exists(used, from);
    let n = first_unused(used, from);
    assert forall|m: nat| m < from implies fresh_name(n) != fresh_name(m) by {
        if fresh_name(n) == fresh_name(m) {
            fresh_name_injective(n, m);
        }
    }
}

/// The binders of a term, each under its own new name and no two under the
/// same; the free names unchanged; the index only moved on.
pub proof fn relabel_renames_apart(t: Term, used: Set<Seq<char>>, from: nat)
    requires
        used.finite(),
        t.names().subset_of(seen(used, from)),
    ensures
        from <= relabel(t, used, from).1,
        relabel(t, used, from).0.free_names() == t.free_names(),
        relabel(t, used, from).0.binders().len() == t.binders().len(),
        relabel(t, used, from).0.binders().no_duplicates(),
        forall|i: int|
            0 <= i < relabel(t, used, from).0.binders().len() ==> generated_between(
                #[trigger] relabel(t, used, from).0.binders()[i],
                used,
                from,
                relabel(t, used, from).1,
            ),
    decreases t.size(),
{
    let result = relabel(t, used, from).0;
    let next = relabel(t, used, from).1;
    match t {
        Term::Variable(_) => {},
        Term::Abstraction(parameter, body) => {
            let index = first_unused(used, from);
            let label = renamed(parameter, index);
            let fresh = label.current;
            let renamed_body = body.substitute(parameter.current, Term::Variable(label));
            first_unused_is_new(used, from);
            variable_for_variable_keeps_size(*body, parameter.current, label);
            variable_for_variable_keeps_shape(*body, parameter.current, label);
            variable_for_variable_renames_free(*body, parameter.current, label);
            assert forall|x: Seq<char>| renamed_body.names().contains(x) implies seen(
                used,
                index + 1,
            ).contains(x) by {
                if x == fresh {
                    assert(index < index + 1 && x == fresh_name(index));
                } else {
                    assert(t.names().contains(x));
                    assert(seen(used, from).contains(x));
                    if !used.contains(x) {
                        let m = choose|m: nat| m < from && x == fresh_name(m);
                        assert(m < index + 1 && x == fresh_name(m));
                    }
                }
            }
            relabel_renames_apart(renamed_body, used, index + 1);
            let inner = relabel(renamed_body, used, index + 1).0;
            assert(result == Term::Abstraction(label, Box::new(inner)));
            assert(result.free_names() =~= t.free_names()) by {
                names_cover(*body);
            }
            assert forall|i: int| 0 <= i < result.binders().len() implies generated_between(
                #[trigger] result.binders()[i],
                used,
                from,
                next,
            ) by {
                if i == 0 {
                    assert(from <= index < next && result.binders()[i] == fresh_name(index));
                } else {
                    let name = inner.binders()[i - 1];
                    assert(result.binders()[i] == name);
                    assert(generated_between(name, used, index + 1, next));
                    let m = choose|m: nat| index + 1 <= m < next && name == fresh_name(m);
                    assert(from <= m < next && name == fresh_name(m));
                }
            }
            assert forall|i: int, j: int|
                0 <= i < result.binders().len() && 0 <= j < result.binders().len() && i
                    != j implies result.binders()[i] != result.binders()[j] by {
                if i > 0 && j > 0 {
                    assert(result.binders()[i] == inner.binders()[i - 1]);
                    assert(result.binders()[j] == inner.binders()[j - 1]);
                } else {
                    let k = if i > 0 {
                        i
                    } else {
                        j
                    };
                    let name = inner.binders()[k - 1];
                    assert(result.binders()[k] == name);
                    assert(generated_between(name, used, index + 1, next));
                    let m = choose|m: nat| index + 1 <= m < next && name == fresh_name(m);
                    if name == fresh {
                        fresh_name_injective(m, index);
                    }
                }
            }
        },
        Term::Application(function, argument) => {
            relabel_renames_apart(*function, used, from);
            let left = relabel(*function, used, from).0;
            let middle = relabel(*function, used, from).1;
            assert forall|x: Seq<char>| argument.names().contains(x) implies seen(
                used,
                middle,
            ).contains(x) by {
                assert(t.names().contains(x));
                assert(seen(used, from).contains(x));
                if !used.contains(x) {
                    let m = choose|m: nat| m < from && x == fresh_name(m);
                    assert(m < middle && x == fresh_name(m));
                }
            }
            relabel_renames_apart(*argument, used, middle);
            let right = relabel(*argument, used, middle).0;
            assert(result == Term::Application(Box::new(left), Box::new(right)));
            assert(result.free_names() =~= t.free_names());
            let split = left.binders().len() as int;
            assert forall|i: int| 0 <= i < result.binders().len() implies generated_between(
                #[trigger] result.binders()[i],
                used,
                from,
                next,
            ) by {
                if i < split {
                    let name = left.binders()[i];
                    assert(result.binders()[i] == name);
                    assert(generated_between(name, used, from, middle));
                    let m = choose|m: nat| from <= m < middle && name == fresh_name(m);
                    assert(from <= m < next && name == fresh_name(m));
                } else {
                    let name = right.binders()[i - split];
                    assert(result.binders()[i] == name);
                    assert(generated_between(name, used, middle, next));
                    let m = choose|m: nat| middle <= m < next && name == fresh_name(m);
                    assert(from <= m < next && name == fresh_name(m));
                }
            }
            assert forall|i: int, j: int|
                0 <= i < result.binders().len() && 0 <= j < result.binders().len() && i
                    != j implies result.binders()[i] != result.binders()[j] by {
                if i < split && j < split {
                    assert(result.binders()[i] == left.binders()[i]);
                    assert(result.binders()[j] == left.binders()[j]);
                } else if i >= split && j >= split {
                    assert(result.binders()[i] == right.binders()[i - split]);
                    assert(result.binders()[j] == right.binders()[j - split]);
                } else {
                    let low = if i < split {
                        i
                    } else {
                        j
                    };
                    let high = if i < split {
                        j
                    } else {
                        i
                    };
                    let a = left.binders()[low];
                    let b = right.binders()[high - split];
                    assert(result.binders()[low] == a);
                    assert(result.binders()[high] == b);
                    assert(generated_between(a, used, from, middle));
                    assert(generated_between(b, used, middle, next));
                    let m = choose|m: nat| from <= m < middle && a == fresh_name(m);
                    let n = choose|n: nat| middle <= n < next && b == fresh_name(n);
                    if a == b {
                        fresh_name_injective(m, n);
                    }
                }
            }
        },
    }
}

/// Renaming the binders leaves the kind of the root and the redexes of a
/// term as they were.
pub proof fn relabel_keeps_shape(t: Term, used: Set<Seq<char>>, from: nat)
    ensures
        relabel(t, used, from).0 is Abstraction <==> t is Abstraction,
        relabel(t, used, from).0 is Variable <==> t is Variable,
        relabel(t, used, from).0.has_redex() == t.has_redex(),
    decreases t.size(),
{
    match t {
        Term::Variable(_) => {},
        Term::Abstraction(parameter, body) => {
            let index = first_unused(used, from);
            let label = renamed(parameter, index);
            variable_for_variable_keeps_size(*body, parameter.current, label);
            variable_for_variable_keeps_shape(*body, parameter.current, label);
            relabel_keeps_shape(
                body.substitute(parameter.current, Term::Variable(label)),
                used,
                index + 1,
            );
        },
        Term::Application(function, argument) => {
            relabel_keeps_shape(*function, used, from);
            relabel_keeps_shape(*argument, used, relabel(*function, used, from).1);
        },
    }
}

/// Renaming the binders leaves the nameless form of a term as it was,
/// whatever binders stand around the term.
pub proof fn relabel_keeps_nameless(
    t: Term,
    used: Set<Seq<char>>,
    from: nat,
    scope: Seq<Seq<char>>,
)
    requires
        used.finite(),
        t.names().subset_of(seen(used, from)),
    ensures
        nameless(relabel(t, used, from).0, scope) == nameless(t, scope),
    decreases t.size(),
{
    match t {
        Term::Variable(_) => {},
        Term::Abstraction(parameter, body) => {
            let index = first_unused(used, from);
            let label = renamed(parameter, index);
            let fresh = label.current;
            let old_name = parameter.current;
            let renamed_body = body.substitute(old_name, Term::Variable(label));
            first_unused_is_new(used, from);
            variable_for_variable_keeps_size(*body, old_name, label);
            variable_for_variable_keeps_shape(*body, old_name, label);
            assert(!body.names().contains(fresh)) by {
                if body.names().contains(fresh) {
                    assert(t.names().contains(fresh));
                }
            }
            assert forall|x: Seq<char>| renamed_body.names().contains(x) implies seen(
                used,
                index + 1,
            ).contains(x) by {
                if x == fresh {
                    assert(index < index + 1 && x == fresh_name(index));
                } else {
                    assert(t.names().contains(x));
                    assert(seen(used, from).contains(x));
                    if !used.contains(x) {
                        let m = choose|m: nat| m < from && x == fresh_name(m);
                        assert(m < index + 1 && x == fresh_name(m));
                    }
                }
            }
            relabel_keeps_nameless(renamed_body, used, index + 1, scope.push(fresh));
            innermost_under_binder(scope, old_name, old_name);
            innermost_under_binder(scope, fresh, fresh);
            assert forall|x: Seq<char>| #[trigger]
                body.names().contains(x) && x != old_name implies innermost(
                scope.push(old_name),
                x,
            ) == innermost(scope.push(fresh), x) by {
                innermost_under_binder(scope, old_name, x);
                innermost_under_binder(scope, fresh, x);
            }
            renaming_keeps_nameless(
                *body,
                old_name,
                label,
                scope.push(old_name),
                scope.push(fresh),
            );
        },
        Term::Application(function, argument) => {
            relabel_renames_apart(*function, used, from);
            let middle = relabel(*function, used, from).1;
            assert forall|x: Seq<char>| argument.names().contains(x) implies seen(
                used,
                middle,
            ).contains(x) by {
                assert(t.names().contains(x));
                assert(seen(used, from).contains(x));
                if !used.contains(x) {
                    let m = choose|m: nat| m < from && x == fresh_name(m);
                    assert(m < middle && x == fresh_name(m));
                }
            }
            relabel_keeps_nameless(*function, used, from, scope);
            relabel_keeps_nameless(*argument, used, middle, scope);
        },
    }
}

/// No binder is named like another binder or like a free variable.
pub open spec fn distinctly_bound(t: Term) -> bool {
    &&& t.binders().no_duplicates()
    &&& forall|i: int|
        0 <= i < t.binders().len() ==> !t.free_names().contains(#[trigger] t.binders()[i])
}

/// What renaming every binder to a fresh name gives: a term that differs from
/// the given one in the names of bound variables only, in which no binder is
/// named like another binder, like a free variable or like any name of the
/// given term, and which has a redex exactly if the given one has.
pub proof fn uniquify_properties(t: Term)
    ensures
        alpha_equivalent(uniquify(t), t),
        uniquify(t).free_names() == t.free_names(),
        distinctly_bound(uniquify(t)),
        forall|i: int|
            0 <= i < uniquify(t).binders().len() ==> !t.names().contains(
                #[trigger] uniquify(t).binders()[i],
            ),
        uniquify(t).has_redex() == t.has_redex(),
{
    let used = t.names();
    crate::term::names_are_finite(t);
    names_cover(t);
    relabel_renames_apart(t, used, 0);
    relabel_keeps_nameless(t, used, 0, Seq::empty());
    relabel_keeps_shape(t, used, 0);
    let result = uniquify(t);
    let next = relabel(t, used, 0).1;
    assert forall|i: int| 0 <= i < result.binders().len() implies !t.names().contains(
        #[trigger] result.binders()[i],
    ) by {
        assert(generated_between(result.binders()[i], used, 0, next));
    }
}

/// In a term whose binders are named apart, the binders of every child are
/// named apart too.
pub proof fn distinctly_bound_children(t: Term)
    requires
        distinctly_bound(t),
    ensures
        t matches Term::Abstraction(_, body) ==> distinctly_bound(*body),
        t matches Term::Application(function, _) ==> distinctly_bound(*function),
        t matches Term::Application(_, argument) ==> distinctly_bound(*argument),
{
    match t {
        Term::Variable(_) => {},
        Term::Abstraction(parameter, body) => {
            let all = t.binders();
            let inner = body.binders();
            assert forall|i: int| 0 <= i < inner.len() implies all[i + 1] == inner[i] by {}
            assert forall|i: int, j: int|
                0 <= i < inner.len() && 0 <= j < inner.len() && i != j implies inner[i]
                != inner[j] by {
                assert(all[i + 1] == inner[i]);
                assert(all[j + 1] == inner[j]);
            }
            assert forall|i: int| 0 <= i < inner.len() implies !body.free_names().contains(
                #[trigger] inner[i],
            ) by {
                assert(all[i + 1] == inner[i]);
                assert(all[0] == parameter.current);
                assert(!t.free_names().contains(all[i + 1]));
            }
        },
        Term::Application(function, argument) => {
            let all = t.binders();
            let left = function.binders();
            let right = argument.binders();
            let split = left.len() as int;
            assert forall|i: int, j: int|
                0 <= i < left.len() && 0 <= j < left.len() && i != j implies left[i]
                != left[j] by {
                assert(all[i] == left[i]);
                assert(all[j] == left[j]);
            }
            assert forall|i: int| 0 <= i < left.len() implies !function.free_names().contains(
                #[trigger] left[i],
            ) by {
                assert(all[i] == left[i]);
                assert(!t.free_names().contains(all[i]));
            }
            assert forall|i: int, j: int|
                0 <= i < right.len() && 0 <= j < right.len() && i != j implies right[i]
                != right[j] by {
                assert(all[i + split] == right[i]);
                assert(all[j + split] == right[j]);
            }
            assert forall|i: int| 0 <= i < right.len() implies !argument.free_names().contains(
                #[trigger] right[i],
            ) by {
                assert(all[i + split] == right[i]);
                assert(!t.free_names().contains(all[i + split]));
            }
        },
    }
}

} // verus!
