//! The mathematical model of lambda terms: what a term is, which names it
//! holds, and what substitution and one step of normal-order reduction give.

use vstd::prelude::*;

verus! {

/// The label of a variable or of a binder: the name that scoping goes by, and
/// the name it was first written with, which is kept for display only.
pub struct Name {
    pub current: Seq<char>,
    pub original: Seq<char>,
}

/// A lambda term.
pub enum Term {
    /// A reference to a variable. Whether it is bound or free is decided by
    /// the abstractions around it.
    Variable(Name),
    /// A function of one parameter; the parameter binds the occurrences of its
    /// current name in the body.
    Abstraction(Name, Box<Term>),
    /// A function applied to an argument.
    Application(Box<Term>, Box<Term>),
}

impl Term {
    /// Every current name that occurs in the term, at a variable or at a binder.
    pub open spec fn names(self) -> Set<Seq<char>>
        decreases self,
    {
        match self {
            Term::Variable(id) => set![id.current],
            Term::Abstraction(parameter, body) => body.names().insert(parameter.current),
            Term::Application(function, argument) => function.names().union(argument.names()),
        }
    }

    /// The current names of the variables that no enclosing abstraction binds.
    pub open spec fn free_names(self) -> Set<Seq<char>>
        decreases self,
    {
        match self {
            Term::Variable(id) => set![id.current],
            Term::Abstraction(parameter, body) => body.free_names().remove(parameter.current),
            Term::Application(function, argument) => function.free_names().union(
                argument.free_names(),
            ),
        }
    }

    /// The current names of the binders, in the order in which a walk that
    /// visits a node before its children, and a function before its argument,
    /// meets them.
    pub open spec fn binders(self) -> Seq<Seq<char>>
        decreases self,
    {
        match self {
            Term::Variable(_) => Seq::empty(),
            Term::Abstraction(parameter, body) => seq![parameter.current] + body.binders(),
            Term::Application(function, argument) => function.binders() + argument.binders(),
        }
    }

    /// The number of nodes of the term.
    pub open spec fn size(self) -> nat
        decreases self,
    {
        match self {
            Term::Variable(_) => 1,
            Term::Abstraction(_, body) => 1 + body.size(),
            Term::Application(function, argument) => 1 + function.size() + argument.size(),
        }
    }

    /// The term with every free occurrence of the variable `target` replaced
    /// by `replacement`. Binders of the term may capture free variables of
    /// `replacement`: nothing is renamed.
    pub open spec fn substitute(self, target: Seq<char>, replacement: Term) -> Term
        decreases self,
    {
        match self {
            Term::Variable(id) => if id.current == target {
                replacement
            } else {
                self
            },
            Term::Abstraction(parameter, body) => if parameter.current == target {
                self
            } else {
                Term::Abstraction(parameter, Box::new(body.substitute(target, replacement)))
            },
            Term::Application(function, argument) => Term::Application(
                Box::new(function.substitute(target, replacement)),
                Box::new(argument.substitute(target, replacement)),
            ),
        }
    }

    /// The term is an abstraction applied to an argument.
    pub open spec fn is_redex(self) -> bool {
        self matches Term::Application(function, _) && *function is Abstraction
    }

    /// What contracting a redex gives: the body of the abstraction with the
    /// argument in place of the parameter.
    pub open spec fn contract(self) -> Term
        recommends
            self.is_redex(),
    {
        match self {
            Term::Application(function, argument) => match *function {
                Term::Abstraction(parameter, body) => body.substitute(parameter.current, *argument),
                _ => self,
            },
            _ => self,
        }
    }

    /// Some subterm is a redex.
    pub open spec fn has_redex(self) -> bool
        decreases self,
    {
        match self {
            Term::Variable(_) => false,
            Term::Abstraction(_, body) => body.has_redex(),
            Term::Application(function, argument) => self.is_redex() || function.has_redex()
                || argument.has_redex(),
        }
    }

    /// One step of normal-order reduction: the term with its leftmost-outermost
    /// redex contracted, or `None` where it has no redex.
    pub open spec fn step(self) -> Option<Term>
        decreases self,
    {
        match self {
            Term::Variable(_) => None,
            Term::Abstraction(parameter, body) => match body.step() {
                Some(reduced) => Some(Term::Abstraction(parameter, Box::new(reduced))),
                None => None,
            },
            Term::Application(function, argument) => if self.is_redex() {
                Some(self.contract())
            } else {
                match function.step() {
                    Some(reduced) => Some(Term::Application(Box::new(reduced), argument)),
                    None => match argument.step() {
                        Some(reduced) => Some(Term::Application(function, Box::new(reduced))),
                        None => None,
                    },
                }
            },
        }
    }
}

/// A term holds finitely many names.
pub proof fn names_are_finite(t: Term)
    ensures
        t.names().finite(),
    decreases t,
{
    match t {
        Term::Variable(_) => {},
        Term::Abstraction(_, body) => {
            names_are_finite(*body);
        },
        Term::Application(function, argument) => {
            names_are_finite(*function);
            names_are_finite(*argument);
        },
    }
}

/// The free names of a term are among its names, and so are its binders.
pub proof fn names_cover(t: Term)
    ensures
        t.free_names().subset_of(t.names()),
        forall|i: int| 0 <= i < t.binders().len() ==> t.names().contains(#[trigger] t.binders()[i]),
    decreases t,
{
    match t {
        Term::Variable(_) => {},
        Term::Abstraction(_, body) => {
            names_cover(*body);
            assert forall|i: int| 0 <= i < t.binders().len() implies t.names().contains(
                #[trigger] t.binders()[i],
            ) by {
                if i > 0 {
                    assert(t.binders()[i] == body.binders()[i - 1]);
                }
            }
        },
        Term::Application(function, argument) => {
            names_cover(*function);
            names_cover(*argument);
            assert forall|i: int| 0 <= i < t.binders().len() implies t.names().contains(
                #[trigger] t.binders()[i],
            ) by {
                if i < function.binders().len() {
                    assert(t.binders()[i] == function.binders()[i]);
                } else {
                    assert(t.binders()[i] == argument.binders()[i - function.binders().len()]);
                }
            }
        },
    }
}

/// A step is possible exactly where the term has a redex.
pub proof fn step_finds_redex(t: Term)
    ensures
        t.step() is Some <==> t.has_redex(),
    decreases t,
{
    match t {
        Term::Variable(_) => {},
        Term::Abstraction(_, body) => {
            step_finds_redex(*body);
        },
        Term::Application(function, argument) => {
            step_finds_redex(*function);
            step_finds_redex(*argument);
        },
    }
}

} // verus!
