//! The executable representation of lambda terms.

use crate::term::{Name, Term};
use vstd::prelude::*;

verus! {

/// The label of a variable or of a binder.
#[derive(Debug)]
pub struct Identifier {
    /// The name that scoping and comparison go by.
    pub identifier: String,
    /// The name as first written; renaming keeps it, for display.
    pub original: String,
}

/// A lambda term.
#[derive(Debug)]
pub enum Ast {
    Lambda { parameter: Identifier, body: Box<Ast> },
    Var { identifier: Identifier },
    App { function: Box<Ast>, argument: Box<Ast> },
}

impl View for Identifier {
    type V = Name;

    open spec fn view(&self) -> Name {
        Name { current: self.identifier@, original: self.original@ }
    }
}

impl View for Ast {
    type V = Term;

    open spec fn view(&self) -> Term
        decreases self,
    {
        match self {
            Ast::Lambda { parameter, body } => Term::Abstraction(
                parameter@,
                Box::new((**body).view()),
            ),
            Ast::Var { identifier } => Term::Variable(identifier@),
            Ast::App { function, argument } => Term::Application(
                Box::new((**function).view()),
                Box::new((**argument).view()),
            ),
        }
    }
}

impl Clone for Identifier {
    fn clone(&self) -> (copy: Identifier)
        ensures
            copy == *self,
    {
        Identifier { identifier: self.identifier.clone(), original: self.original.clone() }
    }
}

impl Clone for Ast {
    fn clone(&self) -> (copy: Ast)
        ensures
            copy == *self,
        decreases self,
    {
        match self {
            Ast::Lambda { parameter, body } => Ast::Lambda {
                parameter: parameter.clone(),
                body: Box::new((&**body).clone()),
            },
            Ast::Var { identifier } => Ast::Var { identifier: identifier.clone() },
            Ast::App { function, argument } => Ast::App {
                function: Box::new((&**function).clone()),
                argument: Box::new((&**argument).clone()),
            },
        }
    }
}

/// The models of a sequence of terms.
pub open spec fn views(terms: Seq<Ast>) -> Seq<Term> {
    terms.map_values(|t: Ast| t@)
}

/// The terms of a chain applied from left to right: `a b c` is `(a b) c`.
pub open spec fn application_chain(terms: Seq<Term>) -> Term
    recommends
        terms.len() > 0,
    decreases terms.len(),
{
    if terms.len() <= 1 {
        terms[0]
    } else {
        Term::Application(Box::new(application_chain(terms.drop_last())), Box::new(terms.last()))
    }
}

/// Builds the left-associated application of a non-empty chain of terms.
pub fn from_app_chain(terms: Vec<Ast>) -> (chain: Ast)
    requires
        terms.len() > 0,
    ensures
        chain@ == application_chain(views(terms@)),
{
    let ghost all = terms@;
    let mut terms = terms;
    let mut reversed: Vec<Ast> = Vec::new();
    while terms.len() > 0
        invariant
            terms@.len() + reversed@.len() == all.len(),
            terms@ == all.take(terms@.len() as int),
            forall|j: int| 0 <= j < reversed@.len() ==> reversed@[j] == all[all.len() - 1 - j],
        decreases terms.len(),
    {
        let term = terms.pop().unwrap();
        reversed.push(term);
        assert(terms@ =~= all.take(terms@.len() as int));
    }
    let first = reversed.pop().unwrap();
    let mut chain = first;
    assert(views(all.take(1)) =~= seq![first@]);
    while reversed.len() > 0
        invariant
            1 <= all.len() - reversed@.len() <= all.len(),
            forall|j: int| 0 <= j < reversed@.len() ==> reversed@[j] == all[all.len() - 1 - j],
            chain@ == application_chain(views(all.take(all.len() - reversed@.len()))),
        decreases reversed.len(),
    {
        let ghost done = all.len() - reversed@.len();
        let next = reversed.pop().unwrap();
        assert(views(all.take(done + 1)).drop_last() =~= views(all.take(done)));
        assert(views(all.take(done + 1)).last() == next@);
        chain = Ast::App { function: Box::new(chain), argument: Box::new(next) };
    }
    assert(all.take(all.len() as int) =~= all);
    chain
}

} // verus!
