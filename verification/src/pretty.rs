//! Rendering of terms as text.

use crate::ast::{Ast, Identifier};
use crate::term::{Name, Term};
use vstd::prelude::*;
use vstd::string::StringExecFns;

verus! {

/// A label as text: its current name, followed by the original name in angle
/// brackets where the two differ.
pub open spec fn render_name(id: Name) -> Seq<char> {
    if id.current == id.original {
        id.current
    } else {
        id.current + seq!['<'] + id.original + seq!['>']
    }
}

/// The text in parentheses where it holds a space, else as it is.
pub open spec fn parenthesize(text: Seq<char>) -> Seq<char> {
    if text.contains(' ') {
        seq!['('] + text + seq![')']
    } else {
        text
    }
}

/// A term as text: a variable is its label; an abstraction is `#`, the
/// parameter's label, ` -> ` and the body; an application is the function, a
/// space and the argument, each in parentheses where its own text holds a
/// space.
pub open spec fn render(t: Term) -> Seq<char>
    decreases t,
{
    match t {
        Term::Variable(id) => render_name(id),
        Term::Abstraction(parameter, body) => seq!['#'] + render_name(parameter) + seq![
            ' ',
            '-',
            '>',
            ' ',
        ] + render(*body),
        Term::Application(function, argument) => parenthesize(render(*function)) + seq![' ']
            + parenthesize(render(*argument)),
    }
}

/// Whether the text holds a space.
pub fn contains_space(text: &str) -> (found: bool)
    ensures
        found == text@.contains(' '),
{
    let mut found = false;
    for c in it: text.chars()
        invariant
            it.seq() == text@,
            found <==> exists|j: int| 0 <= j < it.index() && text@[j] == ' ',
    {
        assert(c == text@[it.index() as int]);
        if c == ' ' {
            found = true;
        }
    }
    found
}

/// Puts the text in parentheses where it holds a space.
pub fn wrap_in_parens(text: String) -> (wrapped: String)
    ensures
        wrapped@ == parenthesize(text@),
{
    if contains_space(text.as_str()) {
        proof {
            reveal_strlit("(");
            reveal_strlit(")");
        }
        let mut wrapped = String::from_str("(");
        wrapped.append(text.as_str());
        wrapped.append(")");
        wrapped
    } else {
        text
    }
}

impl Identifier {
    /// The label as text: the current name, followed by the original name
    /// in angle brackets where the two differ.
    pub fn pretty(&self) -> (text: String)
        ensures
            text@ == render_name(self@),
    {
        if self.identifier == self.original {
            self.identifier.clone()
        } else {
            proof {
                reveal_strlit("<");
                reveal_strlit(">");
            }
            let mut text = self.identifier.clone();
            text.append("<");
            text.append(self.original.as_str());
            text.append(">");
            text
        }
    }
}

impl Ast {
    /// The term as text, with parentheses only around a function or an
    /// argument whose own text holds a space.
    pub fn pretty(self) -> (text: String)
        ensures
            text@ == render(self@),
    {
        self.render()
    }

    /// The term as text; see [`Ast::pretty`].
    pub fn render(&self) -> (text: String)
        ensures
            text@ == render(self@),
        decreases self,
    {
        match self {
            Ast::Var { identifier } => identifier.pretty(),
            Ast::Lambda { parameter, body } => {
                proof {
                    reveal_strlit("#");
                    reveal_strlit(" -> ");
                }
                let mut text = String::from_str("#");
                text.append(parameter.pretty().as_str());
                text.append(" -> ");
                text.append(body.render().as_str());
                assert(" -> "@ =~= seq![' ', '-', '>', ' ']);
                text
            },
            Ast::App { function, argument } => {
                proof {
                    reveal_strlit(" ");
                }
                let mut text = wrap_in_parens(function.render());
                text.append(" ");
                text.append(wrap_in_parens(argument.render()).as_str());
                text
            },
        }
    }
}

} // verus!
