use lambda_eval::ast::{from_app_chain, Ast, Identifier};
use std::collections::HashSet;

fn var(name: &str) -> Ast {
    Ast::Var {
        identifier: Identifier {
            identifier: name.to_string(),
            original: name.to_string(),
        },
    }
}

fn lambda(name: &str, body: Ast) -> Ast {
    Ast::Lambda {
        parameter: Identifier {
            identifier: name.to_string(),
            original: name.to_string(),
        },
        body: Box::new(body),
    }
}

fn chain(terms: Vec<Ast>) -> Ast {
    from_app_chain(terms)
}

#[test]
fn evaluates_identity_function() {
    let term = chain(vec![lambda("x", var("x")), var("y")]);
    assert_eq!(term.eval().pretty(), "y");
}

#[test]
fn allows_to_implement_fst() {
    let term = chain(vec![
        lambda(
            "tuple",
            chain(vec![var("tuple"), lambda("a", lambda("b", var("a")))]),
        ),
        lambda("t", chain(vec![var("t"), var("x"), var("y")])),
    ]);
    assert_eq!(term.eval().pretty(), "x");
}

#[test]
fn does_terminate_on_free_variable_applications() {
    assert_eq!(chain(vec![var("a"), var("b")]).eval().pretty(), "a b");
}

#[test]
fn allows_to_implement_not_without_alpha_conversion() {
    let term = chain(vec![
        lambda(
            "b",
            lambda(
                "tt",
                lambda("ff", chain(vec![var("b"), var("ff"), var("tt")])),
            ),
        ),
        lambda("t", lambda("f", var("t"))),
    ]);
    assert_eq!(term.eval().pretty(), "#v0<tt> -> #v3<ff> -> v3<ff>");
}

#[test]
fn allows_to_implement_not_with_alpha_conversion() {
    let term = chain(vec![
        lambda(
            "b",
            lambda(
                "t",
                lambda("f", chain(vec![var("b"), var("f"), var("t")])),
            ),
        ),
        lambda("t", lambda("f", var("t"))),
    ]);
    assert_eq!(term.eval().pretty(), "#v0<t> -> #v3<f> -> v3<f>");
}

#[test]
fn works() {
    let term = chain(vec![
        lambda("x", lambda("y", chain(vec![var("x"), var("y")]))),
        lambda("x", var("x")),
    ]);
    assert_eq!(
        term.make_variables_unique().pretty(),
        "(#v0<x> -> #v1<y> -> v0<x> v1<y>) (#v2<x> -> v2<x>)"
    );
}

#[test]
fn does_not_use_existing_variables() {
    let term = lambda("x", lambda("v0", chain(vec![var("x"), var("v1")])));
    assert_eq!(
        term.make_variables_unique().pretty(),
        "#v2<x> -> #v3<v0> -> v2<x> v1"
    );
}

#[test]
fn does_return_the_current_identifiers() {
    let var = Ast::Lambda {
        parameter: Identifier {
            identifier: "foo".to_string(),
            original: "foo_original".to_string(),
        },
        body: Box::new(Ast::Var {
            identifier: Identifier {
                identifier: "bar".to_string(),
                original: "bar_original".to_string(),
            },
        }),
    };
    let expected: HashSet<String> = ["foo", "bar"].iter().map(|x| x.to_string()).collect();
    let used = var.get_used_variables();
    assert_eq!(used.len(), expected.len());
    for name in expected.iter() {
        assert!(used.contains(name));
    }
}

#[test]
fn allows_to_implement_apply() {
    let term = chain(vec![
        lambda("fun", lambda("x", chain(vec![var("fun"), var("x")]))),
        lambda("x", var("x")),
        lambda("t", lambda("f", var("t"))),
    ]);
    assert_eq!(term.eval().pretty(), "#v0<t> -> #v3<f> -> v0<t>");
}

#[test]
fn proper_alpha_conversion() {
    let term = lambda(
        "clashing",
        chain(vec![
            lambda(
                "x",
                lambda("clashing", chain(vec![var("clashing"), var("x")])),
            ),
            var("clashing"),
        ]),
    );
    assert_eq!(
        term.eval().pretty(),
        "#v1<clashing> -> #v3<clashing> -> v3<clashing> v1<clashing>"
    );
}
