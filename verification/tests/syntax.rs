use lambda_eval::ast::{from_app_chain, Ast, Identifier};

fn var(name: &str) -> Ast {
    Ast::Var {
        identifier: Identifier {
            identifier: name.to_string(),
            original: name.to_string(),
        },
    }
}

fn lambda(name: &str, body: Ast) -> Ast {
    Ast::Lambda {
        parameter: Identifier {
            identifier: name.to_string(),
            original: name.to_string(),
        },
        body: Box::new(body),
    }
}

#[test]
fn parses_variables() {
    assert_eq!(var("x").pretty(), "x");
}

#[test]
fn parses_parenthesis() {
    assert_eq!(var("x").pretty(), "x");
}

#[test]
fn parses_lambdas() {
    assert_eq!(lambda("x", var("y")).pretty(), "#x -> y");
}

#[test]
fn parses_applications() {
    assert_eq!(from_app_chain(vec![var("x"), var("y")]).pretty(), "x y");
}

#[test]
fn parses_parenthesized_lambdas() {
    assert_eq!(lambda("x", var("y")).pretty(), "#x -> y");
}

#[test]
fn parses_complex_terms() {
    assert_eq!(
        from_app_chain(vec![lambda("x", var("x")), var("y")]).pretty(),
        "(#x -> x) y"
    );
}

#[test]
fn parses_chains_of_applications() {
    assert_eq!(
        from_app_chain(vec![var("a"), var("b"), var("c")]).pretty(),
        "(a b) c"
    );
}

#[test]
fn parses_functions_with_multiple_arguments() {
    assert_eq!(
        lambda(
            "x",
            lambda("y", from_app_chain(vec![var("x"), var("y")]))
        )
        .pretty(),
        "#x -> #y -> x y"
    );
}

#[test]
fn parses_chains_of_applications_as_lambda_bodies() {
    assert_eq!(
        lambda("x", from_app_chain(vec![var("a"), var("b")])).pretty(),
        "#x -> a b"
    );
}
