use lambda_eval::ast::{from_app_chain, Ast, Identifier};
use lambda_eval::names::FreshNames;
use lambda_eval::pretty::{contains_space, wrap_in_parens};
use vstd::hash_set::StringHashSet;

fn var(name: &str) -> Ast {
    Ast::Var {
        identifier: Identifier {
            identifier: name.to_string(),
            original: name.to_string(),
        },
    }
}

fn lambda(name: &str, body: Ast) -> Ast {
    Ast::Lambda {
        parameter: Identifier {
            identifier: name.to_string(),
            original: name.to_string(),
        },
        body: Box::new(body),
    }
}

fn app(function: Ast, argument: Ast) -> Ast {
    Ast::App {
        function: Box::new(function),
        argument: Box::new(argument),
    }
}

fn omega() -> Ast {
    let half = lambda("x", app(var("x"), var("x")));
    app(half.clone(), half)
}

#[test]
fn normal_form_is_stable_under_renaming_and_stepping() {
    let term = app(
        lambda("b", lambda("t", lambda("f", from_app_chain(vec![var("b"), var("f"), var("t")])))),
        lambda("t", lambda("f", var("t"))),
    );
    let normal = term.eval();
    assert!(normal.clone().make_variables_unique().step().is_none());
    assert_eq!(normal.clone().eval().pretty(), normal.make_variables_unique().pretty());
}

#[test]
fn renaming_keeps_structure_and_free_variables() {
    let term = app(lambda("x", app(var("x"), var("free"))), lambda("x", var("x")));
    assert_eq!(
        term.make_variables_unique().pretty(),
        "(#v0<x> -> v0<x> free) (#v1<x> -> v1<x>)"
    );
}

#[test]
fn renaming_gives_each_binder_its_own_name() {
    let term = lambda("x", lambda("x", lambda("x", var("x"))));
    let renamed = term.make_variables_unique();
    assert_eq!(renamed.pretty(), "#v0<x> -> #v1<x> -> #v2<x> -> v2<x>");
}

#[test]
fn renaming_twice_keeps_the_original_names() {
    let term = lambda("x", var("x"));
    let once = term.make_variables_unique();
    assert_eq!(once.clone().pretty(), "#v0<x> -> v0<x>");
    assert_eq!(once.make_variables_unique().pretty(), "#v1<x> -> v1<x>");
}

#[test]
fn substitution_stops_at_a_binder_of_the_same_name() {
    let term = app(var("n"), lambda("n", var("n")));
    let result = term.replace("n".to_string(), var("r"));
    assert_eq!(result.pretty(), "r (#n -> n)");
}

#[test]
fn substitution_replaces_every_free_occurrence() {
    let term = app(var("n"), lambda("m", app(var("n"), var("m"))));
    let result = term.replace("n".to_string(), app(var("a"), var("b")));
    assert_eq!(result.pretty(), "(a b) (#m -> (a b) m)");
}

#[test]
fn substitution_is_not_capture_avoiding() {
    let term = lambda("y", var("x"));
    assert_eq!(term.replace("x".to_string(), var("y")).pretty(), "#y -> y");
}

#[test]
fn step_contracts_the_outer_redex_first() {
    let inner = app(lambda("z", var("z")), var("w"));
    let term = app(lambda("x", app(var("x"), inner.clone())), inner);
    let stepped = term.step().unwrap();
    assert_eq!(
        stepped.pretty(),
        "((#z -> z) w) ((#z -> z) w)"
    );
}

#[test]
fn step_prefers_the_function_over_the_argument() {
    let redex = app(lambda("z", var("z")), var("w"));
    let term = app(app(var("f"), redex.clone()), redex);
    assert_eq!(term.step().unwrap().pretty(), "(f w) ((#z -> z) w)");
}

#[test]
fn step_reduces_the_argument_when_the_function_is_normal() {
    let redex = app(lambda("z", var("z")), var("w"));
    let term = app(var("f"), redex);
    assert_eq!(term.step().unwrap().pretty(), "f w");
}

#[test]
fn step_reduces_under_a_binder() {
    let term = lambda("a", app(lambda("z", var("z")), var("a")));
    assert_eq!(term.step().unwrap().pretty(), "#a -> a");
}

#[test]
fn step_finds_no_redex_in_a_normal_form() {
    assert!(var("x").step().is_none());
    assert!(app(var("a"), var("b")).step().is_none());
    assert!(lambda("x", app(var("x"), var("y"))).step().is_none());
}

#[test]
fn normal_order_discards_a_divergent_argument() {
    let term = app(lambda("x", var("y")), omega());
    assert_eq!(term.eval().pretty(), "y");
}

#[test]
fn bounded_evaluation_gives_up_on_a_divergent_term() {
    assert!(omega().eval_within(50).is_none());
}

#[test]
fn bounded_evaluation_counts_contractions() {
    let term = app(lambda("x", var("x")), app(lambda("y", var("y")), var("z")));
    assert!(term.clone().eval_within(0).is_none());
    assert!(term.clone().eval_within(1).is_none());
    assert_eq!(term.clone().eval_within(2).unwrap().pretty(), "z");
    assert_eq!(term.eval_within(7).unwrap().pretty(), "z");
}

#[test]
fn bounded_evaluation_of_a_normal_form_needs_no_step() {
    let term = lambda("x", var("x"));
    assert_eq!(term.eval_within(0).unwrap().pretty(), "#v0<x> -> v0<x>");
}

#[test]
fn used_variables_hold_bound_and_free_names_once() {
    let term = app(lambda("x", app(var("x"), var("y"))), app(var("y"), var("x")));
    let used = term.get_used_variables();
    assert_eq!(used.len(), 2);
    assert!(used.contains("x"));
    assert!(used.contains("y"));
    assert!(!used.contains("z"));
}

#[test]
fn used_variables_go_by_the_current_name() {
    let term = Ast::Var {
        identifier: Identifier {
            identifier: "now".to_string(),
            original: "then".to_string(),
        },
    };
    let used = term.get_used_variables();
    assert!(used.contains("now"));
    assert!(!used.contains("then"));
}

#[test]
fn fresh_names_count_in_decimal() {
    let mut names = FreshNames::new(StringHashSet::new());
    let mut last = String::new();
    for _ in 0..=110 {
        last = names.next();
    }
    assert_eq!(last, "v110");
    assert_eq!(names.next(), "v111");
}

#[test]
fn fresh_names_carry_over_nines() {
    let mut names = FreshNames::new(StringHashSet::new());
    let all: Vec<String> = (0..1001).map(|_| names.next()).collect();
    assert_eq!(all[0], "v0");
    assert_eq!(all[9], "v9");
    assert_eq!(all[10], "v10");
    assert_eq!(all[99], "v99");
    assert_eq!(all[100], "v100");
    assert_eq!(all[999], "v999");
    assert_eq!(all[1000], "v1000");
}

#[test]
fn fresh_names_skip_used_names() {
    let mut used = StringHashSet::new();
    used.insert("v0".to_string());
    used.insert("v1".to_string());
    used.insert("v3".to_string());
    used.insert("x".to_string());
    let mut names = FreshNames::new(used);
    assert_eq!(names.next(), "v2");
    assert_eq!(names.next(), "v4");
    assert_eq!(names.next(), "v5");
}

#[test]
fn identifier_shows_the_original_name_when_renamed() {
    let same = Identifier {
        identifier: "x".to_string(),
        original: "x".to_string(),
    };
    let renamed = Identifier {
        identifier: "v7".to_string(),
        original: "x".to_string(),
    };
    assert_eq!(same.pretty(), "x");
    assert_eq!(renamed.pretty(), "v7<x>");
}

#[test]
fn parentheses_go_by_spaces_only() {
    assert_eq!(wrap_in_parens("a".to_string()), "a");
    assert_eq!(wrap_in_parens("a b".to_string()), "(a b)");
    assert_eq!(wrap_in_parens("".to_string()), "");
    assert!(contains_space(" "));
    assert!(!contains_space("a-b"));
}

#[test]
fn application_parenthesizes_both_sides() {
    let term = app(app(var("a"), var("b")), app(var("c"), var("d")));
    assert_eq!(term.pretty(), "(a b) (c d)");
    let term = app(lambda("x", var("x")), lambda("y", var("y")));
    assert_eq!(term.pretty(), "(#x -> x) (#y -> y)");
}

#[test]
fn a_name_with_a_space_is_parenthesized() {
    let term = app(var("a b"), var("c"));
    assert_eq!(term.pretty(), "(a b) c");
}

#[test]
fn render_by_reference_agrees_with_pretty() {
    let term = lambda("x", app(var("x"), var("y")));
    assert_eq!(term.render(), "#x -> x y");
    assert_eq!(term.pretty(), "#x -> x y");
}

#[test]
fn chain_of_one_term_is_that_term() {
    assert_eq!(from_app_chain(vec![var("a")]).pretty(), "a");
}

#[test]
fn chain_associates_to_the_left() {
    let term = from_app_chain(vec![var("a"), var("b"), var("c"), var("d")]);
    assert_eq!(term.pretty(), "((a b) c) d");
}

#[test]
fn clone_copies_the_whole_term() {
    let term = app(lambda("x", var("x")), var("y"));
    assert_eq!(term.clone().pretty(), term.pretty());
}
