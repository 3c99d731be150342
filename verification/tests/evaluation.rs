use rusp::eval::{lval_eval, lval_eval_sexpr};
use rusp::value::LispValue;

fn num(n: i64) -> LispValue {
    LispValue::Number(n)
}

fn sym(s: &str) -> LispValue {
    LispValue::Symbol(s.to_string())
}

fn err(s: &str) -> LispValue {
    LispValue::Error(s.to_string())
}

fn q(items: Vec<LispValue>) -> LispValue {
    LispValue::Qexpr(items)
}

fn s(items: Vec<LispValue>) -> LispValue {
    LispValue::Sexpr(items)
}

fn samples() -> Vec<LispValue> {
    vec![
        num(3),
        err("kept"),
        sym("+"),
        s(vec![]),
        q(vec![sym("+"), num(1), num(2)]),
        s(vec![sym("+"), num(1), num(2)]),
        s(vec![num(1)]),
        s(vec![s(vec![s(vec![])])]),
        s(vec![num(1), num(2)]),
        s(vec![sym("list"), s(vec![sym("*"), num(2), num(3)]), q(vec![s(vec![num(1)])])]),
        s(vec![sym("eval"), q(vec![sym("list"), s(vec![sym("+"), num(1), num(1)])])]),
        s(vec![sym("/"), num(1), num(0)]),
        s(vec![sym("nope"), num(1), num(0)]),
        s(vec![sym("join"), q(vec![s(vec![num(1), num(2)])]), q(vec![])]),
    ]
}

#[test]
fn atoms_and_q_expressions_are_their_own_value() {
    assert_eq!(lval_eval(num(3)), num(3));
    assert_eq!(lval_eval(err("kept")), err("kept"));
    assert_eq!(lval_eval(sym("+")), sym("+"));
    assert_eq!(lval_eval(sym("unbound")), sym("unbound"));
    let quoted = q(vec![sym("+"), num(1), s(vec![sym("/"), num(1), num(0)])]);
    assert_eq!(lval_eval(quoted.clone()), quoted);
}

#[test]
fn the_empty_s_expression_is_its_own_value() {
    assert_eq!(lval_eval(s(vec![])), s(vec![]));
    assert_eq!(lval_eval_sexpr(s(vec![])), s(vec![]));
}

#[test]
fn a_single_child_is_unwrapped() {
    assert_eq!(lval_eval(s(vec![num(5)])), num(5));
    assert_eq!(lval_eval(s(vec![sym("+")])), sym("+"));
    assert_eq!(lval_eval(s(vec![s(vec![s(vec![q(vec![num(1)])])])])), q(vec![num(1)]));
    assert_eq!(lval_eval(s(vec![s(vec![])])), s(vec![]));
}

#[test]
fn children_are_evaluated_before_the_builtin_is_applied() {
    let input = s(vec![
        sym("*"),
        s(vec![sym("+"), num(1), num(5)]),
        s(vec![sym("*"), num(1), num(3), num(7)]),
    ]);
    assert_eq!(lval_eval(input), num(126));
}

#[test]
fn the_first_error_among_the_children_is_the_result() {
    let input = s(vec![
        sym("+"),
        s(vec![sym("/"), num(1), num(0)]),
        s(vec![sym("head"), q(vec![])]),
    ]);
    assert_eq!(lval_eval(input), err("Division by zero."));
    let input = s(vec![
        sym("+"),
        num(1),
        s(vec![sym("head"), q(vec![])]),
        s(vec![sym("/"), num(1), num(0)]),
    ]);
    assert_eq!(lval_eval(input), err("Function 'head' passed {}."));
    assert_eq!(lval_eval(s(vec![err("first"), err("second")])), err("first"));
    assert_eq!(lval_eval(s(vec![num(1), err("only")])), err("only"));
    assert_eq!(lval_eval(s(vec![err("alone")])), err("alone"));
}

#[test]
fn an_error_in_a_q_expression_does_not_spread() {
    let input = s(vec![sym("list"), q(vec![err("quoted")])]);
    assert_eq!(lval_eval(input), q(vec![q(vec![err("quoted")])]));
}

#[test]
fn the_first_child_must_be_a_symbol() {
    let message = "S-expression does not start with symbol.";
    assert_eq!(lval_eval(s(vec![num(1), num(2), num(3)])), err(message));
    assert_eq!(lval_eval(s(vec![q(vec![]), num(2)])), err(message));
    assert_eq!(lval_eval(s(vec![s(vec![]), num(2)])), err(message));
    assert_eq!(lval_eval(s(vec![s(vec![sym("+"), num(1), num(1)]), num(2)])), err(message));
}

#[test]
fn an_unknown_name_is_an_error() {
    assert_eq!(lval_eval(s(vec![sym("%"), num(1), num(2)])), err("Unknown Function!"));
    assert_eq!(lval_eval(s(vec![sym("car"), q(vec![num(1)])])), err("Unknown Function!"));
}

#[test]
fn eval_runs_what_list_built() {
    let input = s(vec![
        sym("eval"),
        s(vec![sym("list"), sym("+"), num(1), s(vec![sym("*"), num(2), num(3)])]),
    ]);
    assert_eq!(lval_eval(input), num(7));
    let input = s(vec![
        sym("eval"),
        s(vec![sym("head"), s(vec![sym("list"), num(1), num(2), num(3)])]),
    ]);
    assert_eq!(lval_eval(input), num(1));
    let input = s(vec![sym("eval"), q(vec![sym("eval"), q(vec![sym("-"), num(4)])])]);
    assert_eq!(lval_eval(input), num(-4));
}

#[test]
fn evaluating_twice_is_evaluating_once() {
    for v in samples() {
        let once = lval_eval(v);
        let twice = lval_eval(once.clone());
        assert_eq!(twice, once);
    }
}

#[test]
fn what_evaluation_returns_is_no_s_expression_with_children() {
    for v in samples() {
        match lval_eval(v) {
            LispValue::Sexpr(cell) => assert!(cell.is_empty()),
            _ => {}
        }
    }
}
