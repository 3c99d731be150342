use rusp::builtins::{builtin_head, builtin_join, builtin_list, builtin_op, builtin_tail};
use rusp::eval::{builtin, builtin_eval};
use rusp::value::LispValue;

fn num(n: i64) -> LispValue {
    LispValue::Number(n)
}

fn sym(s: &str) -> LispValue {
    LispValue::Symbol(s.to_string())
}

fn err(s: &str) -> LispValue {
    LispValue::Error(s.to_string())
}

fn q(items: Vec<LispValue>) -> LispValue {
    LispValue::Qexpr(items)
}

fn args(items: Vec<LispValue>) -> LispValue {
    LispValue::Sexpr(items)
}

fn nums(items: &[i64]) -> Vec<LispValue> {
    items.iter().map(|n| num(*n)).collect()
}

#[test]
fn op_folds_from_the_left() {
    assert_eq!(builtin_op(args(nums(&[1, 2, 3, 4])), "+"), num(10));
    assert_eq!(builtin_op(args(nums(&[10, 2, 3])), "-"), num(5));
    assert_eq!(builtin_op(args(nums(&[2, 3, 7])), "*"), num(42));
    assert_eq!(builtin_op(args(nums(&[100, 5, 2])), "/"), num(10));
}

#[test]
fn op_on_one_argument() {
    assert_eq!(builtin_op(args(nums(&[5])), "-"), num(-5));
    assert_eq!(builtin_op(args(nums(&[-5])), "-"), num(5));
    assert_eq!(builtin_op(args(nums(&[5])), "+"), num(5));
    assert_eq!(builtin_op(args(nums(&[5])), "*"), num(5));
    assert_eq!(builtin_op(args(nums(&[5])), "/"), num(5));
}

#[test]
fn op_rejects_what_is_no_number() {
    let message = "Cannot operate on non-number!";
    assert_eq!(builtin_op(args(vec![num(1), sym("x")]), "+"), err(message));
    assert_eq!(builtin_op(args(vec![q(vec![]), num(1)]), "*"), err(message));
    assert_eq!(builtin_op(args(vec![args(vec![])]), "-"), err(message));
    assert_eq!(builtin_op(args(vec![num(1), num(0), sym("x")]), "/"), err(message));
}

#[test]
fn division_rounds_toward_zero() {
    assert_eq!(builtin_op(args(nums(&[7, 2])), "/"), num(3));
    assert_eq!(builtin_op(args(nums(&[-7, 2])), "/"), num(-3));
    assert_eq!(builtin_op(args(nums(&[7, -2])), "/"), num(-3));
    assert_eq!(builtin_op(args(nums(&[-7, -2])), "/"), num(3));
    assert_eq!(builtin_op(args(nums(&[0, 5])), "/"), num(0));
}

#[test]
fn division_by_zero_stops_the_fold() {
    let message = "Division by zero.";
    assert_eq!(builtin_op(args(nums(&[10, 0])), "/"), err(message));
    assert_eq!(builtin_op(args(nums(&[10, 2, 0, 5])), "/"), err(message));
    assert_eq!(builtin_op(args(nums(&[0, 0])), "/"), err(message));
    assert_eq!(builtin_op(args(nums(&[10, 0, 0])), "/"), err(message));
    assert_eq!(builtin_op(args(nums(&[0])), "/"), num(0));
    assert_eq!(builtin_op(args(nums(&[5, 0])), "*"), num(0));
}

#[test]
fn arithmetic_wraps_round() {
    assert_eq!(builtin_op(args(nums(&[i64::MAX, 1])), "+"), num(i64::MIN));
    assert_eq!(builtin_op(args(nums(&[i64::MIN, 1])), "-"), num(i64::MAX));
    assert_eq!(builtin_op(args(nums(&[i64::MAX, 2])), "*"), num(-2));
    assert_eq!(builtin_op(args(nums(&[i64::MIN, -1])), "/"), num(i64::MIN));
    assert_eq!(builtin_op(args(nums(&[i64::MIN])), "-"), num(i64::MIN));
    assert_eq!(builtin_op(args(nums(&[i64::MIN, -1])), "*"), num(i64::MIN));
}

#[test]
fn a_name_that_is_no_operator_leaves_the_first_number() {
    assert_eq!(builtin_op(args(nums(&[4, 5, 6])), "%"), num(4));
}

#[test]
fn head_keeps_the_first_element() {
    assert_eq!(builtin_head(args(vec![q(nums(&[1, 2, 3]))])), q(nums(&[1])));
    assert_eq!(builtin_head(args(vec![q(vec![q(nums(&[1])), num(2)])])), q(vec![q(nums(&[1]))]));
}

#[test]
fn head_rejects_bad_arguments() {
    assert_eq!(
        builtin_head(args(vec![q(nums(&[1])), q(nums(&[2]))])),
        err("Function 'head' passed too many arguments!")
    );
    assert_eq!(builtin_head(args(vec![])), err("Function 'head' passed too many arguments!"));
    assert_eq!(builtin_head(args(vec![num(1)])), err("Function 'head' passed incorrect type!"));
    assert_eq!(
        builtin_head(args(vec![args(nums(&[1]))])),
        err("Function 'head' passed incorrect type!")
    );
    assert_eq!(builtin_head(args(vec![q(vec![])])), err("Function 'head' passed {}."));
}

#[test]
fn tail_drops_the_first_element() {
    assert_eq!(builtin_tail(args(vec![q(nums(&[1, 2, 3]))])), q(nums(&[2, 3])));
    assert_eq!(builtin_tail(args(vec![q(nums(&[1]))])), q(vec![]));
}

#[test]
fn tail_rejects_bad_arguments() {
    assert_eq!(
        builtin_tail(args(vec![q(nums(&[1])), q(nums(&[2]))])),
        err("Function 'tail' passed too many arguments!")
    );
    assert_eq!(builtin_tail(args(vec![])), err("Function 'tail' passed too many arguments!"));
    assert_eq!(builtin_tail(args(vec![sym("x")])), err("Function 'tail' passed incorrect type!"));
    assert_eq!(builtin_tail(args(vec![q(vec![])])), err("Function 'tail' passed {}!"));
}

#[test]
fn list_turns_the_arguments_into_a_q_expression() {
    assert_eq!(builtin_list(args(nums(&[1, 2, 3]))), q(nums(&[1, 2, 3])));
    assert_eq!(builtin_list(args(vec![])), q(vec![]));
    assert_eq!(builtin_list(args(vec![sym("+"), q(vec![])])), q(vec![sym("+"), q(vec![])]));
}

#[test]
fn join_concatenates_in_order() {
    assert_eq!(
        builtin_join(args(vec![q(nums(&[1, 2])), q(vec![]), q(nums(&[3])), q(nums(&[4, 5]))])),
        q(nums(&[1, 2, 3, 4, 5]))
    );
    assert_eq!(builtin_join(args(vec![q(nums(&[1]))])), q(nums(&[1])));
    assert_eq!(builtin_join(args(vec![q(vec![]), q(vec![])])), q(vec![]));
}

#[test]
fn join_rejects_what_is_no_q_expression() {
    let message = "Function 'join' passed incorrect type!";
    assert_eq!(builtin_join(args(vec![q(nums(&[1])), num(2)])), err(message));
    assert_eq!(builtin_join(args(vec![args(vec![])])), err(message));
}

#[test]
fn eval_evaluates_a_q_expression_as_an_s_expression() {
    assert_eq!(builtin_eval(args(vec![q(vec![sym("+"), num(1), num(2)])])), num(3));
    assert_eq!(builtin_eval(args(vec![q(vec![])])), args(vec![]));
    assert_eq!(builtin_eval(args(vec![q(nums(&[7]))])), num(7));
}

#[test]
fn eval_rejects_bad_arguments() {
    assert_eq!(
        builtin_eval(args(vec![q(vec![]), q(vec![])])),
        err("Function 'eval' passed too many arguments!")
    );
    assert_eq!(builtin_eval(args(vec![])), err("Function 'eval' passed too many arguments!"));
    assert_eq!(builtin_eval(args(vec![num(1)])), err("Function 'eval' passed incorrect type!"));
}

#[test]
fn builtin_dispatches_by_exact_name() {
    assert_eq!(builtin(args(nums(&[1, 2])), "list"), q(nums(&[1, 2])));
    assert_eq!(builtin(args(vec![q(nums(&[1, 2]))]), "head"), q(nums(&[1])));
    assert_eq!(builtin(args(vec![q(nums(&[1, 2]))]), "tail"), q(nums(&[2])));
    assert_eq!(builtin(args(vec![q(nums(&[1])), q(nums(&[2]))]), "join"), q(nums(&[1, 2])));
    assert_eq!(builtin(args(vec![q(vec![sym("-"), num(1)])]), "eval"), num(-1));
    assert_eq!(builtin(args(nums(&[6, 3])), "+"), num(9));
    assert_eq!(builtin(args(nums(&[6, 3])), "-"), num(3));
    assert_eq!(builtin(args(nums(&[6, 3])), "*"), num(18));
    assert_eq!(builtin(args(nums(&[6, 3])), "/"), num(2));
}

#[test]
fn builtin_rejects_other_names() {
    let message = "Unknown Function!";
    assert_eq!(builtin(args(nums(&[1, 2])), "%"), err(message));
    assert_eq!(builtin(args(nums(&[1, 2])), "cons"), err(message));
    assert_eq!(builtin(args(nums(&[1, 2])), ""), err(message));
    assert_eq!(builtin(args(nums(&[1, 2])), "+-"), err(message));
    assert_eq!(builtin(args(nums(&[1, 2])), "List"), err(message));
    assert_eq!(builtin(args(nums(&[1, 2])), "heads"), err(message));
}
