use rusp::print::lval_to_string;
use rusp::repl::interpret;
use rusp::value::LispValue;

fn run(line: &str) -> LispValue {
    interpret(line).expect("the line is a sequence of expressions")
}

fn numbers(items: &[i64]) -> Vec<LispValue> {
    items.iter().map(|n| LispValue::Number(*n)).collect()
}

#[test]
fn two_plus_two_is_four() {
    assert_eq!(run("+ 2 2"), LispValue::Number(4));
}

#[test]
fn nested_products_and_sums() {
    assert_eq!(run("* (+ 1 5) (* 1 3 7)"), LispValue::Number(126));
}

#[test]
fn ten_divided_by_zero_is_an_error() {
    assert_eq!(run("/ 10 0"), LispValue::Error("Division by zero.".to_string()));
}

#[test]
fn list_quotes_its_arguments() {
    assert_eq!(run("list 1 2 3"), LispValue::Qexpr(numbers(&[1, 2, 3])));
    assert_eq!(lval_to_string(&run("list 1 2 3")), "{1 2 3}");
}

#[test]
fn eval_of_head_of_list_is_the_first_element() {
    assert_eq!(run("eval (head (list 1 2 3))"), LispValue::Number(1));
    assert_eq!(run("eval {head {1 2 3}}"), LispValue::Qexpr(numbers(&[1])));
}

#[test]
fn head_of_the_empty_list_is_an_error_that_spreads() {
    assert_eq!(
        run("+ 1 (head {})"),
        LispValue::Error("Function 'head' passed {}.".to_string())
    );
}
