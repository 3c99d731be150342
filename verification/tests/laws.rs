use rusp::builtins::{builtin_head, builtin_join, builtin_op, builtin_tail};
use rusp::value::{lval_join, LispValue};

fn num(n: i64) -> LispValue {
    LispValue::Number(n)
}

fn q(items: &[i64]) -> LispValue {
    LispValue::Qexpr(items.iter().map(|n| num(*n)).collect())
}

fn args(items: Vec<LispValue>) -> LispValue {
    LispValue::Sexpr(items)
}

fn join2(x: LispValue, y: LispValue) -> LispValue {
    builtin_join(args(vec![x, y]))
}

#[test]
fn join_is_associative() {
    let lists: [&[i64]; 4] = [&[], &[1], &[2, 3], &[4, 5, 6]];
    for a in lists {
        for b in lists {
            for c in lists {
                assert_eq!(join2(join2(q(a), q(b)), q(c)), join2(q(a), join2(q(b), q(c))));
                assert_eq!(
                    lval_join(lval_join(q(a), q(b)), q(c)),
                    lval_join(q(a), lval_join(q(b), q(c)))
                );
                assert_eq!(builtin_join(args(vec![q(a), q(b), q(c)])), join2(join2(q(a), q(b)), q(c)));
            }
        }
    }
}

#[test]
fn the_empty_q_expression_is_the_identity_of_join() {
    let lists: [&[i64]; 3] = [&[], &[1], &[2, 3, 4]];
    for a in lists {
        assert_eq!(join2(q(&[]), q(a)), q(a));
        assert_eq!(join2(q(a), q(&[])), q(a));
    }
    let nested = LispValue::Qexpr(vec![q(&[1]), LispValue::Sexpr(vec![]), num(2)]);
    let same = LispValue::Qexpr(vec![q(&[1]), LispValue::Sexpr(vec![]), num(2)]);
    assert_eq!(join2(q(&[]), nested), same);
}

#[test]
fn head_and_tail_walk_a_list_from_left_to_right() {
    let items = [10i64, 20, 30, 40, 50];
    let mut rest = q(&items);
    let mut seen = Vec::new();
    for _ in 0..items.len() {
        match builtin_head(args(vec![rest.clone()])) {
            LispValue::Qexpr(cell) => {
                assert_eq!(cell.len(), 1);
                seen.push(cell[0].num());
            }
            other => panic!("head gave {:?}", other),
        }
        rest = builtin_tail(args(vec![rest]));
    }
    assert_eq!(seen, items);
    assert_eq!(rest, q(&[]));
    assert_eq!(
        builtin_tail(args(vec![rest])),
        LispValue::Error("Function 'tail' passed {}!".to_string())
    );
}

#[test]
fn a_zero_divisor_always_gives_the_error() {
    let message = LispValue::Error("Division by zero.".to_string());
    let firsts = [0i64, 1, -1, 7, i64::MAX, i64::MIN];
    for first in firsts {
        assert_eq!(builtin_op(args(vec![num(first), num(0)]), "/"), message);
        assert_eq!(builtin_op(args(vec![num(first), num(3), num(0)]), "/"), message);
        assert_eq!(builtin_op(args(vec![num(first), num(0), num(3)]), "/"), message);
        assert_eq!(builtin_op(args(vec![num(first), num(-1), num(1), num(0), num(0)]), "/"), message);
    }
}
