use rusp::value::{
    lval_add, lval_err, lval_into_qexpr, lval_into_sexpr, lval_join, lval_num, lval_pop,
    lval_qexpr, lval_replace, lval_sexpr, lval_sym, lval_take, LispValue, Tag,
};

fn qexpr_of(items: &[i64]) -> LispValue {
    let mut q = lval_qexpr();
    for n in items {
        q = lval_add(q, lval_num(*n));
    }
    q
}

#[test]
fn constructors_build_each_kind() {
    assert_eq!(lval_num(-7), LispValue::Number(-7));
    assert_eq!(lval_err("boom"), LispValue::Error("boom".to_string()));
    assert_eq!(lval_sym("head"), LispValue::Symbol("head".to_string()));
    assert_eq!(lval_sexpr(), LispValue::Sexpr(vec![]));
    assert_eq!(lval_qexpr(), LispValue::Qexpr(vec![]));
}

#[test]
fn constructors_copy_their_text() {
    let text = String::from("name");
    let v = lval_sym(&text);
    drop(text);
    assert_eq!(v, LispValue::Symbol("name".to_string()));
}

#[test]
fn ty_names_the_kind() {
    assert_eq!(lval_num(1).ty(), Tag::Number);
    assert_eq!(lval_err("e").ty(), Tag::Error);
    assert_eq!(lval_sym("s").ty(), Tag::Symbol);
    assert_eq!(lval_sexpr().ty(), Tag::Sexpr);
    assert_eq!(lval_qexpr().ty(), Tag::Qexpr);
}

#[test]
fn count_and_cell_read_a_list() {
    let q = qexpr_of(&[10, 20, 30]);
    assert_eq!(q.count(), 3);
    assert_eq!(q.cell(0), &LispValue::Number(10));
    assert_eq!(q.cell(2), &LispValue::Number(30));
    assert_eq!(lval_num(5).count(), 0);
    assert_eq!(lval_num(5).num(), 5);
}

#[test]
fn add_appends_in_order_and_keeps_the_kind() {
    let s = lval_add(lval_add(lval_sexpr(), lval_num(1)), lval_sym("x"));
    assert_eq!(
        s,
        LispValue::Sexpr(vec![LispValue::Number(1), LispValue::Symbol("x".to_string())])
    );
    let q = lval_add(lval_qexpr(), lval_qexpr());
    assert_eq!(q, LispValue::Qexpr(vec![LispValue::Qexpr(vec![])]));
}

#[test]
fn pop_takes_one_child_and_closes_the_gap() {
    let mut q = qexpr_of(&[1, 2, 3, 4]);
    assert_eq!(lval_pop(&mut q, 1), LispValue::Number(2));
    assert_eq!(q, qexpr_of(&[1, 3, 4]));
    assert_eq!(lval_pop(&mut q, 2), LispValue::Number(4));
    assert_eq!(q, qexpr_of(&[1, 3]));
    assert_eq!(lval_pop(&mut q, 0), LispValue::Number(1));
    assert_eq!(lval_pop(&mut q, 0), LispValue::Number(3));
    assert_eq!(q, lval_qexpr());
}

#[test]
fn take_keeps_only_the_child() {
    assert_eq!(lval_take(qexpr_of(&[5, 6, 7]), 2), LispValue::Number(7));
    let nested = lval_add(lval_sexpr(), qexpr_of(&[1, 2]));
    assert_eq!(lval_take(nested, 0), qexpr_of(&[1, 2]));
}

#[test]
fn replace_swaps_one_child() {
    let mut q = qexpr_of(&[1, 2, 3]);
    let old = lval_replace(&mut q, 1, lval_sym("two"));
    assert_eq!(old, LispValue::Number(2));
    assert_eq!(
        q,
        LispValue::Qexpr(vec![
            LispValue::Number(1),
            LispValue::Symbol("two".to_string()),
            LispValue::Number(3)
        ])
    );
}

#[test]
fn join_moves_the_second_list_behind_the_first() {
    assert_eq!(lval_join(qexpr_of(&[1, 2]), qexpr_of(&[3])), qexpr_of(&[1, 2, 3]));
    assert_eq!(lval_join(qexpr_of(&[]), qexpr_of(&[3])), qexpr_of(&[3]));
    assert_eq!(lval_join(qexpr_of(&[1]), qexpr_of(&[])), qexpr_of(&[1]));
    let s = lval_add(lval_sexpr(), lval_num(0));
    assert_eq!(
        lval_join(s, qexpr_of(&[1])),
        LispValue::Sexpr(vec![LispValue::Number(0), LispValue::Number(1)])
    );
}

#[test]
fn a_list_changes_kind_and_keeps_its_children() {
    assert_eq!(
        lval_into_sexpr(qexpr_of(&[1, 2])),
        LispValue::Sexpr(vec![LispValue::Number(1), LispValue::Number(2)])
    );
    assert_eq!(lval_into_qexpr(lval_into_sexpr(qexpr_of(&[1, 2]))), qexpr_of(&[1, 2]));
    assert_eq!(lval_into_qexpr(qexpr_of(&[9])), qexpr_of(&[9]));
    assert_eq!(lval_into_sexpr(lval_sexpr()), lval_sexpr());
}

#[test]
fn a_clone_is_equal_and_shares_nothing() {
    let original = LispValue::Sexpr(vec![
        lval_sym("join"),
        qexpr_of(&[1, 2]),
        lval_err("e"),
        LispValue::Qexpr(vec![lval_sexpr()]),
    ]);
    let mut copy = original.clone();
    assert_eq!(copy, original);
    let _ = lval_pop(&mut copy, 1);
    assert_ne!(copy, original);
    assert_eq!(original.count(), 4);
    assert_eq!(original.cell(1), &qexpr_of(&[1, 2]));
}
