//! The builtins that do not evaluate: arithmetic and the list operations.

use vstd::prelude::*;
use crate::arith::{num_add, num_div, num_mul, num_neg, num_sub, quotient, wrap};
use crate::text::str_eq;
use crate::value::{
    lemma_size, lemma_size_all_add, lemma_size_all_index, lemma_size_all_push,
    lemma_size_all_remove, lval_err, lval_into_qexpr, lval_join, lval_num, lval_pop, lval_take,
    size, size_all, LispValue, Term,
};

verus! {

/// Every element is a number.
pub open spec fn all_numbers(cell: Seq<Term>) -> bool {
    forall|i: int| 0 <= i < cell.len() ==> cell[i] is Number
}

/// Every element is a Q-expression.
pub open spec fn all_qexprs(cell: Seq<Term>) -> bool {
    forall|i: int| 0 <= i < cell.len() ==> cell[i] is Qexpr
}

/// One step of arithmetic on the accumulator `x`. `None` stands for a
/// division by zero; a name that is no operator leaves `x` as it is.
pub open spec fn apply_op(op: Seq<char>, x: i64, y: i64) -> Option<i64> {
    if op == "+"@ {
        Some(wrap(x + y))
    } else if op == "-"@ {
        Some(wrap(x - y))
    } else if op == "*"@ {
        Some(wrap(x * y))
    } else if op == "/"@ {
        if y == 0 {
            None
        } else {
            Some(wrap(quotient(x as int, y as int)))
        }
    } else {
        Some(x)
    }
}

/// The fold of `op` over the numbers `rest` from the left, starting at
/// `acc`. It stops at the first division by zero.
pub open spec fn fold_op(op: Seq<char>, acc: i64, rest: Seq<Term>) -> Term
    decreases rest.len(),
{
    if rest.len() == 0 {
        Term::Number(acc)
    } else {
        match apply_op(op, acc, rest[0]->Number_0) {
            Some(next) => fold_op(op, next, rest.drop_first()),
            None => Term::Error("Division by zero."@),
        }
    }
}

/// What `builtin_op` returns for the arguments `a` and the operator `op`.
pub open spec fn builtin_op_spec(a: Term, op: Seq<char>) -> Term {
    let cell = a.cells();
    if !all_numbers(cell) {
        Term::Error("Cannot operate on non-number!"@)
    } else if cell.len() == 1 && op == "-"@ {
        Term::Number(wrap(-(cell[0]->Number_0)))
    } else {
        fold_op(op, cell[0]->Number_0, cell.drop_first())
    }
}

/// What `builtin_head` returns for the arguments `a`.
pub open spec fn builtin_head_spec(a: Term) -> Term {
    let cell = a.cells();
    if cell.len() != 1 {
        Term::Error("Function 'head' passed too many arguments!"@)
    } else if !(cell[0] is Qexpr) {
        Term::Error("Function 'head' passed incorrect type!"@)
    } else if cell[0].cells().len() == 0 {
        Term::Error("Function 'head' passed {}."@)
    } else {
        Term::Qexpr(seq![cell[0].cells()[0]])
    }
}

/// What `builtin_tail` returns for the arguments `a`.
pub open spec fn builtin_tail_spec(a: Term) -> Term {
    let cell = a.cells();
    if cell.len() != 1 {
        Term::Error("Function 'tail' passed too many arguments!"@)
    } else if !(cell[0] is Qexpr) {
        Term::Error("Function 'tail' passed incorrect type!"@)
    } else if cell[0].cells().len() == 0 {
        Term::Error("Function 'tail' passed {}!"@)
    } else {
        Term::Qexpr(cell[0].cells().drop_first())
    }
}

/// What `builtin_list` returns for the arguments `a`.
pub open spec fn builtin_list_spec(a: Term) -> Term {
    Term::Qexpr(a.cells())
}

/// The children of the lists in `cell`, one list after the other.
pub open spec fn concat_cells(cell: Seq<Term>) -> Seq<Term>
    decreases cell.len(),
{
    if cell.len() == 0 {
        Seq::empty()
    } else {
        cell[0].cells() + concat_cells(cell.drop_first())
    }
}

/// What `builtin_join` returns for the arguments `a`.
pub open spec fn builtin_join_spec(a: Term) -> Term {
    if !all_qexprs(a.cells()) {
        Term::Error("Function 'join' passed incorrect type!"@)
    } else {
        Term::Qexpr(concat_cells(a.cells()))
    }
}

/// A fold ends in a number or in an error: a tree of one node.
pub proof fn lemma_fold_op_size(op: Seq<char>, acc: i64, rest: Seq<Term>)
    ensures
        size(fold_op(op, acc, rest)) == 1,
    decreases rest.len(),
{
    if rest.len() > 0 {
        match apply_op(op, acc, rest[0]->Number_0) {
            Some(next) => lemma_fold_op_size(op, next, rest.drop_first()),
            None => {},
        }
    }
}

/// The children of lists hold fewer nodes than the lists themselves.
pub proof fn lemma_concat_cells_size(cell: Seq<Term>)
    ensures
        size_all(concat_cells(cell)) <= size_all(cell),
    decreases cell.len(),
{
    if cell.len() > 0 {
        lemma_concat_cells_size(cell.drop_first());
        lemma_size_all_add(cell[0].cells(), concat_cells(cell.drop_first()));
        lemma_size(cell[0]);
    }
}

/// None of these builtins returns a tree larger than its arguments.
pub proof fn lemma_builtins_size(a: Term, op: Seq<char>)
    ensures
        size(builtin_op_spec(a, op)) <= size(a),
        size(builtin_head_spec(a)) <= size(a),
        size(builtin_tail_spec(a)) <= size(a),
        size(builtin_list_spec(a)) <= size(a),
        size(builtin_join_spec(a)) <= size(a),
{
    let cell = a.cells();
    lemma_size(a);
    lemma_size(builtin_list_spec(a));
    lemma_size(builtin_join_spec(a));
    lemma_concat_cells_size(cell);
    lemma_fold_op_size(op, cell[0]->Number_0, cell.drop_first());
    if cell.len() == 1 && cell[0] is Qexpr && cell[0].cells().len() > 0 {
        let inner = cell[0].cells();
        lemma_size_all_index(cell, 0);
        lemma_size(cell[0]);
        lemma_size_all_remove(inner, 0);
        lemma_size(builtin_tail_spec(a));
        lemma_size(builtin_head_spec(a));
        lemma_size_all_push(Seq::<Term>::empty(), inner[0]);
    }
}

/// Arithmetic: folds the operator `op` over the numbers in `a` from the
/// left. A lone argument of `-` is negated.
pub fn builtin_op(a: LispValue, op: &str) -> (r: LispValue)
    requires
        a@.is_list(),
        a@.cells().len() > 0,
    ensures
        r@ == builtin_op_spec(a@, op@),
{
    let n = a.count();
    let mut i: usize = 0;
    while i < n
        invariant
            n == a@.cells().len(),
            i <= n,
            forall|k: int| 0 <= k < i ==> a@.cells()[k] is Number,
        decreases n - i,
    {
        match a.cell(i) {
            LispValue::Number(_) => {},
            _ => {
                return lval_err("Cannot operate on non-number!");
            },
        }
        i += 1;
    }
    let mut rest = a;
    let mut x: i64 = lval_pop(&mut rest, 0).num();
    if str_eq(op, "-") && rest.count() == 0 {
        return lval_num(num_neg(x));
    }
    while rest.count() > 0
        invariant
            rest@.is_list(),
            all_numbers(rest@.cells()),
            fold_op(op@, x, rest@.cells()) == builtin_op_spec(a@, op@),
        decreases rest@.cells().len(),
    {
        let y: i64 = lval_pop(&mut rest, 0).num();
        if str_eq(op, "+") {
            x = num_add(x, y);
        } else if str_eq(op, "-") {
            x = num_sub(x, y);
        } else if str_eq(op, "*") {
            x = num_mul(x, y);
        } else if str_eq(op, "/") {
            match num_div(x, y) {
                Some(q) => {
                    x = q;
                },
                None => {
                    return lval_err("Division by zero.");
                },
            }
        }
    }
    lval_num(x)
}

/// `head`: the Q-expression that holds only the first element of its one
/// argument, a Q-expression that is not empty.
pub fn builtin_head(a: LispValue) -> (r: LispValue)
    requires
        a@.is_list(),
    ensures
        r@ == builtin_head_spec(a@),
{
    if a.count() != 1 {
        return lval_err("Function 'head' passed too many arguments!");
    }
    match a.cell(0) {
        LispValue::Qexpr(_) => {},
        _ => {
            return lval_err("Function 'head' passed incorrect type!");
        },
    }
    if a.cell(0).count() == 0 {
        return lval_err("Function 'head' passed {}.");
    }
    let mut v = lval_take(a, 0);
    let ghost first = v@.cells()[0];
    while v.count() > 1
        invariant
            v@ is Qexpr,
            v@.cells().len() >= 1,
            v@.cells()[0] == first,
        decreases v@.cells().len(),
    {
        let _ = lval_pop(&mut v, 1);
    }
    assert(v@.cells() =~= seq![first]);
    v
}

/// `tail`: its one argument, a Q-expression that is not empty, without its
/// first element.
pub fn builtin_tail(a: LispValue) -> (r: LispValue)
    requires
        a@.is_list(),
    ensures
        r@ == builtin_tail_spec(a@),
{
    if a.count() != 1 {
        return lval_err("Function 'tail' passed too many arguments!");
    }
    match a.cell(0) {
        LispValue::Qexpr(_) => {},
        _ => {
            return lval_err("Function 'tail' passed incorrect type!");
        },
    }
    if a.cell(0).count() == 0 {
        return lval_err("Function 'tail' passed {}!");
    }
    let mut v = lval_take(a, 0);
    let _ = lval_pop(&mut v, 0);
    v
}

/// `list`: the arguments as a Q-expression.
pub fn builtin_list(a: LispValue) -> (r: LispValue)
    requires
        a@.is_list(),
    ensures
        r@ == builtin_list_spec(a@),
{
    lval_into_qexpr(a)
}

/// `join`: the elements of all the arguments, which are Q-expressions, in
/// one Q-expression.
pub fn builtin_join(a: LispValue) -> (r: LispValue)
    requires
        a@.is_list(),
        a@.cells().len() > 0,
    ensures
        r@ == builtin_join_spec(a@),
{
    let n = a.count();
    let mut i: usize = 0;
    while i < n
        invariant
            n == a@.cells().len(),
            i <= n,
            forall|k: int| 0 <= k < i ==> a@.cells()[k] is Qexpr,
        decreases n - i,
    {
        match a.cell(i) {
            LispValue::Qexpr(_) => {},
            _ => {
                return lval_err("Function 'join' passed incorrect type!");
            },
        }
        i += 1;
    }
    let ghost cell = a@.cells();
    let mut rest = a;
    let mut x = lval_pop(&mut rest, 0);
    while rest.count() != 0
        invariant
            rest@.is_list(),
            all_qexprs(rest@.cells()),
            x@ is Qexpr,
            x@.cells() + concat_cells(rest@.cells()) == concat_cells(cell),
        decreases rest@.cells().len(),
    {
        let y = lval_pop(&mut rest, 0);
        x = lval_join(x, y);
    }
    x
}

} // verus!
