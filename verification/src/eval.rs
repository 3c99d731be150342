//! The evaluator: the reduction of S-expressions and the dispatch of
//! builtins by name.

use vstd::prelude::*;
use crate::builtins::{
    builtin_head, builtin_head_spec, builtin_join, builtin_join_spec, builtin_list,
    builtin_list_spec, builtin_op, builtin_op_spec, builtin_tail, builtin_tail_spec,
    lemma_builtins_size,
};
use crate::text::str_eq;
use crate::value::{
    lemma_size, lemma_size_all_add, lemma_size_all_index, lemma_size_all_push,
    lemma_size_all_remove, lval_err, lval_into_sexpr, lval_pop,
    lval_replace, lval_take, size, size_all, LispValue, Tag, Term,
};

verus! {

/// The element at `i` is an error and none before it is.
pub open spec fn is_first_error(cell: Seq<Term>, i: int) -> bool {
    &&& 0 <= i < cell.len()
    &&& cell[i] is Error
    &&& forall|j: int| 0 <= j < i ==> !(cell[j] is Error)
}

/// Some element is an error.
pub open spec fn has_error(cell: Seq<Term>) -> bool {
    exists|i: int| 0 <= i < cell.len() && cell[i] is Error
}

/// The first error among the elements, where there is one.
pub open spec fn first_error(cell: Seq<Term>) -> Term {
    cell[choose|i: int| is_first_error(cell, i)]
}

/// One of the four arithmetic operators.
pub open spec fn is_operator(func: Seq<char>) -> bool {
    func == "+"@ || func == "-"@ || func == "*"@ || func == "/"@
}

/// What `builtin` returns for the arguments `a` and the name `func`.
pub open spec fn builtin_spec(a: Term, func: Seq<char>) -> Term
    decreases size(a), 2nat,
{
    if func == "list"@ {
        builtin_list_spec(a)
    } else if func == "head"@ {
        builtin_head_spec(a)
    } else if func == "tail"@ {
        builtin_tail_spec(a)
    } else if func == "join"@ {
        builtin_join_spec(a)
    } else if func == "eval"@ {
        builtin_eval_spec(a)
    } else if is_operator(func) {
        builtin_op_spec(a, func)
    } else {
        Term::Error("Unknown Function!"@)
    }
}

/// What `builtin_eval` returns for the arguments `a`.
pub open spec fn builtin_eval_spec(a: Term) -> Term
    decreases size(a), 1nat,
{
    let cell = a.cells();
    if cell.len() != 1 {
        Term::Error("Function 'eval' passed too many arguments!"@)
    } else if !(cell[0] is Qexpr) {
        Term::Error("Function 'eval' passed incorrect type!"@)
    } else {
        proof {
            lemma_size(a);
            lemma_size(cell[0]);
            lemma_size(Term::Sexpr(cell[0].cells()));
            lemma_size_all_index(cell, 0);
        }
        eval(Term::Sexpr(cell[0].cells()))
    }
}

/// The value of `v`: an S-expression is reduced, anything else is its own
/// value.
pub open spec fn eval(v: Term) -> Term
    decreases size(v), 1nat,
{
    if v is Sexpr {
        eval_sexpr(v)
    } else {
        v
    }
}

/// The values of the elements, in order.
pub open spec fn eval_cells(cell: Seq<Term>) -> Seq<Term>
    decreases size_all(cell), 2nat,
{
    if cell.len() == 0 {
        Seq::empty()
    } else {
        proof {
            lemma_size(cell[0]);
        }
        seq![eval(cell[0])] + eval_cells(cell.drop_first())
    }
}

/// The reduction of the list `v`: every child is evaluated, then the
/// evaluated children are reduced. Evaluation never makes a tree larger
/// (`lemma_eval_size`), so the first branch is never taken; it is what makes
/// the definition well founded.
pub open spec fn eval_sexpr(v: Term) -> Term
    decreases size(v), 0nat,
{
    let done = eval_cells(v.cells());
    if size_all(done) > size_all(v.cells()) {
        v
    } else {
        reduce(done)
    }
}

/// The reduction of evaluated children: the first error among them; else
/// the empty S-expression for none, the child itself for one, and for more
/// the builtin that the first child names, applied to the others.
pub open spec fn reduce(done: Seq<Term>) -> Term
    decreases size_all(done), 3nat,
{
    if has_error(done) {
        first_error(done)
    } else if done.len() == 0 {
        Term::Sexpr(Seq::empty())
    } else if done.len() == 1 {
        done[0]
    } else if !(done[0] is Symbol) {
        Term::Error("S-expression does not start with symbol."@)
    } else {
        proof {
            lemma_size(done[0]);
            lemma_size(Term::Sexpr(done.drop_first()));
        }
        builtin_spec(Term::Sexpr(done.drop_first()), done[0]->Symbol_0)
    }
}

/// No builtin returns a tree larger than its arguments.
pub proof fn lemma_builtin_size(a: Term, func: Seq<char>)
    ensures
        size(builtin_spec(a, func)) <= size(a),
    decreases size(a), 2nat,
{
    lemma_builtins_size(a, func);
    lemma_size(a);
    if func == "eval"@ {
        lemma_builtin_eval_size(a);
    }
}

/// `eval` returns no tree larger than its arguments.
pub proof fn lemma_builtin_eval_size(a: Term)
    ensures
        size(builtin_eval_spec(a)) <= size(a),
    decreases size(a), 1nat,
{
    let cell = a.cells();
    lemma_size(a);
    if cell.len() == 1 && cell[0] is Qexpr {
        let inner = Term::Sexpr(cell[0].cells());
        lemma_size(cell[0]);
        lemma_size(inner);
        lemma_size_all_index(cell, 0);
        lemma_eval_size(inner);
    }
}

/// Evaluation never makes a tree larger.
pub proof fn lemma_eval_size(v: Term)
    ensures
        size(eval(v)) <= size(v),
    decreases size(v), 1nat,
{
    if v is Sexpr {
        lemma_eval_sexpr_size(v);
    }
}

/// Evaluating the elements keeps their number and makes none larger.
pub proof fn lemma_eval_cells_size(cell: Seq<Term>)
    ensures
        eval_cells(cell).len() == cell.len(),
        size_all(eval_cells(cell)) <= size_all(cell),
    decreases size_all(cell), 2nat,
{
    if cell.len() > 0 {
        lemma_size(cell[0]);
        lemma_eval_size(cell[0]);
        lemma_eval_cells_size(cell.drop_first());
        lemma_size_all_add(seq![eval(cell[0])], eval_cells(cell.drop_first()));
        lemma_size_all_push(Seq::<Term>::empty(), eval(cell[0]));
    }
}

/// The reduction of a list is the reduction of its evaluated children, and
/// is no larger than the list.
pub proof fn lemma_eval_sexpr_size(v: Term)
    ensures
        eval_sexpr(v) == reduce(eval_cells(v.cells())),
        size(eval_sexpr(v)) <= size(v),
    decreases size(v), 0nat,
{
    lemma_size(v);
    lemma_eval_cells_size(v.cells());
    lemma_reduce_size(eval_cells(v.cells()));
}

/// Reducing evaluated children gives a tree no larger than the list of them.
pub proof fn lemma_reduce_size(done: Seq<Term>)
    ensures
        size(reduce(done)) <= 1 + size_all(done),
    decreases size_all(done), 3nat,
{
    if has_error(done) {
        lemma_first_error_is_error(done);
        let i = choose|i: int| 0 <= i < done.len() && done[i] == first_error(done);
        lemma_size_all_index(done, i);
    } else if done.len() == 0 {
        lemma_size(Term::Sexpr(Seq::empty()));
    } else if done.len() == 1 {
        lemma_size_all_index(done, 0);
    } else if done[0] is Symbol {
        let a = Term::Sexpr(done.drop_first());
        lemma_size(done[0]);
        lemma_size(a);
        lemma_builtin_size(a, done[0]->Symbol_0);
    }
}

/// An element that is the first error is the one that `first_error` names.
pub proof fn lemma_first_error(cell: Seq<Term>, i: int)
    requires
        is_first_error(cell, i),
    ensures
        has_error(cell),
        first_error(cell) == cell[i],
{
    let j = choose|j: int| is_first_error(cell, j);
    if j < i {
        assert(!(cell[j] is Error));
    } else if i < j {
        assert(!(cell[i] is Error));
    }
}

/// Where the element at `k` is an error, some element is the first error.
pub proof fn lemma_has_first_error(cell: Seq<Term>, k: int)
    requires
        0 <= k < cell.len(),
        cell[k] is Error,
    ensures
        exists|i: int| is_first_error(cell, i),
    decreases k,
{
    if exists|j: int| 0 <= j < k && cell[j] is Error {
        let j = choose|j: int| 0 <= j < k && cell[j] is Error;
        lemma_has_first_error(cell, j);
    } else {
        assert(is_first_error(cell, k));
    }
}

/// Where some element is an error, `first_error` is an element, and an
/// error.
pub proof fn lemma_first_error_is_error(cell: Seq<Term>)
    requires
        has_error(cell),
    ensures
        first_error(cell) is Error,
        exists|i: int| 0 <= i < cell.len() && cell[i] == first_error(cell),
{
    let k = choose|i: int| 0 <= i < cell.len() && cell[i] is Error;
    lemma_has_first_error(cell, k);
    let i = choose|i: int| is_first_error(cell, i);
    assert(0 <= i < cell.len() && cell[i] == first_error(cell));
}

/// Evaluating two sequences one after the other is evaluating them as one.
pub proof fn lemma_eval_cells_add(a: Seq<Term>, b: Seq<Term>)
    ensures
        eval_cells(a + b) == eval_cells(a) + eval_cells(b),
    decreases a.len(),
{
    if a.len() > 0 {
        lemma_eval_cells_add(a.drop_first(), b);
        assert((a + b).drop_first() =~= a.drop_first() + b);
    }
}

/// Evaluating one element more appends its value.
pub proof fn lemma_eval_cells_push(cell: Seq<Term>, x: Term)
    ensures
        eval_cells(cell.push(x)) == eval_cells(cell).push(eval(x)),
{
    let one = seq![x];
    assert(one.drop_first() =~= Seq::<Term>::empty());
    assert(eval_cells(Seq::<Term>::empty()) =~= Seq::<Term>::empty());
    lemma_eval_cells_add(cell, one);
    assert(cell.push(x) =~= cell + one);
}

/// Evaluates `v`: an S-expression is reduced, anything else is handed back
/// as it is.
pub fn lval_eval(v: LispValue) -> (r: LispValue)
    ensures
        r@ == eval(v@),
    decreases size(v@), 1nat,
{
    match v.ty() {
        Tag::Sexpr => lval_eval_sexpr(v),
        _ => v,
    }
}

/// Reduces the S-expression `v`. Every child is evaluated in place, from
/// left to right. The first error among the evaluated children is the
/// result. Without one, no child gives the empty S-expression, one child
/// gives that child, and more give the builtin that the first child names,
/// applied to the others.
pub fn lval_eval_sexpr(v: LispValue) -> (r: LispValue)
    requires
        v@ is Sexpr,
    ensures
        r@ == eval_sexpr(v@),
    decreases size(v@), 0nat,
{
    let ghost cell = v@.cells();
    let mut list = v;
    let n = list.count();
    let mut i: usize = 0;
    proof {
        lemma_size(v@);
    }
    while i < n
        invariant
            cell == v@.cells(),
            size(v@) == 1 + size_all(cell),
            n == cell.len(),
            i <= n,
            list@ is Sexpr,
            list@.cells() == eval_cells(cell.take(i as int)) + cell.skip(i as int),
        decreases n - i,
    {
        proof {
            lemma_eval_cells_size(cell.take(i as int));
            lemma_size_all_index(cell, i as int);
        }
        let child = lval_replace(&mut list, i, LispValue::Number(0));
        let child = lval_eval(child);
        let _ = lval_replace(&mut list, i, child);
        proof {
            lemma_eval_cells_push(cell.take(i as int), cell[i as int]);
            assert(cell.take(i + 1) =~= cell.take(i as int).push(cell[i as int]));
        }
        i += 1;
    }
    let ghost done = list@.cells();
    proof {
        assert(cell.take(n as int) =~= cell);
        lemma_eval_sexpr_size(v@);
        lemma_eval_cells_size(cell);
    }
    let mut i: usize = 0;
    while i < n
        invariant
            done == list@.cells(),
            done == eval_cells(v@.cells()),
            eval_sexpr(v@) == reduce(done),
            n == done.len(),
            i <= n,
            list@ is Sexpr,
            forall|j: int| 0 <= j < i ==> !(done[j] is Error),
        decreases n - i,
    {
        match list.cell(i) {
            LispValue::Error(_) => {
                proof {
                    lemma_first_error(done, i as int);
                }
                return lval_take(list, i);
            },
            _ => {},
        }
        i += 1;
    }
    if n == 0 {
        return list;
    }
    if n == 1 {
        return lval_take(list, 0);
    }
    let f = lval_pop(&mut list, 0);
    proof {
        lemma_size_all_remove(done, 0);
        lemma_size(done[0]);
        lemma_size(list@);
    }
    match f {
        LispValue::Symbol(name) => builtin(list, name.as_str()),
        _ => lval_err("S-expression does not start with symbol."),
    }
}

/// `eval`: its one argument, a Q-expression, evaluated as an S-expression.
pub fn builtin_eval(a: LispValue) -> (r: LispValue)
    requires
        a@.is_list(),
    ensures
        r@ == builtin_eval_spec(a@),
    decreases size(a@), 1nat,
{
    if a.count() != 1 {
        return lval_err("Function 'eval' passed too many arguments!");
    }
    match a.cell(0) {
        LispValue::Qexpr(_) => {},
        _ => {
            return lval_err("Function 'eval' passed incorrect type!");
        },
    }
    proof {
        lemma_size(a@);
        lemma_size(a@.cells()[0]);
        lemma_size(Term::Sexpr(a@.cells()[0].cells()));
        lemma_size_all_index(a@.cells(), 0);
    }
    let x = lval_into_sexpr(lval_take(a, 0));
    lval_eval(x)
}

/// Applies the builtin that `func` names to the arguments `a`. A name that
/// is none of `list`, `head`, `tail`, `join`, `eval`, `+`, `-`, `*`, `/`
/// gives an error.
pub fn builtin(a: LispValue, func: &str) -> (r: LispValue)
    requires
        a@.is_list(),
        func@ == "join"@ || is_operator(func@) ==> a@.cells().len() > 0,
    ensures
        r@ == builtin_spec(a@, func@),
    decreases size(a@), 2nat,
{
    if str_eq(func, "list") {
        return builtin_list(a);
    }
    if str_eq(func, "head") {
        return builtin_head(a);
    }
    if str_eq(func, "tail") {
        return builtin_tail(a);
    }
    if str_eq(func, "join") {
        return builtin_join(a);
    }
    if str_eq(func, "eval") {
        return builtin_eval(a);
    }
    if str_eq(func, "+") || str_eq(func, "-") || str_eq(func, "*") || str_eq(func, "/") {
        return builtin_op(a, func);
    }
    lval_err("Unknown Function!")
}

} // verus!
