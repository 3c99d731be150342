//! Laws of the language, proved over the mathematical model.

use vstd::prelude::*;
use crate::builtins::{
    all_numbers, apply_op, builtin_head_spec, builtin_join_spec, builtin_op_spec,
    builtin_tail_spec, concat_cells, fold_op,
};
use crate::eval::{
    builtin_eval_spec, builtin_spec, eval, eval_cells, eval_sexpr, has_error, is_operator,
    lemma_eval_cells_size, lemma_eval_sexpr_size, lemma_first_error_is_error, reduce,
};
use crate::numeral::{decimal, is_literal, lemma_read_decimal, literal_value};
use crate::print::print;
use crate::reader::{read, Syntax};
use crate::value::{join, lemma_size, lemma_size_all_index, size, size_all, Term};

verus! {

/// A value that evaluation leaves as it is: anything but an S-expression
/// with children.
pub open spec fn is_reduced(t: Term) -> bool {
    t is Sexpr ==> t.cells().len() == 0
}

/// Every element is reduced.
pub open spec fn all_reduced(cell: Seq<Term>) -> bool {
    forall|i: int| 0 <= i < cell.len() ==> is_reduced(#[trigger] cell[i])
}

/// A fold ends in a number or in an error.
proof fn lemma_fold_op_reduced(op: Seq<char>, acc: i64, rest: Seq<Term>)
    ensures
        fold_op(op, acc, rest) is Number || fold_op(op, acc, rest) is Error,
    decreases rest.len(),
{
    if rest.len() > 0 {
        match apply_op(op, acc, rest[0]->Number_0) {
            Some(next) => lemma_fold_op_reduced(op, next, rest.drop_first()),
            None => {},
        }
    }
}

/// What a builtin returns is reduced.
proof fn lemma_builtin_reduced(a: Term, func: Seq<char>)
    ensures
        is_reduced(builtin_spec(a, func)),
    decreases size(a), 2nat,
{
    lemma_fold_op_reduced(func, a.cells()[0]->Number_0, a.cells().drop_first());
    if func == "eval"@ {
        lemma_builtin_eval_reduced(a);
    }
}

/// What `eval` returns is reduced.
proof fn lemma_builtin_eval_reduced(a: Term)
    ensures
        is_reduced(builtin_eval_spec(a)),
    decreases size(a), 1nat,
{
    let cell = a.cells();
    if cell.len() == 1 && cell[0] is Qexpr {
        let inner = Term::Sexpr(cell[0].cells());
        lemma_size(a);
        lemma_size(cell[0]);
        lemma_size(inner);
        lemma_size_all_index(cell, 0);
        lemma_eval_reduced(inner);
    }
}

/// What evaluation returns is reduced.
pub proof fn lemma_eval_reduced(v: Term)
    ensures
        is_reduced(eval(v)),
    decreases size(v), 1nat,
{
    if v is Sexpr {
        lemma_eval_sexpr_reduced(v);
    }
}

/// Evaluated elements are reduced.
proof fn lemma_eval_cells_reduced(cell: Seq<Term>)
    ensures
        all_reduced(eval_cells(cell)),
    decreases size_all(cell), 2nat,
{
    if cell.len() > 0 {
        lemma_size(cell[0]);
        lemma_eval_reduced(cell[0]);
        lemma_eval_cells_reduced(cell.drop_first());
    }
}

/// The reduction of a list is reduced.
proof fn lemma_eval_sexpr_reduced(v: Term)
    ensures
        is_reduced(eval_sexpr(v)),
    decreases size(v), 0nat,
{
    lemma_size(v);
    lemma_eval_sexpr_size(v);
    lemma_eval_cells_size(v.cells());
    lemma_eval_cells_reduced(v.cells());
    lemma_reduce_reduced(eval_cells(v.cells()));
}

/// Reducing reduced children gives a reduced value.
proof fn lemma_reduce_reduced(done: Seq<Term>)
    requires
        all_reduced(done),
    ensures
        is_reduced(reduce(done)),
    decreases size_all(done), 3nat,
{
    if has_error(done) {
        lemma_first_error_is_error(done);
    } else if done.len() >= 2 && done[0] is Symbol {
        let a = Term::Sexpr(done.drop_first());
        lemma_size(done[0]);
        lemma_size(a);
        lemma_builtin_reduced(a, done[0]->Symbol_0);
    }
}

/// A reduced value is its own value.
pub proof fn lemma_eval_of_reduced(v: Term)
    requires
        is_reduced(v),
    ensures
        eval(v) == v,
{
    if v is Sexpr {
        let done = eval_cells(v.cells());
        assert(done =~= Seq::<Term>::empty());
        assert(v.cells() =~= Seq::<Term>::empty());
        assert(!has_error(done));
    }
}

/// Evaluation is idempotent: evaluating a value a second time changes
/// nothing.
pub proof fn lemma_eval_idempotent(v: Term)
    ensures
        eval(eval(v)) == eval(v),
{
    lemma_eval_reduced(v);
    lemma_eval_of_reduced(eval(v));
}

/// The arguments of a builtin that is applied to `x` alone.
pub open spec fn args1(x: Term) -> Term {
    Term::Sexpr(seq![x])
}

/// The arguments of a builtin that is applied to `x` and `y`.
pub open spec fn args2(x: Term, y: Term) -> Term {
    Term::Sexpr(seq![x, y])
}

/// The builtin `join` applied to two Q-expressions is `join` of the two.
pub proof fn lemma_builtin_join_pair(x: Term, y: Term)
    requires
        x is Qexpr,
        y is Qexpr,
    ensures
        builtin_join_spec(args2(x, y)) == join(x, y),
{
    let cell = seq![x, y];
    assert(cell.drop_first() =~= seq![y]);
    assert(seq![y].drop_first() =~= Seq::<Term>::empty());
    assert(concat_cells(Seq::<Term>::empty()) =~= Seq::<Term>::empty());
    assert(concat_cells(seq![y]) =~= y.cells());
    assert(concat_cells(cell) =~= x.cells() + y.cells());
}

/// `join` is associative on Q-expressions, as a function of two lists and
/// as the builtin applied to two arguments.
pub proof fn lemma_join_associative(x: Term, y: Term, z: Term)
    requires
        x is Qexpr,
        y is Qexpr,
        z is Qexpr,
    ensures
        join(join(x, y), z) == join(x, join(y, z)),
        builtin_join_spec(args2(builtin_join_spec(args2(x, y)), z)) == builtin_join_spec(
            args2(x, builtin_join_spec(args2(y, z))),
        ),
{
    assert((x.cells() + y.cells()) + z.cells() =~= x.cells() + (y.cells() + z.cells()));
    lemma_builtin_join_pair(x, y);
    lemma_builtin_join_pair(y, z);
    lemma_builtin_join_pair(join(x, y), z);
    lemma_builtin_join_pair(x, join(y, z));
}

/// The empty Q-expression is the identity of `join`, on either side.
pub proof fn lemma_join_identity(q: Term)
    requires
        q is Qexpr,
    ensures
        join(Term::Qexpr(Seq::empty()), q) == q,
        join(q, Term::Qexpr(Seq::empty())) == q,
        builtin_join_spec(args2(Term::Qexpr(Seq::empty()), q)) == q,
        builtin_join_spec(args2(q, Term::Qexpr(Seq::empty()))) == q,
{
    let empty = Term::Qexpr(Seq::empty());
    assert(empty.cells() + q.cells() =~= q.cells());
    assert(q.cells() + empty.cells() =~= q.cells());
    lemma_builtin_join_pair(empty, q);
    lemma_builtin_join_pair(q, empty);
}

/// The Q-expression `q` after `tail` has been applied `k` times.
pub open spec fn tails(q: Term, k: nat) -> Term
    decreases k,
{
    if k == 0 {
        q
    } else {
        builtin_tail_spec(args1(tails(q, (k - 1) as nat)))
    }
}

/// `tail` applied `k` times drops the first `k` elements.
pub proof fn lemma_tails(q: Term, k: nat)
    requires
        q is Qexpr,
        k <= q.cells().len(),
    ensures
        tails(q, k) == Term::Qexpr(q.cells().skip(k as int)),
    decreases k,
{
    if k == 0 {
        assert(q.cells().skip(0) =~= q.cells());
    } else {
        lemma_tails(q, (k - 1) as nat);
        assert(q.cells().skip(k - 1).drop_first() =~= q.cells().skip(k as int));
    }
}

/// `head` after `tail`, again and again, walks a Q-expression from left to
/// right: after `k` tails `head` gives the element at `k`, each element
/// once and in order, and after as many tails as there are elements the
/// empty Q-expression is left.
pub proof fn lemma_head_tail_walk(q: Term)
    requires
        q is Qexpr,
    ensures
        forall|k: nat|
            k < q.cells().len() ==> builtin_head_spec(args1(#[trigger] tails(q, k)))
                == Term::Qexpr(seq![q.cells()[k as int]]),
        tails(q, q.cells().len()) == Term::Qexpr(Seq::empty()),
{
    assert forall|k: nat| k < q.cells().len() implies builtin_head_spec(
        args1(#[trigger] tails(q, k)),
    ) == Term::Qexpr(seq![q.cells()[k as int]]) by {
        lemma_tails(q, k);
    }
    lemma_tails(q, q.cells().len());
    assert(q.cells().skip(q.cells().len() as int) =~= Seq::<Term>::empty());
}

/// A fold of `/` over numbers of which one is zero ends in the error.
proof fn lemma_fold_division_by_zero(acc: i64, rest: Seq<Term>, i: int)
    requires
        all_numbers(rest),
        0 <= i < rest.len(),
        rest[i] == Term::Number(0),
    ensures
        fold_op("/"@, acc, rest) == Term::Error("Division by zero."@),
    decreases rest.len(),
{
    reveal_strlit("/");
    reveal_strlit("+");
    reveal_strlit("-");
    reveal_strlit("*");
    assert("/"@ != "+"@ && "/"@ != "-"@ && "/"@ != "*"@) by {
        assert("/"@[0] != "+"@[0]);
        assert("/"@[0] != "-"@[0]);
        assert("/"@[0] != "*"@[0]);
    }
    match apply_op("/"@, acc, rest[0]->Number_0) {
        Some(next) => {
            assert(i > 0);
            lemma_fold_division_by_zero(next, rest.drop_first(), i - 1);
        },
        None => {},
    }
}

/// Division by zero always gives the error `Division by zero.`, never a
/// number: where every argument of `/` is a number and one behind the
/// first is zero, that error is the result.
pub proof fn lemma_division_by_zero(a: Term, i: int)
    requires
        all_numbers(a.cells()),
        1 <= i < a.cells().len(),
        a.cells()[i] == Term::Number(0),
    ensures
        builtin_op_spec(a, "/"@) == Term::Error("Division by zero."@),
        builtin_spec(a, "/"@) == Term::Error("Division by zero."@),
{
    let cell = a.cells();
    reveal_strlit("/");
    reveal_strlit("-");
    reveal_strlit("list");
    reveal_strlit("head");
    reveal_strlit("tail");
    reveal_strlit("join");
    reveal_strlit("eval");
    assert("/"@ != "-"@) by {
        assert("/"@[0] != "-"@[0]);
    }
    assert("/"@.len() == 1);
    assert("list"@.len() == 4 && "head"@.len() == 4 && "tail"@.len() == 4);
    assert("join"@.len() == 4 && "eval"@.len() == 4);
    assert(is_operator("/"@));
    lemma_fold_division_by_zero(cell[0]->Number_0, cell.drop_first(), i - 1);
}

/// A number node whose text is a literal that fits in 64 bits reads and
/// evaluates as the number that the literal denotes.
pub proof fn lemma_literal_round_trip(t: Syntax)
    requires
        t.is_number(),
        is_literal(t.contents),
        i64::MIN <= literal_value(t.contents) <= i64::MAX,
    ensures
        eval(read(t)) == Term::Number(literal_value(t.contents) as i64),
{
}

/// A number node that holds the text of the number `num` reads and
/// evaluates as `num`, and is printed as that text again.
pub proof fn lemma_number_round_trip(t: Syntax, num: i64)
    requires
        t.is_number(),
        t.contents == decimal(num as int),
    ensures
        eval(read(t)) == Term::Number(num),
        print(eval(read(t))) == t.contents,
{
    lemma_read_decimal(num);
}

} // verus!
