//! The value model: the executable tree, the mathematical tree it stands
//! for, and the primitive operations on lists.

use vstd::prelude::*;

verus! {

/// The kind of a value.
#[derive(Clone, Copy, Debug, PartialEq, Eq, Structural)]
pub enum Tag {
    Number,
    Error,
    Symbol,
    Sexpr,
    Qexpr,
}

/// A value of the language. A list owns its children; nothing is shared.
#[derive(Debug, PartialEq, Eq)]
pub enum LispValue {
    /// A signed 64-bit integer.
    Number(i64),
    /// A failure, carried as data.
    Error(String),
    /// A name.
    Symbol(String),
    /// A list that evaluation reduces.
    Sexpr(Vec<LispValue>),
    /// A list that evaluation leaves alone.
    Qexpr(Vec<LispValue>),
}

/// The mathematical tree that a `LispValue` stands for.
pub enum Term {
    Number(i64),
    Error(Seq<char>),
    Symbol(Seq<char>),
    Sexpr(Seq<Term>),
    Qexpr(Seq<Term>),
}

impl Term {
    /// S-expression or Q-expression.
    pub open spec fn is_list(self) -> bool {
        self is Sexpr || self is Qexpr
    }

    /// The kind of the tree.
    pub open spec fn tag(self) -> Tag {
        match self {
            Term::Number(_) => Tag::Number,
            Term::Error(_) => Tag::Error,
            Term::Symbol(_) => Tag::Symbol,
            Term::Sexpr(_) => Tag::Sexpr,
            Term::Qexpr(_) => Tag::Qexpr,
        }
    }

    /// The children of a list; an atom has none.
    pub open spec fn cells(self) -> Seq<Term> {
        match self {
            Term::Sexpr(cell) => cell,
            Term::Qexpr(cell) => cell,
            _ => Seq::empty(),
        }
    }

    /// The list of the same kind with other children; an atom stays as it is.
    pub open spec fn with_cells(self, cell: Seq<Term>) -> Term {
        match self {
            Term::Sexpr(_) => Term::Sexpr(cell),
            Term::Qexpr(_) => Term::Qexpr(cell),
            _ => self,
        }
    }
}

/// The list `x` with the children of the list `y` behind its own.
pub open spec fn join(x: Term, y: Term) -> Term {
    x.with_cells(x.cells() + y.cells())
}

/// The trees that a sequence of values stands for, in order.
pub open spec fn views(cell: Seq<LispValue>) -> Seq<Term>
    decreases cell,
{
    Seq::new(
        cell.len(),
        |i: int|
            if 0 <= i < cell.len() {
                cell[i].view()
            } else {
                Term::Sexpr(Seq::empty())
            },
    )
}

impl View for LispValue {
    type V = Term;

    open spec fn view(&self) -> Term
        decreases self,
    {
        match self {
            LispValue::Number(num) => Term::Number(*num),
            LispValue::Error(err) => Term::Error(err@),
            LispValue::Symbol(sym) => Term::Symbol(sym@),
            LispValue::Sexpr(cell) => Term::Sexpr(views(cell@)),
            LispValue::Qexpr(cell) => Term::Qexpr(views(cell@)),
        }
    }
}

/// What `views` holds, element by element.
pub proof fn lemma_views(cell: Seq<LispValue>)
    ensures
        views(cell).len() == cell.len(),
        forall|i: int| 0 <= i < cell.len() ==> #[trigger] views(cell)[i] == cell[i]@,
{
}

/// The number of nodes of a tree.
pub open spec fn size(t: Term) -> nat
    decreases t,
{
    match t {
        Term::Sexpr(cell) => 1 + size_all(cell),
        Term::Qexpr(cell) => 1 + size_all(cell),
        _ => 1,
    }
}

/// The number of nodes of a sequence of trees.
pub open spec fn size_all(cell: Seq<Term>) -> nat
    decreases cell,
{
    if cell.len() == 0 {
        0
    } else {
        size(cell[0]) + size_all(cell.drop_first())
    }
}

/// A tree has one node more than its children together.
pub proof fn lemma_size(t: Term)
    ensures
        size(t) == 1 + size_all(t.cells()),
{
}

/// Two sequences one behind the other hold the nodes of both.
pub proof fn lemma_size_all_add(a: Seq<Term>, b: Seq<Term>)
    ensures
        size_all(a + b) == size_all(a) + size_all(b),
    decreases a.len(),
{
    if a.len() > 0 {
        lemma_size_all_add(a.drop_first(), b);
        assert((a + b).drop_first() =~= a.drop_first() + b);
    }
}

/// One tree more adds its nodes.
pub proof fn lemma_size_all_push(cell: Seq<Term>, x: Term)
    ensures
        size_all(cell.push(x)) == size_all(cell) + size(x),
{
    let one = seq![x];
    assert(size_all(one) == size(one[0]) + size_all(one.drop_first()));
    lemma_size_all_add(cell, one);
    assert(cell.push(x) =~= cell + one);
}

/// One tree less takes its nodes away.
pub proof fn lemma_size_all_remove(cell: Seq<Term>, i: int)
    requires
        0 <= i < cell.len(),
    ensures
        size_all(cell) == size_all(cell.remove(i)) + size(cell[i]),
    decreases cell.len(),
{
    if i > 0 {
        lemma_size_all_remove(cell.drop_first(), i - 1);
        assert(cell.remove(i).drop_first() =~= cell.drop_first().remove(i - 1));
    }
}

/// No tree of a sequence holds more nodes than the sequence.
pub proof fn lemma_size_all_index(cell: Seq<Term>, i: int)
    requires
        0 <= i < cell.len(),
    ensures
        size(cell[i]) <= size_all(cell),
{
    lemma_size_all_remove(cell, i);
}

/// Constructs a number.
pub fn lval_num(num: i64) -> (v: LispValue)
    ensures
        v@ == Term::Number(num),
{
    LispValue::Number(num)
}

/// Constructs an error with a copy of the message.
pub fn lval_err(err: &str) -> (v: LispValue)
    ensures
        v@ == Term::Error(err@),
{
    LispValue::Error(err.to_owned())
}

/// Constructs a symbol with a copy of the name.
pub fn lval_sym(sym: &str) -> (v: LispValue)
    ensures
        v@ == Term::Symbol(sym@),
{
    LispValue::Symbol(sym.to_owned())
}

/// Constructs the empty S-expression.
pub fn lval_sexpr() -> (v: LispValue)
    ensures
        v@ == Term::Sexpr(Seq::empty()),
{
    let v = LispValue::Sexpr(Vec::new());
    assert(views(Seq::<LispValue>::empty()) =~= Seq::<Term>::empty());
    v
}

/// Constructs the empty Q-expression.
pub fn lval_qexpr() -> (v: LispValue)
    ensures
        v@ == Term::Qexpr(Seq::empty()),
{
    let v = LispValue::Qexpr(Vec::new());
    assert(views(Seq::<LispValue>::empty()) =~= Seq::<Term>::empty());
    v
}

impl LispValue {
    /// The kind of this value.
    pub fn ty(&self) -> (tag: Tag)
        ensures
            tag == self@.tag(),
    {
        match self {
            LispValue::Number(_) => Tag::Number,
            LispValue::Error(_) => Tag::Error,
            LispValue::Symbol(_) => Tag::Symbol,
            LispValue::Sexpr(_) => Tag::Sexpr,
            LispValue::Qexpr(_) => Tag::Qexpr,
        }
    }

    /// The number of children; an atom has none.
    pub fn count(&self) -> (n: usize)
        ensures
            n == self@.cells().len(),
    {
        match self {
            LispValue::Sexpr(cell) => {
                proof {
                    lemma_views(cell@);
                }
                cell.len()
            },
            LispValue::Qexpr(cell) => {
                proof {
                    lemma_views(cell@);
                }
                cell.len()
            },
            _ => 0,
        }
    }

    /// The integer that a number holds.
    pub fn num(&self) -> (num: i64)
        requires
            self@ is Number,
        ensures
            self@ == Term::Number(num),
    {
        match self {
            LispValue::Number(num) => *num,
            _ => vstd::pervasive::unreached(),
        }
    }

    /// The child at `i`.
    pub fn cell(&self, i: usize) -> (x: &LispValue)
        requires
            i < self@.cells().len(),
        ensures
            x@ == self@.cells()[i as int],
    {
        match self {
            LispValue::Sexpr(cell) => {
                proof {
                    lemma_views(cell@);
                }
                &cell[i]
            },
            LispValue::Qexpr(cell) => {
                proof {
                    lemma_views(cell@);
                }
                &cell[i]
            },
            _ => vstd::pervasive::unreached(),
        }
    }
}

/// A copy of each value of `cell`, in order.
fn clone_cells(cell: &Vec<LispValue>) -> (r: Vec<LispValue>)
    ensures
        views(r@) == views(cell@),
    decreases cell,
{
    let mut r: Vec<LispValue> = Vec::new();
    let mut i: usize = 0;
    while i < cell.len()
        invariant
            i <= cell.len(),
            r.len() == i,
            forall|k: int| 0 <= k < i ==> r@[k]@ == cell@[k]@,
        decreases cell.len() - i,
    {
        r.push(cell[i].clone());
        i += 1;
    }
    proof {
        lemma_views(r@);
        lemma_views(cell@);
    }
    r
}

impl Clone for LispValue {
    /// A copy that shares nothing with `self`.
    fn clone(&self) -> (r: Self)
        ensures
            r@ == self@,
        decreases self,
    {
        match self {
            LispValue::Number(num) => LispValue::Number(*num),
            LispValue::Error(err) => LispValue::Error(err.clone()),
            LispValue::Symbol(sym) => LispValue::Symbol(sym.clone()),
            LispValue::Sexpr(cell) => LispValue::Sexpr(clone_cells(cell)),
            LispValue::Qexpr(cell) => LispValue::Qexpr(clone_cells(cell)),
        }
    }
}

/// Appends `x` to the list `val` and hands the list back.
pub fn lval_add(val: LispValue, x: LispValue) -> (r: LispValue)
    requires
        val@.is_list(),
    ensures
        r@ == val@.with_cells(val@.cells().push(x@)),
{
    match val {
        LispValue::Sexpr(mut cell) => {
            let ghost before = cell@;
            cell.push(x);
            proof {
                lemma_views(before);
                lemma_views(cell@);
            }
            assert(views(cell@) =~= val@.cells().push(x@));
            LispValue::Sexpr(cell)
        },
        LispValue::Qexpr(mut cell) => {
            let ghost before = cell@;
            cell.push(x);
            proof {
                lemma_views(before);
                lemma_views(cell@);
            }
            assert(views(cell@) =~= val@.cells().push(x@));
            LispValue::Qexpr(cell)
        },
        _ => vstd::pervasive::unreached(),
    }
}

/// The S-expression with the children of the list `v`.
pub fn lval_into_sexpr(v: LispValue) -> (r: LispValue)
    requires
        v@.is_list(),
    ensures
        r@ == Term::Sexpr(v@.cells()),
{
    match v {
        LispValue::Qexpr(cell) => LispValue::Sexpr(cell),
        other => other,
    }
}

/// The Q-expression with the children of the list `v`.
pub fn lval_into_qexpr(v: LispValue) -> (r: LispValue)
    requires
        v@.is_list(),
    ensures
        r@ == Term::Qexpr(v@.cells()),
{
    match v {
        LispValue::Sexpr(cell) => LispValue::Qexpr(cell),
        other => other,
    }
}

/// Puts `x` in the place of the child at `i` of the list `v` and hands that
/// child out.
pub fn lval_replace(v: &mut LispValue, i: usize, x: LispValue) -> (child: LispValue)
    requires
        old(v)@.is_list(),
        i < old(v)@.cells().len(),
    ensures
        child@ == old(v)@.cells()[i as int],
        final(v)@ == old(v)@.with_cells(old(v)@.cells().update(i as int, x@)),
{
    let mut held = x;
    match v {
        LispValue::Sexpr(cell) => {
            proof {
                lemma_views(cell@);
            }
            core::mem::swap(&mut cell[i], &mut held);
            proof {
                lemma_views(cell@);
            }
            assert(views(cell@) =~= old(v)@.cells().update(i as int, x@));
        },
        LispValue::Qexpr(cell) => {
            proof {
                lemma_views(cell@);
            }
            core::mem::swap(&mut cell[i], &mut held);
            proof {
                lemma_views(cell@);
            }
            assert(views(cell@) =~= old(v)@.cells().update(i as int, x@));
        },
        _ => {},
    }
    held
}

/// Takes the child at `i` out of the list `v`; the children behind it move
/// up by one.
pub fn lval_pop(v: &mut LispValue, i: usize) -> (x: LispValue)
    requires
        old(v)@.is_list(),
        i < old(v)@.cells().len(),
    ensures
        x@ == old(v)@.cells()[i as int],
        final(v)@ == old(v)@.with_cells(old(v)@.cells().remove(i as int)),
{
    match v {
        LispValue::Sexpr(cell) => {
            let ghost before = cell@;
            proof {
                lemma_views(before);
            }
            let x = cell.remove(i);
            proof {
                lemma_views(cell@);
            }
            assert(views(cell@) =~= old(v)@.cells().remove(i as int));
            x
        },
        LispValue::Qexpr(cell) => {
            let ghost before = cell@;
            proof {
                lemma_views(before);
            }
            let x = cell.remove(i);
            proof {
                lemma_views(cell@);
            }
            assert(views(cell@) =~= old(v)@.cells().remove(i as int));
            x
        },
        _ => vstd::pervasive::unreached(),
    }
}

/// Takes the child at `i` out of the list `v` and drops the rest of `v`.
pub fn lval_take(v: LispValue, i: usize) -> (x: LispValue)
    requires
        v@.is_list(),
        i < v@.cells().len(),
    ensures
        x@ == v@.cells()[i as int],
{
    let mut v = v;
    lval_pop(&mut v, i)
}

/// Moves the children of the list `y` behind those of the list `x`.
pub fn lval_join(x: LispValue, y: LispValue) -> (r: LispValue)
    requires
        x@.is_list(),
        y@.is_list(),
    ensures
        r@ == join(x@, y@),
{
    let mut x = x;
    let mut y = y;
    let ghost x0 = x@;
    let ghost y0 = y@;
    while y.count() != 0
        invariant
            x@.is_list(),
            y@.is_list(),
            x@.tag() == x0.tag(),
            x@.cells() + y@.cells() == x0.cells() + y0.cells(),
        decreases y@.cells().len(),
    {
        let first = lval_pop(&mut y, 0);
        x = lval_add(x, first);
    }
    x
}

} // verus!
