//! The printer: the text of a value.

use vstd::prelude::*;
use crate::numeral::{decimal, write_number};
use crate::value::{lemma_size, lemma_size_all_index, size, size_all, LispValue, Term};

verus! {

/// The text of a value: a number in decimal; an error as `Error: ` and its
/// message; a symbol as its name; a list as its elements between brackets,
/// round for an S-expression and curly for a Q-expression.
pub open spec fn print(t: Term) -> Seq<char>
    decreases t,
{
    match t {
        Term::Number(num) => decimal(num as int),
        Term::Error(err) => "Error: "@ + err,
        Term::Symbol(sym) => sym,
        Term::Sexpr(cell) => "("@ + print_cells(cell) + ")"@,
        Term::Qexpr(cell) => "{"@ + print_cells(cell) + "}"@,
    }
}

/// The texts of the elements with one space between neighbours.
pub open spec fn print_cells(cell: Seq<Term>) -> Seq<char>
    decreases cell,
{
    if cell.len() == 0 {
        Seq::empty()
    } else if cell.len() == 1 {
        print(cell[0])
    } else {
        print(cell[0]) + " "@ + print_cells(cell.drop_first())
    }
}

/// Appends to `out` the elements of the list `v` between `open` and `close`.
pub fn lval_expr_print(out: &mut String, v: &LispValue, open: &str, close: &str)
    ensures
        final(out)@ == old(out)@ + (open@ + print_cells(v@.cells()) + close@),
    decreases size(v@), 0nat,
{
    let ghost cell = v@.cells();
    out.append(open);
    let ghost start = out@;
    let n = v.count();
    let mut i: usize = 0;
    proof {
        lemma_size(v@);
        assert(cell.skip(0) =~= cell);
    }
    while i < n
        invariant
            cell == v@.cells(),
            size(v@) == 1 + size_all(cell),
            n == cell.len(),
            i <= n,
            out@ + print_cells(cell.skip(i as int)) == start + print_cells(cell),
        decreases n - i,
    {
        proof {
            lemma_size_all_index(cell, i as int);
            assert(cell.skip(i as int).drop_first() =~= cell.skip(i + 1));
        }
        lval_print(out, v.cell(i));
        if i != n - 1 {
            out.append(" ");
        }
        i += 1;
    }
    out.append(close);
}

/// Appends the text of `v` to `out`.
pub fn lval_print(out: &mut String, v: &LispValue)
    ensures
        final(out)@ == old(out)@ + print(v@),
    decreases size(v@), 1nat,
{
    match v {
        LispValue::Number(num) => {
            write_number(out, *num);
        },
        LispValue::Error(err) => {
            out.append("Error: ");
            out.append(err.as_str());
        },
        LispValue::Symbol(sym) => {
            out.append(sym.as_str());
        },
        LispValue::Sexpr(_) => {
            lval_expr_print(out, v, "(", ")");
        },
        LispValue::Qexpr(_) => {
            lval_expr_print(out, v, "{", "}");
        },
    }
}

/// Appends the text of `v` and a line feed to `out`.
pub fn lval_println(out: &mut String, v: &LispValue)
    ensures
        final(out)@ == old(out)@ + print(v@) + "\n"@,
{
    lval_print(out, v);
    out.append("\n");
}

/// The text of `v`.
pub fn lval_to_string(v: &LispValue) -> (s: String)
    ensures
        s@ == print(v@),
{
    let mut out = String::new();
    lval_print(&mut out, v);
    out
}

} // verus!
