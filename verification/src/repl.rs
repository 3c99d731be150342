//! One turn of the prompt: from a line of input to its value.

use vstd::prelude::*;
use crate::eval::{eval, lval_eval};
use crate::parser::{
    bracketed, expr_at, exprs_at, is_operator_char, leaf, lemma_expr_at, lemma_parse_readable,
    lemma_skip_spaces, mark, number_end, parse, parse_spec, skip_spaces, word_end, ParseError,
};
use crate::reader::{lemma_read_children_add, lval_read, read, read_children, read_num, Syntax};
use crate::text::{contains, occurs_at, str_eq};
use crate::value::{LispValue, Term};

verus! {

/// The value of a line of input: its syntax tree, read and evaluated.
/// `None` where the line has no syntax tree.
pub open spec fn interpret_spec(line: Seq<char>) -> Option<Term> {
    match parse_spec(line) {
        Some(tree) => Some(eval(read(tree))),
        None => None,
    }
}

/// The line asks to leave the prompt.
pub open spec fn is_quit_spec(line: Seq<char>) -> bool {
    line == "exit"@ || line == "quit"@
}

/// Whether the line asks to leave the prompt.
pub fn is_quit(line: &str) -> (r: bool)
    ensures
        r == is_quit_spec(line@),
{
    str_eq(line, "exit") || str_eq(line, "quit")
}

/// Parses, reads and evaluates a line of input.
pub fn interpret(line: &str) -> (r: Result<LispValue, ParseError>)
    ensures
        match r {
            Ok(v) => interpret_spec(line@) == Some(v@),
            Err(e) => interpret_spec(line@) is None && e.position == exprs_at(
                line@,
                skip_spaces(line@, 0),
            ).1,
        },
{
    match parse(line) {
        Ok(tree) => {
            proof {
                lemma_parse_readable(line@);
            }
            Ok(lval_eval(lval_read(&tree)))
        },
        Err(e) => Err(e),
    }
}

/// The value of the expression that starts at `at`, told from the text: a
/// number, a symbol, or a list of the values of the expressions between its
/// brackets.
pub open spec fn value_at(s: Seq<char>, at: int) -> Term {
    if let Some(end) = number_end(s, at) {
        read_num(s.subrange(at, end))
    } else if let Some(end) = word_end(s, at) {
        Term::Symbol(s.subrange(at, end))
    } else if is_operator_char(s[at]) {
        Term::Symbol(s.subrange(at, at + 1))
    } else if s[at] == '(' {
        Term::Sexpr(read_children(exprs_at(s, skip_spaces(s, at + 1)).0))
    } else {
        Term::Qexpr(read_children(exprs_at(s, skip_spaces(s, at + 1)).0))
    }
}

/// The reader passes over none of the nodes.
pub open spec fn none_skipped(nodes: Seq<Syntax>) -> bool {
    forall|i: int| 0 <= i < nodes.len() ==> !(#[trigger] nodes[i]).is_skipped()
}

/// A text does not hold a word whose first character stands nowhere in it
/// where the word would fit.
proof fn lemma_no_occurrence(hay: Seq<char>, needle: Seq<char>)
    requires
        needle.len() > 0,
        forall|i: int| 0 <= i && i + needle.len() <= hay.len() ==> hay[i] != needle[0],
    ensures
        !contains(hay, needle),
{
    assert forall|at: int| !occurs_at(hay, needle, at) by {
        if 0 <= at && at + needle.len() <= hay.len() {
            assert(hay.subrange(at, at + needle.len())[0] == hay[at]);
        }
    }
}

/// The tags that the parser gives name the rule of their node and no other
/// rule that the reader asks for.
proof fn lemma_tags()
    ensures
        !contains("expr|symbol|string"@, "number"@),
        !contains("expr|symbol|char"@, "number"@),
        !contains("expr|sexpr|>"@, "number"@),
        !contains("expr|sexpr|>"@, "symbol"@),
        !contains("expr|sexpr|>"@, "qexpr"@),
        !contains("expr|qexpr|>"@, "number"@),
        !contains("expr|qexpr|>"@, "symbol"@),
        !contains(">"@, "number"@),
        !contains(">"@, "symbol"@),
        !contains(">"@, "qexpr"@),
        contains("expr|number|regex"@, "number"@),
        contains("expr|symbol|string"@, "symbol"@),
        contains("expr|symbol|char"@, "symbol"@),
        contains("expr|qexpr|>"@, "qexpr"@),
        "expr|number|regex"@ != "regex"@,
        "expr|symbol|string"@ != "regex"@,
        "expr|symbol|char"@ != "regex"@,
        "expr|sexpr|>"@ != "regex"@,
        "expr|qexpr|>"@ != "regex"@,
{
    reveal_strlit("expr|number|regex");
    reveal_strlit("expr|symbol|string");
    reveal_strlit("expr|symbol|char");
    reveal_strlit("expr|sexpr|>");
    reveal_strlit("expr|qexpr|>");
    reveal_strlit(">");
    reveal_strlit("regex");
    reveal_strlit("number");
    reveal_strlit("symbol");
    reveal_strlit("qexpr");
    lemma_no_occurrence("expr|symbol|string"@, "number"@);
    lemma_no_occurrence("expr|symbol|char"@, "number"@);
    lemma_no_occurrence("expr|sexpr|>"@, "number"@);
    lemma_no_occurrence("expr|sexpr|>"@, "qexpr"@);
    lemma_no_occurrence("expr|qexpr|>"@, "number"@);
    lemma_no_occurrence("expr|qexpr|>"@, "symbol"@);
    lemma_no_occurrence(">"@, "number"@);
    lemma_no_occurrence(">"@, "symbol"@);
    lemma_no_occurrence(">"@, "qexpr"@);
    assert forall|at: int| !occurs_at("expr|sexpr|>"@, "symbol"@, at) by {
        if 0 <= at && at + 6 <= 12 {
            let part = "expr|sexpr|>"@.subrange(at, at + 6);
            assert(part[0] == "expr|sexpr|>"@[at]);
            assert(part[1] == "expr|sexpr|>"@[at + 1]);
        }
    }
    assert("regex"@.len() == 5);
    assert("expr|number|regex"@.len() == 17);
    assert("expr|symbol|string"@.len() == 18);
    assert("expr|symbol|char"@.len() == 16);
    assert("expr|sexpr|>"@.len() == 12);
    assert("expr|qexpr|>"@.len() == 12);
    assert("expr|number|regex"@.subrange(5, 11) =~= "number"@);
    assert(occurs_at("expr|number|regex"@, "number"@, 5));
    assert("expr|symbol|string"@.subrange(5, 11) =~= "symbol"@);
    assert(occurs_at("expr|symbol|string"@, "symbol"@, 5));
    assert("expr|symbol|char"@.subrange(5, 11) =~= "symbol"@);
    assert(occurs_at("expr|symbol|char"@, "symbol"@, 5));
    assert("expr|qexpr|>"@.subrange(5, 10) =~= "qexpr"@);
    assert(occurs_at("expr|qexpr|>"@, "qexpr"@, 5));
}

/// Where the reader passes over none of the nodes, it reads each.
pub proof fn lemma_read_children_all(nodes: Seq<Syntax>)
    requires
        none_skipped(nodes),
    ensures
        read_children(nodes) == nodes.map_values(|t: Syntax| read(t)),
    decreases nodes.len(),
{
    if nodes.len() > 0 {
        assert(!nodes[0].is_skipped());
        assert forall|i: int| 0 <= i < nodes.drop_first().len() implies !(
        #[trigger] nodes.drop_first()[i]).is_skipped() by {
            assert(!nodes[i + 1].is_skipped());
        }
        lemma_read_children_all(nodes.drop_first());
    }
    assert(read_children(nodes) =~= nodes.map_values(|t: Syntax| read(t)));
}

/// Between brackets the reader reads the expressions and nothing else.
proof fn lemma_read_bracketed(open: Seq<char>, inner: Seq<Syntax>, close: Seq<char>)
    requires
        open == "("@ || open == "{"@,
        close == ")"@ || close == "}"@,
    ensures
        read_children(bracketed(open, inner, close)) == read_children(inner),
{
    let first = seq![leaf("char"@, open)];
    let last = seq![leaf("char"@, close)];
    lemma_read_children_add(first + inner, last);
    lemma_read_children_add(first, inner);
    assert(first.drop_first() =~= Seq::<Syntax>::empty());
    assert(last.drop_first() =~= Seq::<Syntax>::empty());
    assert(read_children(Seq::<Syntax>::empty()) =~= Seq::<Term>::empty());
    assert(read_children(first) =~= Seq::<Term>::empty());
    assert(read_children(last) =~= Seq::<Term>::empty());
    assert(Seq::<Term>::empty() + read_children(inner) + Seq::<Term>::empty() =~= read_children(
        inner,
    ));
}

/// What the reader makes of the parser's trees. It passes over none of the
/// expressions, and reads each by the kind that the text shows: the value of
/// the tree of an expression is the value of the expression.
pub proof fn lemma_read_parsed(s: Seq<char>, at: int)
    requires
        0 <= at <= s.len(),
    ensures
        expr_at(s, at) matches Some(next) ==> !next.0.is_skipped() && read(next.0) == value_at(
            s,
            at,
        ),
        none_skipped(exprs_at(s, at).0),
    decreases s.len() - at,
{
    lemma_tags();
    lemma_expr_at(s, at);
    reveal_strlit("(");
    reveal_strlit(")");
    reveal_strlit("{");
    reveal_strlit("}");
    reveal_strlit("list");
    reveal_strlit("head");
    reveal_strlit("tail");
    reveal_strlit("join");
    reveal_strlit("eval");
    if let Some(next) = expr_at(s, at) {
        if let Some(end) = number_end(s, at) {
            let token = s.subrange(at, end);
            assert(token.len() == 1 ==> token[0] == s[at]);
        } else if let Some(end) = word_end(s, at) {
        } else if is_operator_char(s[at]) {
            let token = s.subrange(at, at + 1);
            assert(token[0] == s[at]);
        } else {
            lemma_skip_spaces(s, at + 1);
            let inner = exprs_at(s, skip_spaces(s, at + 1));
            if s[at] == '(' {
                lemma_read_bracketed("("@, inner.0, ")"@);
            } else {
                lemma_read_bracketed("{"@, inner.0, "}"@);
            }
        }
        lemma_read_parsed(s, next.1);
        let rest = exprs_at(s, next.1);
        assert forall|i: int| 0 <= i < exprs_at(s, at).0.len() implies !(
        #[trigger] exprs_at(s, at).0[i]).is_skipped() by {
            if i > 0 {
                assert(exprs_at(s, at).0[i] == rest.0[i - 1]);
            }
        }
    }
}

/// The value of a line is the value of the S-expression of the values of
/// its expressions.
pub proof fn lemma_interpret(s: Seq<char>)
    ensures
        interpret_spec(s) matches Some(v) ==> v == eval(
            Term::Sexpr(
                exprs_at(s, skip_spaces(s, 0)).0.map_values(|t: Syntax| read(t)),
            ),
        ),
{
    lemma_tags();
    lemma_skip_spaces(s, 0);
    let body = exprs_at(s, skip_spaces(s, 0));
    lemma_read_parsed(s, skip_spaces(s, 0));
    lemma_read_children_all(body.0);
    if parse_spec(s) is Some {
        let first = seq![mark()];
        lemma_read_children_add(first + body.0, first);
        lemma_read_children_add(first, body.0);
        assert(first.drop_first() =~= Seq::<Syntax>::empty());
        assert(read_children(Seq::<Syntax>::empty()) =~= Seq::<Term>::empty());
        assert(read_children(first) =~= Seq::<Term>::empty());
        assert(Seq::<Term>::empty() + read_children(body.0) + Seq::<Term>::empty()
            =~= read_children(body.0));
    }
}

} // verus!
