//! The reader: from a syntax tree to a value.

use vstd::prelude::*;
use crate::numeral::{parse_number, parse_number_spec};
use crate::text::{contains, str_contains, str_eq};
use crate::value::{lval_add, lval_err, lval_num, lval_qexpr, lval_sexpr, lval_sym, LispValue, Term};

verus! {

/// A node of the syntax tree that a parser hands over: a tag that names
/// the rules that matched, the text that a leaf matched, and the children in
/// the order of the input.
#[derive(Debug, PartialEq, Eq)]
pub struct SyntaxNode {
    pub tag: String,
    pub contents: String,
    pub children: Vec<SyntaxNode>,
}

/// The mathematical tree that a `SyntaxNode` stands for.
pub struct Syntax {
    pub tag: Seq<char>,
    pub contents: Seq<char>,
    pub children: Seq<Syntax>,
}

/// The trees that a sequence of nodes stands for, in order.
pub open spec fn syntax_views(nodes: Seq<SyntaxNode>) -> Seq<Syntax>
    decreases nodes,
{
    Seq::new(
        nodes.len(),
        |i: int|
            if 0 <= i < nodes.len() {
                nodes[i].view()
            } else {
                Syntax { tag: Seq::empty(), contents: Seq::empty(), children: Seq::empty() }
            },
    )
}

impl View for SyntaxNode {
    type V = Syntax;

    open spec fn view(&self) -> Syntax
        decreases self,
    {
        Syntax {
            tag: self.tag@,
            contents: self.contents@,
            children: syntax_views(self.children@),
        }
    }
}

/// What `syntax_views` holds, element by element.
pub proof fn lemma_syntax_views(nodes: Seq<SyntaxNode>)
    ensures
        syntax_views(nodes).len() == nodes.len(),
        forall|i: int| 0 <= i < nodes.len() ==> #[trigger] syntax_views(nodes)[i] == nodes[i]@,
{
}

impl Syntax {
    /// The node is a number: its tag names the rule `number`.
    pub open spec fn is_number(self) -> bool {
        contains(self.tag, "number"@)
    }

    /// The node is a symbol: its tag names the rule `symbol`.
    pub open spec fn is_symbol(self) -> bool {
        contains(self.tag, "symbol"@)
    }

    /// The node is the root of the tree: its tag is `>`.
    pub open spec fn is_root(self) -> bool {
        self.tag == ">"@
    }

    /// The node is an S-expression: its tag names the rule `sexpr`.
    pub open spec fn is_sexpr(self) -> bool {
        contains(self.tag, "sexpr"@)
    }

    /// The node is a Q-expression: its tag names the rule `qexpr`.
    pub open spec fn is_qexpr(self) -> bool {
        contains(self.tag, "qexpr"@)
    }

    /// The node only marks structure: a bracket, or the match of a regular
    /// expression at the start or end of the input. The reader passes over
    /// such a child.
    pub open spec fn is_skipped(self) -> bool {
        ||| self.contents == "("@
        ||| self.contents == ")"@
        ||| self.contents == "{"@
        ||| self.contents == "}"@
        ||| self.tag == "regex"@
    }

    /// The reader has a value for the node: it is a number or a symbol, or
    /// it is a list and the reader has a value for each child that it does
    /// not pass over.
    pub open spec fn readable(self) -> bool
        decreases self,
    {
        ||| self.is_number()
        ||| self.is_symbol()
        ||| {
            &&& self.is_root() || self.is_sexpr() || self.is_qexpr()
            &&& forall|i: int|
                0 <= i < self.children.len() && !(#[trigger] self.children[i]).is_skipped()
                    ==> self.children[i].readable()
        }
    }
}

/// The value of a number node with the text `contents`: the number that the
/// text denotes, or an error where it denotes none that fits in 64 bits.
pub open spec fn read_num(contents: Seq<char>) -> Term {
    match parse_number_spec(contents) {
        Some(num) => Term::Number(num),
        None => Term::Error("invalid number"@),
    }
}

/// The value that the reader has for a node. A number or a symbol comes
/// from the node's text; a list holds the values of the children that are
/// not passed over, and is a Q-expression where the tag names the rule
/// `qexpr`, else an S-expression.
pub open spec fn read(t: Syntax) -> Term
    decreases t,
{
    if t.is_number() {
        read_num(t.contents)
    } else if t.is_symbol() {
        Term::Symbol(t.contents)
    } else if t.is_qexpr() {
        Term::Qexpr(read_children(t.children))
    } else {
        Term::Sexpr(read_children(t.children))
    }
}

/// The values of the children that are not passed over, in order.
pub open spec fn read_children(children: Seq<Syntax>) -> Seq<Term>
    decreases children,
{
    if children.len() == 0 {
        Seq::empty()
    } else if children[0].is_skipped() {
        read_children(children.drop_first())
    } else {
        seq![read(children[0])] + read_children(children.drop_first())
    }
}

/// Reading two runs of children one after the other is reading them as one.
pub proof fn lemma_read_children_add(a: Seq<Syntax>, b: Seq<Syntax>)
    ensures
        read_children(a + b) == read_children(a) + read_children(b),
    decreases a.len(),
{
    if a.len() > 0 {
        lemma_read_children_add(a.drop_first(), b);
        assert((a + b).drop_first() =~= a.drop_first() + b);
    }
}

/// Reading one child more appends its value, unless it is passed over.
pub proof fn lemma_read_children_push(children: Seq<Syntax>, child: Syntax)
    ensures
        read_children(children.push(child)) == if child.is_skipped() {
            read_children(children)
        } else {
            read_children(children).push(read(child))
        },
{
    let one = seq![child];
    assert(one.drop_first() =~= Seq::<Syntax>::empty());
    assert(read_children(Seq::<Syntax>::empty()) =~= Seq::<Term>::empty());
    lemma_read_children_add(children, one);
    assert(children.push(child) =~= children + one);
}

/// Whether the reader has a value for `t`.
pub fn is_readable(t: &SyntaxNode) -> (r: bool)
    ensures
        r == t@.readable(),
    decreases t,
{
    let tag = t.tag.as_str();
    if str_contains(tag, "number") || str_contains(tag, "symbol") {
        return true;
    }
    if !(str_eq(tag, ">") || str_contains(tag, "sexpr") || str_contains(tag, "qexpr")) {
        return false;
    }
    proof {
        lemma_syntax_views(t.children@);
    }
    let mut i: usize = 0;
    while i < t.children.len()
        invariant
            i <= t.children.len(),
            !t@.is_number(),
            !t@.is_symbol(),
            t@.is_root() || t@.is_sexpr() || t@.is_qexpr(),
            t@.children.len() == t.children.len(),
            forall|k: int| 0 <= k < t.children.len() ==> t@.children[k] == #[trigger] t.children[k]@,
            forall|k: int|
                0 <= k < i && !(#[trigger] t@.children[k]).is_skipped() ==> t@.children[k].readable(),
        decreases t.children.len() - i,
    {
        let child = &t.children[i];
        if !is_skipped(child) && !is_readable(child) {
            return false;
        }
        i += 1;
    }
    true
}

/// Whether the reader passes over `child`.
pub fn is_skipped(child: &SyntaxNode) -> (r: bool)
    ensures
        r == child@.is_skipped(),
{
    let contents = child.contents.as_str();
    str_eq(contents, "(") || str_eq(contents, ")") || str_eq(contents, "{") || str_eq(
        contents,
        "}",
    ) || str_eq(child.tag.as_str(), "regex")
}

/// Reads the text of the number node `t`.
pub fn lval_read_num(t: &SyntaxNode) -> (v: LispValue)
    ensures
        v@ == read_num(t@.contents),
{
    match parse_number(t.contents.as_str()) {
        Some(num) => lval_num(num),
        None => lval_err("invalid number"),
    }
}

/// Reads the value that the syntax tree `t` stands for.
pub fn lval_read(t: &SyntaxNode) -> (v: LispValue)
    requires
        t@.readable(),
    ensures
        v@ == read(t@),
    decreases t,
{
    let tag = t.tag.as_str();
    if str_contains(tag, "number") {
        return lval_read_num(t);
    }
    if str_contains(tag, "symbol") {
        return lval_sym(t.contents.as_str());
    }
    let mut x = if str_contains(tag, "qexpr") {
        lval_qexpr()
    } else {
        lval_sexpr()
    };
    proof {
        lemma_syntax_views(t.children@);
    }
    let mut i: usize = 0;
    while i < t.children.len()
        invariant
            i <= t.children.len(),
            t@.readable(),
            !t@.is_number(),
            !t@.is_symbol(),
            t@.children.len() == t.children.len(),
            forall|k: int| 0 <= k < t.children.len() ==> t@.children[k] == #[trigger] t.children[k]@,
            x@.is_list(),
            x@ is Qexpr <==> t@.is_qexpr(),
            x@.cells() == read_children(t@.children.take(i as int)),
        decreases t.children.len() - i,
    {
        let child = &t.children[i];
        proof {
            lemma_read_children_push(t@.children.take(i as int), child@);
            assert(t@.children.take(i + 1) =~= t@.children.take(i as int).push(child@));
        }
        if !is_skipped(child) {
            x = lval_add(x, lval_read(child));
        }
        i += 1;
    }
    assert(t@.children.take(t.children.len() as int) =~= t@.children);
    x
}

} // verus!
