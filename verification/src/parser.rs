//! The parser: from a line of text to a syntax tree.
//!
//! The grammar, with white space allowed behind every token:
//!
//! ```text
//! number : an optional '-' and then one digit or more
//! symbol : "list" | "head" | "tail" | "join" | "eval" | '+' | '-' | '*' | '/' | '%'
//! sexpr  : '(' expr* ')'
//! qexpr  : '{' expr* '}'
//! expr   : number | symbol | sexpr | qexpr
//! lispy  : start of input, expr*, end of input
//! ```
//!
//! The alternatives of a rule are tried in the order in which they stand,
//! and a repetition takes as many as it can get.

use vstd::prelude::*;
use crate::numeral::is_digit;
use crate::reader::{lemma_syntax_views, syntax_views, Syntax, SyntaxNode};
use crate::text::{chars_occur_at, chars_of, contains, occurs_at};

verus! {

/// White space: blank, form feed, line feed, carriage return, tab,
/// vertical tab.
pub open spec fn is_space(c: char) -> bool {
    c == ' ' || c == '\x0c' || c == '\n' || c == '\r' || c == '\t' || c == '\x0b'
}

/// The place behind the white space that starts at `at`.
pub open spec fn skip_spaces(s: Seq<char>, at: int) -> int
    decreases s.len() - at,
{
    if 0 <= at < s.len() && is_space(s[at]) {
        skip_spaces(s, at + 1)
    } else {
        at
    }
}

/// The place behind the digits that start at `at`.
pub open spec fn skip_digits(s: Seq<char>, at: int) -> int
    decreases s.len() - at,
{
    if 0 <= at < s.len() && is_digit(s[at]) {
        skip_digits(s, at + 1)
    } else {
        at
    }
}

/// The place behind the number that starts at `at`, where one does.
pub open spec fn number_end(s: Seq<char>, at: int) -> Option<int> {
    let digits = if 0 <= at < s.len() && s[at] == '-' {
        at + 1
    } else {
        at
    };
    let end = skip_digits(s, digits);
    if end > digits {
        Some(end)
    } else {
        None
    }
}

/// The place behind the name of a builtin that starts at `at`, where one
/// does.
pub open spec fn word_end(s: Seq<char>, at: int) -> Option<int> {
    if occurs_at(s, "list"@, at) || occurs_at(s, "head"@, at) || occurs_at(s, "tail"@, at)
        || occurs_at(s, "join"@, at) || occurs_at(s, "eval"@, at) {
        Some(at + 4)
    } else {
        None
    }
}

/// One of the characters that are symbols by themselves.
pub open spec fn is_operator_char(c: char) -> bool {
    c == '+' || c == '-' || c == '*' || c == '/' || c == '%'
}

/// A node without children.
pub open spec fn leaf(tag: Seq<char>, contents: Seq<char>) -> Syntax {
    Syntax { tag, contents, children: Seq::empty() }
}

/// A node with children and no text of its own.
pub open spec fn branch(tag: Seq<char>, children: Seq<Syntax>) -> Syntax {
    Syntax { tag, contents: Seq::empty(), children }
}

/// The children of a bracketed list: the opening bracket, the expressions,
/// the closing bracket.
pub open spec fn bracketed(open: Seq<char>, inner: Seq<Syntax>, close: Seq<char>) -> Seq<Syntax> {
    seq![leaf("char"@, open)] + inner + seq![leaf("char"@, close)]
}

/// The bracketed list whose opening bracket stands at `at`: the expressions
/// behind the bracket, up to `closing`. `None` where `closing` does not
/// follow them.
pub open spec fn list_at(
    s: Seq<char>,
    at: int,
    tag: Seq<char>,
    open: Seq<char>,
    close: Seq<char>,
    closing: char,
) -> Option<(Syntax, int)>
    decreases s.len() - at, 0nat,
{
    if 0 <= at < s.len() {
        proof {
            lemma_skip_spaces(s, at + 1);
        }
        let inner = exprs_at(s, skip_spaces(s, at + 1));
        if 0 <= inner.1 < s.len() && s[inner.1] == closing {
            Some((branch(tag, bracketed(open, inner.0, close)), skip_spaces(s, inner.1 + 1)))
        } else {
            None
        }
    } else {
        None
    }
}

/// The expression that starts at `at`, with the place behind it and the
/// white space that follows it; `None` where no expression starts there.
/// The tag of a node names the rules that matched, the innermost last.
pub open spec fn expr_at(s: Seq<char>, at: int) -> Option<(Syntax, int)>
    decreases s.len() - at, 1nat,
{
    if !(0 <= at < s.len()) {
        None
    } else if let Some(end) = number_end(s, at) {
        Some((leaf("expr|number|regex"@, s.subrange(at, end)), skip_spaces(s, end)))
    } else if let Some(end) = word_end(s, at) {
        Some((leaf("expr|symbol|string"@, s.subrange(at, end)), skip_spaces(s, end)))
    } else if is_operator_char(s[at]) {
        Some((leaf("expr|symbol|char"@, s.subrange(at, at + 1)), skip_spaces(s, at + 1)))
    } else if s[at] == '(' {
        list_at(s, at, "expr|sexpr|>"@, "("@, ")"@, ')')
    } else if s[at] == '{' {
        list_at(s, at, "expr|qexpr|>"@, "{"@, "}"@, '}')
    } else {
        None
    }
}

/// The expressions that start at `at`, one behind the other and as many as
/// there are, with the place behind the last. An expression is never empty
/// and ends within the input (`lemma_expr_at`), so the test on `next.1`
/// never fails; it is what makes the definition well founded.
pub open spec fn exprs_at(s: Seq<char>, at: int) -> (Seq<Syntax>, int)
    decreases s.len() - at, 2nat,
{
    match expr_at(s, at) {
        Some(next) => if at < next.1 <= s.len() {
            let rest = exprs_at(s, next.1);
            (seq![next.0] + rest.0, rest.1)
        } else {
            (Seq::empty(), at)
        },
        None => (Seq::empty(), at),
    }
}

/// The mark that stands for the start or the end of the input.
pub open spec fn mark() -> Syntax {
    leaf("regex"@, Seq::empty())
}

/// The tree of the whole input `s`: the root, whose children are the mark
/// of the start, the expressions, and the mark of the end. `None` where the
/// input is not a sequence of expressions.
pub open spec fn parse_spec(s: Seq<char>) -> Option<Syntax> {
    let body = exprs_at(s, skip_spaces(s, 0));
    if body.1 == s.len() {
        Some(branch(">"@, seq![mark()] + body.0 + seq![mark()]))
    } else {
        None
    }
}

/// White space is skipped forward, and not past the end.
pub proof fn lemma_skip_spaces(s: Seq<char>, at: int)
    requires
        0 <= at <= s.len(),
    ensures
        at <= skip_spaces(s, at) <= s.len(),
    decreases s.len() - at,
{
    if at < s.len() && is_space(s[at]) {
        lemma_skip_spaces(s, at + 1);
    }
}

/// Digits are skipped forward, and not past the end.
pub proof fn lemma_skip_digits(s: Seq<char>, at: int)
    requires
        0 <= at <= s.len(),
    ensures
        at <= skip_digits(s, at) <= s.len(),
    decreases s.len() - at,
{
    if at < s.len() && is_digit(s[at]) {
        lemma_skip_digits(s, at + 1);
    }
}

/// An expression is not empty and ends within the input, and so does a
/// bracketed list. A sequence of expressions ends within the input, and is
/// its first expression and then the sequence behind it.
pub proof fn lemma_expr_at(s: Seq<char>, at: int)
    requires
        0 <= at <= s.len(),
    ensures
        expr_at(s, at) matches Some(next) ==> at < next.1 <= s.len(),
        at <= exprs_at(s, at).1 <= s.len(),
        exprs_at(s, at) == match expr_at(s, at) {
            Some(next) => (seq![next.0] + exprs_at(s, next.1).0, exprs_at(s, next.1).1),
            None => (Seq::<Syntax>::empty(), at),
        },
    decreases s.len() - at, 2nat,
{
    if at < s.len() {
        if let Some(end) = number_end(s, at) {
            let digits = if s[at] == '-' {
                at + 1
            } else {
                at
            };
            lemma_skip_digits(s, digits);
            lemma_skip_spaces(s, end);
        } else if let Some(end) = word_end(s, at) {
            reveal_strlit("list");
            reveal_strlit("head");
            reveal_strlit("tail");
            reveal_strlit("join");
            reveal_strlit("eval");
            lemma_skip_spaces(s, end);
        } else if is_operator_char(s[at]) {
            lemma_skip_spaces(s, at + 1);
        } else if s[at] == '(' || s[at] == '{' {
            lemma_skip_spaces(s, at + 1);
            lemma_expr_at(s, skip_spaces(s, at + 1));
            let inner = exprs_at(s, skip_spaces(s, at + 1));
            if inner.1 < s.len() {
                lemma_skip_spaces(s, inner.1 + 1);
            }
        }
    }
    match expr_at(s, at) {
        Some(next) => {
            lemma_expr_at(s, next.1);
        },
        None => {},
    }
}

/// Every node is one that the reader has a value for.
pub open spec fn all_readable(nodes: Seq<Syntax>) -> bool {
    forall|i: int| 0 <= i < nodes.len() ==> (#[trigger] nodes[i]).readable()
}

/// A bracketed list of readable expressions is readable under a tag that
/// names a kind of list.
proof fn lemma_list_readable(tag: Seq<char>, open: Seq<char>, inner: Seq<Syntax>, close: Seq<char>)
    requires
        contains(tag, "sexpr"@) || contains(tag, "qexpr"@),
        open == "("@ || open == "{"@,
        close == ")"@ || close == "}"@,
        all_readable(inner),
    ensures
        branch(tag, bracketed(open, inner, close)).readable(),
{
    let node = branch(tag, bracketed(open, inner, close));
    assert forall|i: int|
        0 <= i < node.children.len() && !(#[trigger] node.children[i]).is_skipped() implies node.children[i].readable() by {
        if 0 < i < node.children.len() - 1 {
            assert(node.children[i] == inner[i - 1]);
        }
    }
}

/// The reader has a value for the tree of an expression.
proof fn lemma_expr_readable(s: Seq<char>, at: int)
    requires
        0 <= at <= s.len(),
    ensures
        expr_at(s, at) matches Some(next) ==> next.0.readable(),
    decreases s.len() - at, 1nat,
{
    reveal_strlit("expr|number|regex");
    reveal_strlit("expr|symbol|string");
    reveal_strlit("expr|symbol|char");
    reveal_strlit("expr|sexpr|>");
    reveal_strlit("expr|qexpr|>");
    reveal_strlit("number");
    reveal_strlit("symbol");
    reveal_strlit("sexpr");
    reveal_strlit("qexpr");
    if at < s.len() {
        if number_end(s, at) is Some {
            assert("expr|number|regex"@.subrange(5, 11) =~= "number"@);
            assert(occurs_at("expr|number|regex"@, "number"@, 5));
        } else if word_end(s, at) is Some {
            assert("expr|symbol|string"@.subrange(5, 11) =~= "symbol"@);
            assert(occurs_at("expr|symbol|string"@, "symbol"@, 5));
        } else if is_operator_char(s[at]) {
            assert("expr|symbol|char"@.subrange(5, 11) =~= "symbol"@);
            assert(occurs_at("expr|symbol|char"@, "symbol"@, 5));
        } else if s[at] == '(' {
            lemma_skip_spaces(s, at + 1);
            lemma_exprs_readable(s, skip_spaces(s, at + 1));
            let inner = exprs_at(s, skip_spaces(s, at + 1));
            assert("expr|sexpr|>"@.subrange(5, 10) =~= "sexpr"@);
            assert(occurs_at("expr|sexpr|>"@, "sexpr"@, 5));
            lemma_list_readable("expr|sexpr|>"@, "("@, inner.0, ")"@);
        } else if s[at] == '{' {
            lemma_skip_spaces(s, at + 1);
            lemma_exprs_readable(s, skip_spaces(s, at + 1));
            let inner = exprs_at(s, skip_spaces(s, at + 1));
            assert("expr|qexpr|>"@.subrange(5, 10) =~= "qexpr"@);
            assert(occurs_at("expr|qexpr|>"@, "qexpr"@, 5));
            lemma_list_readable("expr|qexpr|>"@, "{"@, inner.0, "}"@);
        }
    }
}

/// The reader has a value for the tree of each expression of a sequence.
proof fn lemma_exprs_readable(s: Seq<char>, at: int)
    requires
        0 <= at <= s.len(),
    ensures
        all_readable(exprs_at(s, at).0),
    decreases s.len() - at, 2nat,
{
    lemma_expr_readable(s, at);
    match expr_at(s, at) {
        Some(next) => {
            if at < next.1 <= s.len() {
                lemma_exprs_readable(s, next.1);
            }
        },
        None => {},
    }
}

/// The reader has a value for every tree that the parser gives.
pub proof fn lemma_parse_readable(s: Seq<char>)
    ensures
        parse_spec(s) matches Some(tree) ==> tree.readable(),
{
    lemma_skip_spaces(s, 0);
    lemma_exprs_readable(s, skip_spaces(s, 0));
    if let Some(tree) = parse_spec(s) {
        let body = exprs_at(s, skip_spaces(s, 0));
        assert forall|i: int|
            0 <= i < tree.children.len() && !(#[trigger] tree.children[i]).is_skipped() implies tree.children[i].readable() by {
            if 0 < i < tree.children.len() - 1 {
                assert(tree.children[i] == body.0[i - 1]);
            }
        }
    }
}

/// Where the input is not a sequence of expressions: the place up to which
/// it is one.
#[derive(Clone, Copy, Debug, PartialEq, Eq)]
pub struct ParseError {
    pub position: usize,
}

/// Whether `c` is white space.
fn is_space_char(c: char) -> (r: bool)
    ensures
        r == is_space(c),
{
    c == ' ' || c == '\x0c' || c == '\n' || c == '\r' || c == '\t' || c == '\x0b'
}

/// Whether `c` is a digit.
fn is_digit_char(c: char) -> (r: bool)
    ensures
        r == is_digit(c),
{
    c >= '0' && c <= '9'
}

/// The place behind the white space that starts at `at`.
fn skip_spaces_from(cs: &Vec<char>, at: usize) -> (end: usize)
    requires
        at <= cs.len(),
    ensures
        end == skip_spaces(cs@, at as int),
        at <= end <= cs.len(),
{
    let mut i: usize = at;
    while i < cs.len() && is_space_char(cs[i])
        invariant
            at <= i <= cs.len(),
            skip_spaces(cs@, i as int) == skip_spaces(cs@, at as int),
        decreases cs.len() - i,
    {
        i += 1;
    }
    i
}

/// The place behind the digits that start at `at`.
fn skip_digits_from(cs: &Vec<char>, at: usize) -> (end: usize)
    requires
        at <= cs.len(),
    ensures
        end == skip_digits(cs@, at as int),
        at <= end <= cs.len(),
{
    let mut i: usize = at;
    while i < cs.len() && is_digit_char(cs[i])
        invariant
            at <= i <= cs.len(),
            skip_digits(cs@, i as int) == skip_digits(cs@, at as int),
        decreases cs.len() - i,
    {
        i += 1;
    }
    i
}

/// The place behind the number that starts at `at`, where one does.
fn number_end_from(cs: &Vec<char>, at: usize) -> (r: Option<usize>)
    requires
        at < cs.len(),
    ensures
        r matches Some(end) ==> number_end(cs@, at as int) == Some(end as int) && at < end
            <= cs.len(),
        r is None ==> number_end(cs@, at as int) is None,
{
    let digits: usize = if cs[at] == '-' {
        at + 1
    } else {
        at
    };
    let end = skip_digits_from(cs, digits);
    if end > digits {
        Some(end)
    } else {
        None
    }
}

/// Whether `word` stands at `at`.
fn word_at(cs: &Vec<char>, at: usize, word: &str) -> (r: bool)
    requires
        at <= cs.len(),
    ensures
        r == occurs_at(cs@, word@, at as int),
{
    let w = chars_of(word);
    if w.len() > cs.len() - at {
        return false;
    }
    chars_occur_at(cs.as_slice(), w.as_slice(), at)
}

/// The place behind the name of a builtin that starts at `at`, where one
/// does.
fn word_end_from(cs: &Vec<char>, at: usize) -> (r: Option<usize>)
    requires
        at < cs.len(),
    ensures
        r matches Some(end) ==> word_end(cs@, at as int) == Some(end as int) && at < end
            <= cs.len(),
        r is None ==> word_end(cs@, at as int) is None,
{
    proof {
        reveal_strlit("list");
        reveal_strlit("head");
        reveal_strlit("tail");
        reveal_strlit("join");
        reveal_strlit("eval");
    }
    if word_at(cs, at, "list") || word_at(cs, at, "head") || word_at(cs, at, "tail") || word_at(
        cs,
        at,
        "join",
    ) || word_at(cs, at, "eval") {
        Some(at + 4)
    } else {
        None
    }
}

/// Whether `c` is a symbol by itself.
fn is_operator(c: char) -> (r: bool)
    ensures
        r == is_operator_char(c),
{
    c == '+' || c == '-' || c == '*' || c == '/' || c == '%'
}

/// A node without children.
fn new_leaf(tag: &str, contents: &str) -> (node: SyntaxNode)
    ensures
        node@ == leaf(tag@, contents@),
{
    let node = SyntaxNode { tag: tag.to_owned(), contents: contents.to_owned(), children: Vec::new() };
    proof {
        lemma_syntax_views(node.children@);
        assert(node@.children =~= Seq::<Syntax>::empty());
    }
    node
}

/// A node with children and no text of its own.
fn new_branch(tag: &str, children: Vec<SyntaxNode>) -> (node: SyntaxNode)
    ensures
        node@ == branch(tag@, syntax_views(children@)),
{
    SyntaxNode { tag: tag.to_owned(), contents: String::new(), children }
}

/// Appends `node` to `nodes`.
fn push_node(nodes: &mut Vec<SyntaxNode>, node: SyntaxNode)
    ensures
        syntax_views(final(nodes)@) == syntax_views(old(nodes)@).push(node@),
{
    proof {
        lemma_syntax_views(nodes@);
    }
    nodes.push(node);
    proof {
        lemma_syntax_views(nodes@);
        assert(syntax_views(nodes@) =~= syntax_views(old(nodes)@).push(node@));
    }
}

/// Parses the list whose opening bracket stands at `at`.
fn parse_list(
    input: &str,
    cs: &Vec<char>,
    at: usize,
    tag: &str,
    open: &str,
    close: &str,
    closing: char,
) -> (r: Option<(SyntaxNode, usize)>)
    requires
        cs@ == input@,
        at < cs.len(),
    ensures
        r matches Some(next) ==> list_at(input@, at as int, tag@, open@, close@, closing) == Some(
            (next.0@, next.1 as int),
        ) && at < next.1 <= cs.len(),
        r is None ==> list_at(input@, at as int, tag@, open@, close@, closing) is None,
    decreases cs.len() - at, 0nat,
{
    let mut children: Vec<SyntaxNode> = Vec::new();
    proof {
        lemma_syntax_views(children@);
        assert(syntax_views(children@) =~= Seq::<Syntax>::empty());
    }
    push_node(&mut children, new_leaf("char", open));
    let start = skip_spaces_from(cs, at + 1);
    let ghost inner = exprs_at(input@, start as int);
    let ghost before = syntax_views(children@);
    let end = parse_exprs(input, cs, start, &mut children);
    if end < cs.len() && cs[end] == closing {
        push_node(&mut children, new_leaf("char", close));
        let next = skip_spaces_from(cs, end + 1);
        proof {
            assert(before =~= seq![leaf("char"@, open@)]);
            assert(syntax_views(children@) =~= bracketed(open@, inner.0, close@));
        }
        Some((new_branch(tag, children), next))
    } else {
        None
    }
}

/// Parses the expression that starts at `at`.
fn parse_expr(input: &str, cs: &Vec<char>, at: usize) -> (r: Option<(SyntaxNode, usize)>)
    requires
        cs@ == input@,
        at <= cs.len(),
    ensures
        r matches Some(next) ==> expr_at(input@, at as int) == Some((next.0@, next.1 as int))
            && at < next.1 <= cs.len(),
        r is None ==> expr_at(input@, at as int) is None,
    decreases cs.len() - at, 1nat,
{
    if at >= cs.len() {
        return None;
    }
    if let Some(end) = number_end_from(cs, at) {
        let node = new_leaf("expr|number|regex", input.substring_char(at, end));
        return Some((node, skip_spaces_from(cs, end)));
    }
    if let Some(end) = word_end_from(cs, at) {
        let node = new_leaf("expr|symbol|string", input.substring_char(at, end));
        return Some((node, skip_spaces_from(cs, end)));
    }
    let c = cs[at];
    if is_operator(c) {
        let node = new_leaf("expr|symbol|char", input.substring_char(at, at + 1));
        return Some((node, skip_spaces_from(cs, at + 1)));
    }
    proof {
        reveal_strlit("(");
        reveal_strlit(")");
        reveal_strlit("{");
        reveal_strlit("}");
    }
    if c == '(' {
        return parse_list(input, cs, at, "expr|sexpr|>", "(", ")", ')');
    }
    if c == '{' {
        return parse_list(input, cs, at, "expr|qexpr|>", "{", "}", '}');
    }
    None
}

/// Parses the expressions that start at `at`, appends them to `nodes` and
/// returns the place behind the last.
fn parse_exprs(input: &str, cs: &Vec<char>, at: usize, nodes: &mut Vec<SyntaxNode>) -> (end: usize)
    requires
        cs@ == input@,
        at <= cs.len(),
    ensures
        syntax_views(final(nodes)@) == syntax_views(old(nodes)@) + exprs_at(input@, at as int).0,
        end == exprs_at(input@, at as int).1,
        at <= end <= cs.len(),
    decreases cs.len() - at, 2nat,
{
    let mut pos: usize = at;
    loop
        invariant
            cs@ == input@,
            at <= pos <= cs.len(),
            syntax_views(nodes@) + exprs_at(input@, pos as int).0 == syntax_views(old(nodes)@)
                + exprs_at(input@, at as int).0,
            exprs_at(input@, pos as int).1 == exprs_at(input@, at as int).1,
        decreases cs.len() - pos,
    {
        let ghost before = syntax_views(nodes@);
        match parse_expr(input, cs, pos) {
            Some((node, next)) => {
                let ghost rest = exprs_at(input@, next as int);
                assert(before.push(node@) + rest.0 =~= before + (seq![node@] + rest.0));
                push_node(nodes, node);
                pos = next;
            },
            None => {
                assert(before + Seq::<Syntax>::empty() =~= before);
                return pos;
            },
        }
    }
}

/// Parses a line of input.
pub fn parse(input: &str) -> (r: Result<SyntaxNode, ParseError>)
    ensures
        match r {
            Ok(tree) => parse_spec(input@) == Some(tree@),
            Err(e) => parse_spec(input@) is None && e.position == exprs_at(
                input@,
                skip_spaces(input@, 0),
            ).1,
        },
{
    let cs = chars_of(input);
    let mut children: Vec<SyntaxNode> = Vec::new();
    proof {
        lemma_syntax_views(children@);
        assert(syntax_views(children@) =~= Seq::<Syntax>::empty());
    }
    push_node(&mut children, new_leaf("regex", ""));
    let ghost before = syntax_views(children@);
    let start = skip_spaces_from(&cs, 0);
    let end = parse_exprs(input, &cs, start, &mut children);
    if end == cs.len() {
        push_node(&mut children, new_leaf("regex", ""));
        proof {
            reveal_strlit("");
            assert(""@ =~= Seq::<char>::empty());
            assert(before =~= seq![mark()]);
            assert(syntax_views(children@) =~= seq![mark()] + exprs_at(input@, start as int).0
                + seq![mark()]);
        }
        Ok(new_branch(">", children))
    } else {
        Err(ParseError { position: end })
    }
}

} // verus!
