//! Recursive-descent parser for GN. It never fails: text it cannot read
//! becomes error statements or error expressions, and the rest is parsed.
//!
//! Grammar (statements at file level and in blocks, expressions by precedence
//! from loosest to tightest: `||`, `&&`, `== !=`, `< <= > >=`, `+ -`, `!`):
//!
//! ```text
//! statement  = "if" "(" expr ")" block [ "else" ( condition | block ) ]
//!            | identifier "(" [ exprs ] ")" [ block ]
//!            | lvalue ( "=" | "+=" | "-=" ) expr
//! lvalue     = identifier | identifier "[" expr "]" | identifier "." identifier
//! primary    = identifier | integer | string | call | array access | scope access
//!            | block | "(" expr ")" | "[" [ exprs ] "]"
//! exprs      = expr { [ "," ] expr } [ "," ]      (a missing comma is an error)
//! ```
//!
//! The grammar is stated in full, over the tokens, in `crate::grammar`;
//! `parse` returns the tree that it describes (`parsed`), and the tree's
//! names, strings and integers are those of the text (`wf_block`).

use vstd::prelude::*;
use vstd::string::StringSliceAdditionalSpecFns;

use crate::ast::{
    ArrayAccess, AssignOp, Assignment, BinaryExpr, BinaryOp, Block, Call, Comments, Condition,
    ElseBlock, ErrorStatement, Expr, Identifier, IntegerLiteral, LValue, ListLiteral, ParenExpr,
    PrimaryExpr, ScopeAccess, Span, Statement, StringLiteral, SyntaxError, SyntaxErrorKind,
    UnaryExpr, UnaryOp,
};
use crate::grammar::{int_value, TokenText};
use crate::shape::BlockShape;
use crate::lexer::{is_digit, is_tokenization, scan, tokenize, Token, TokenKind};
use crate::shape::{
    CallShape, block_shape, call_shape, comments_shape, condition_shape, expr_shape, exprs_shape, lvalue_shape, primary_shape,
    statement_shape, statements_shape,
};
use crate::util::{is_ident_byte, is_ident_byte_exec, BACKSLASH, DOLLAR, DOT};

verus! {

// ---------------------------------------------------------------------------
// Well-formedness of a tree with respect to the text it was parsed from.

pub open spec fn span_ok(sp: Span, n: int) -> bool {
    sp.start <= sp.end <= n
}

/// Decimal value of a run of digits.
pub open spec fn decimal(t: Seq<u8>) -> int
    decreases t.len(),
{
    if t.len() == 0 {
        0
    } else {
        decimal(t.drop_last()) * 10 + (t.last() - 48)
    }
}

/// Value of an integer literal: digits, optionally preceded by a minus sign.
pub open spec fn integer_value(t: Seq<u8>) -> int {
    if t.len() > 0 && t[0] == 45 {
        -decimal(t.drop_first())
    } else {
        decimal(t)
    }
}

pub open spec fn wf_identifier(i: Identifier, s: Seq<u8>) -> bool {
    &&& span_ok(i.span, s.len() as int)
    &&& i.name@ == s.subrange(i.span.start as int, i.span.end as int)
}

pub open spec fn wf_integer(x: IntegerLiteral, s: Seq<u8>) -> bool {
    &&& span_ok(x.span, s.len() as int)
    &&& x.value == integer_value(s.subrange(x.span.start as int, x.span.end as int))
}

pub open spec fn wf_string(l: StringLiteral, s: Seq<u8>) -> bool
    decreases l,
{
    &&& span_ok(l.span, s.len() as int)
    &&& l.span.start + 2 <= l.span.end
    &&& l.raw_value@ == s.subrange(l.span.start + 1, l.span.end - 1)
    &&& wf_exprs(l.embedded_exprs@, s)
}

pub open spec fn wf_exprs(es: Seq<Expr>, s: Seq<u8>) -> bool
    decreases es,
{
    if es.len() == 0 {
        true
    } else {
        wf_exprs(es.drop_last(), s) && wf_expr(es.last(), s)
    }
}

pub open spec fn wf_expr(e: Expr, s: Seq<u8>) -> bool
    decreases e,
{
    match e {
        Expr::Primary(p) => wf_primary(*p, s),
        Expr::Unary(u) => span_ok(u.span, s.len() as int) && wf_expr(*u.expr, s),
        Expr::Binary(b) => span_ok(b.span, s.len() as int) && wf_expr(*b.lhs, s) && wf_expr(
            *b.rhs,
            s,
        ),
    }
}

pub open spec fn wf_array_access(a: ArrayAccess, s: Seq<u8>) -> bool
    decreases a,
{
    span_ok(a.span, s.len() as int) && wf_identifier(a.array, s) && wf_expr(*a.index, s)
}

pub open spec fn wf_scope_access(a: ScopeAccess, s: Seq<u8>) -> bool {
    span_ok(a.span, s.len() as int) && wf_identifier(a.scope, s) && wf_identifier(a.member, s)
}

pub open spec fn wf_primary(p: PrimaryExpr, s: Seq<u8>) -> bool
    decreases p,
{
    match p {
        PrimaryExpr::Identifier(i) => wf_identifier(*i, s),
        PrimaryExpr::Integer(x) => wf_integer(*x, s),
        PrimaryExpr::String(l) => wf_string(*l, s),
        PrimaryExpr::Call(c) => wf_call(*c, s),
        PrimaryExpr::ArrayAccess(a) => wf_array_access(*a, s),
        PrimaryExpr::ScopeAccess(a) => wf_scope_access(*a, s),
        PrimaryExpr::Block(b) => wf_block(*b, s),
        PrimaryExpr::ParenExpr(x) => span_ok(x.span, s.len() as int) && wf_expr(*x.expr, s),
        PrimaryExpr::List(l) => span_ok(l.span, s.len() as int) && wf_exprs(l.values@, s),
        PrimaryExpr::Error(e) => span_ok(e.span, s.len() as int),
    }
}

pub open spec fn wf_opt_block(b: Option<Block>, s: Seq<u8>) -> bool
    decreases b,
{
    match b {
        Some(b) => wf_block(b, s),
        None => true,
    }
}

pub open spec fn wf_call(c: Call, s: Seq<u8>) -> bool
    decreases c,
{
    &&& span_ok(c.span, s.len() as int)
    &&& wf_identifier(c.function, s)
    &&& wf_exprs(c.args@, s)
    &&& wf_opt_block(c.block, s)
}

pub open spec fn wf_else(e: Option<ElseBlock>, s: Seq<u8>) -> bool
    decreases e,
{
    match e {
        Some(ElseBlock::Condition(c)) => wf_condition(*c, s),
        Some(ElseBlock::Block(b)) => wf_block(*b, s),
        None => true,
    }
}

pub open spec fn wf_condition(c: Condition, s: Seq<u8>) -> bool
    decreases c,
{
    &&& span_ok(c.span, s.len() as int)
    &&& wf_expr(*c.condition, s)
    &&& wf_block(c.then_block, s)
    &&& wf_else(c.else_block, s)
}

pub open spec fn wf_lvalue(l: LValue, s: Seq<u8>) -> bool
    decreases l,
{
    match l {
        LValue::Identifier(i) => wf_identifier(*i, s),
        LValue::ArrayAccess(a) => wf_array_access(*a, s),
        LValue::ScopeAccess(a) => wf_scope_access(*a, s),
    }
}

pub open spec fn wf_statement(st: Statement, s: Seq<u8>) -> bool
    decreases st,
{
    match st {
        Statement::Assignment(a) => span_ok(a.span, s.len() as int) && wf_lvalue(a.lvalue, s)
            && wf_expr(*a.rvalue, s),
        Statement::Call(c) => wf_call(*c, s),
        Statement::Condition(c) => wf_condition(*c, s),
        Statement::Error(e) => span_ok(e.error.span, s.len() as int) && e.text@ == s.subrange(
            e.error.span.start as int,
            e.error.span.end as int,
        ),
    }
}

pub open spec fn wf_statements(sts: Seq<Statement>, s: Seq<u8>) -> bool
    decreases sts,
{
    if sts.len() == 0 {
        true
    } else {
        wf_statements(sts.drop_last(), s) && wf_statement(sts.last(), s)
    }
}

pub open spec fn wf_block(b: Block, s: Seq<u8>) -> bool
    decreases b,
{
    span_ok(b.span, s.len() as int) && wf_statements(b.statements@, s)
}

proof fn lemma_wf_exprs_push(es: Seq<Expr>, e: Expr, s: Seq<u8>)
    requires
        wf_exprs(es, s),
        wf_expr(e, s),
    ensures
        wf_exprs(es.push(e), s),
{
    assert(es.push(e).drop_last() =~= es);
}

proof fn lemma_exprs_shape_push(es: Seq<Expr>, e: Expr)
    ensures
        exprs_shape(es.push(e)) == exprs_shape(es).push(expr_shape(e)),
{
    assert(es.push(e).drop_last() =~= es);
}

proof fn lemma_statements_shape_push(sts: Seq<Statement>, st: Statement)
    ensures
        statements_shape(sts.push(st)) == statements_shape(sts).push(statement_shape(st)),
{
    assert(sts.push(st).drop_last() =~= sts);
}

proof fn lemma_wf_statements_push(sts: Seq<Statement>, st: Statement, s: Seq<u8>)
    requires
        wf_statements(sts, s),
        wf_statement(st, s),
    ensures
        wf_statements(sts.push(st), s),
{
    assert(sts.push(st).drop_last() =~= sts);
}

// ---------------------------------------------------------------------------
// Trees of one text with one shape agree.

/// Two well-formed expressions of one text with one shape agree on whether
/// they are a string without expansions or escapes, and on its value.
pub proof fn lemma_same_shape_simple_string(a: Expr, b: Expr, s: Seq<u8>)
    requires
        wf_expr(a, s),
        wf_expr(b, s),
        expr_shape(a) == expr_shape(b),
    ensures
        a.spec_as_simple_string() == b.spec_as_simple_string(),
{
    match a {
        Expr::Primary(pa) => match b {
            Expr::Primary(pb) => {
                assert(primary_shape(*pa) == primary_shape(*pb));
                match *pa {
                    PrimaryExpr::String(la) => match *pb {
                        PrimaryExpr::String(lb) => {
                            assert(wf_primary(*pa, s));
                            assert(wf_primary(*pb, s));
                            assert(wf_string(*la, s));
                            assert(wf_string(*lb, s));
                            assert(la.span == lb.span);
                            assert(la.raw_value@ == lb.raw_value@);
                        },
                        _ => {
                            assert(primary_shape(*pa) is String);
                        },
                    },
                    _ => match *pb {
                        PrimaryExpr::String(lb) => {
                            assert(primary_shape(*pb) is String);
                        },
                        _ => {},
                    },
                }
            },
            _ => {
                assert(expr_shape(a) == primary_shape(*pa));
            },
        },
        _ => match b {
            Expr::Primary(pb) => {
                assert(expr_shape(b) == primary_shape(*pb));
                match *pb {
                    PrimaryExpr::String(lb) => {
                        assert(primary_shape(*pb) is String);
                    },
                    _ => {},
                }
            },
            _ => {},
        },
    }
}

/// The shapes of statements, one by one.
pub proof fn lemma_statements_shape_index(a: Seq<Statement>)
    ensures
        statements_shape(a).len() == a.len(),
        forall|i: int| 0 <= i < a.len() ==> #[trigger] statements_shape(a)[i] == statement_shape(a[i]),
    decreases a.len(),
{
    if a.len() > 0 {
        lemma_statements_shape_index(a.drop_last());
        assert forall|i: int| 0 <= i < a.len() implies #[trigger] statements_shape(a)[i] == statement_shape(a[i]) by {
            if i < a.len() - 1 {
                assert(a.drop_last()[i] == a[i]);
            }
        }
    }
}

/// Well-formed statements, one by one.
pub proof fn lemma_wf_statements_index(a: Seq<Statement>, s: Seq<u8>)
    requires
        wf_statements(a, s),
    ensures
        forall|i: int| 0 <= i < a.len() ==> wf_statement(#[trigger] a[i], s),
    decreases a.len(),
{
    if a.len() > 0 {
        lemma_wf_statements_index(a.drop_last(), s);
        assert forall|i: int| 0 <= i < a.len() implies wf_statement(#[trigger] a[i], s) by {
            if i < a.len() - 1 {
                assert(a.drop_last()[i] == a[i]);
            }
        }
    }
}

// ---------------------------------------------------------------------------
// From text to the tokens the grammar reads.

/// The comment lines of each token, as byte strings.
pub open spec fn comment_views(c: Seq<Vec<Vec<u8>>>) -> Seq<Seq<Seq<u8>>> {
    c.map_values(|x: Vec<Vec<u8>>| comments_shape(x@))
}

/// Splits a tokenization into the tokens the grammar reads and, for each of
/// them, the comment lines written just before it (without the `#`); the
/// third part is the comment lines after the last of them.
pub open spec fn split_comments(src: Seq<u8>, all: Seq<Token>) -> (Seq<Token>, Seq<Seq<Seq<u8>>>, Seq<Seq<u8>>)
    decreases all.len(),
{
    if all.len() == 0 {
        (seq![], seq![], seq![])
    } else {
        let (toks, coms, pending) = split_comments(src, all.drop_last());
        let t = all.last();
        if t.kind == TokenKind::Comment {
            (toks, coms, pending.push(src.subrange(t.start + 1, t.end as int)))
        } else {
            (toks.push(t), coms.push(pending), seq![])
        }
    }
}

/// What the grammar reads of a text: its tokens and comments. (A text with
/// more tokens than a `usize` counts with a few to spare reads as empty; no
/// text that fits in memory has that many.)
pub open spec fn token_text(src: Seq<u8>) -> TokenText {
    let all = choose|all: Seq<Token>| is_tokenization(src, all);
    let (toks, coms, _) = split_comments(src, all);
    if toks.len() + 8 > usize::MAX {
        TokenText { src, toks: seq![], coms: seq![] }
    } else {
        TokenText { src, toks, coms }
    }
}

/// One more token of a tokenization, split.
proof fn lemma_split_step(src: Seq<u8>, all: Seq<Token>, i: int)
    requires
        0 <= i < all.len(),
    ensures
        split_comments(src, all.take(i + 1)) == ({
            let (toks, coms, pending) = split_comments(src, all.take(i));
            let t = all[i];
            if t.kind == TokenKind::Comment {
                (toks, coms, pending.push(src.subrange(t.start + 1, t.end as int)))
            } else {
                (toks.push(t), coms.push(pending), seq![])
            }
        }),
{
    assert(all.take(i + 1).drop_last() =~= all.take(i));
}

/// The tokens the grammar reads are those of the text's tokenization.
proof fn lemma_token_text(src: Seq<u8>, all: Seq<Token>)
    requires
        is_tokenization(src, all),
    ensures
        token_text(src) == ({
            let (toks, coms, _) = split_comments(src, all);
            if toks.len() + 8 > usize::MAX {
                TokenText { src, toks: seq![], coms: seq![] }
            } else {
                TokenText { src, toks, coms }
            }
        }),
{
    let chosen = choose|a: Seq<Token>| is_tokenization(src, a);
    assert(is_tokenization(src, chosen));
    crate::lexer::lemma_tokenization_unique(src, all, chosen);
}

/// The tree that GN text parses to.
pub open spec fn parsed(src: Seq<u8>) -> BlockShape {
    token_text(src).file()
}

/// Token `t` is what the lexer reads at its start.
#[verifier::opaque]
pub open spec fn scanned(s: Seq<u8>, t: Token) -> bool {
    scan(s, t.start as int) == (t.kind, t.end as int)
}

// ---------------------------------------------------------------------------
// The parser.

/// Parser state: the text, its tokens without comments, and for each such
/// token the comment lines written just before it.
pub struct Parser<'a> {
    src: &'a [u8],
    toks: Vec<Token>,
    comments: Vec<Vec<Vec<u8>>>,
}

impl<'a> Parser<'a> {
    /// The parser's tokens lie within the text, in order, and are not comments.
    pub closed spec fn inv(self) -> bool {
        &&& self.comments@.len() == self.toks@.len()
        &&& self.toks@.len() + 8 <= usize::MAX
        &&& forall|k: int|
            0 <= k < self.toks@.len() ==> {
                let t = #[trigger] self.toks@[k];
                &&& t.start < t.end <= self.src@.len()
                &&& t.kind != TokenKind::Comment
            }
        &&& forall|a: int, b: int|
            0 <= a < b < self.toks@.len() ==> #[trigger] self.toks@[a].end
                <= #[trigger] self.toks@[b].start
        &&& forall|k: int|
            0 <= k < self.toks@.len() ==> scanned(self.src@, #[trigger] self.toks@[k])
    }

    pub closed spec fn n(self) -> int {
        self.toks@.len() as int
    }

    /// The text and tokens the grammar reads.
    pub closed spec fn tt(self) -> TokenText {
        TokenText {
            src: self.src@,
            toks: self.toks@,
            coms: comment_views(self.comments@),
        }
    }

    pub closed spec fn text(self) -> Seq<u8> {
        self.src@
    }

    /// Start of token `k`.
    pub closed spec fn tok_start(self, k: int) -> int {
        self.toks@[k].start as int
    }

    /// End of token `k`.
    pub closed spec fn tok_end(self, k: int) -> int {
        self.toks@[k].end as int
    }

    #[verifier::spinoff_prover]
    #[verifier::rlimit(60)]
    pub fn new(src: &'a [u8]) -> (r: Parser<'a>)
        ensures
            r.inv(),
            r.text() == src@,
            r.tt() == token_text(src@),
    {
        proof {
            reveal(scanned);
        }
        let all = tokenize(src);
        let mut toks: Vec<Token> = Vec::new();
        let mut comments: Vec<Vec<Vec<u8>>> = Vec::new();
        let mut pending: Vec<Vec<u8>> = Vec::new();
        let mut i: usize = 0;
        proof {
            lemma_tokens_ordered(src@, all@);
        }
        while i < all.len()
            invariant
                i <= all@.len(),
                forall|a: int, b: int|
                    0 <= a < b < all@.len() ==> #[trigger] all@[a].end <= #[trigger] all@[b].start,
                forall|a: int|
                    0 <= a < all@.len() ==> #[trigger] all@[a].start < all@[a].end <= src@.len(),
                forall|a: int|
                    0 <= a < all@.len() ==> scan(src@, (#[trigger] all@[a]).start as int) == (
                        all@[a].kind,
                        all@[a].end as int,
                    ),
                forall|k: int| 0 <= k < toks@.len() ==> scanned(src@, #[trigger] toks@[k]),
                comments@.len() == toks@.len(),
                forall|k: int|
                    0 <= k < toks@.len() ==> {
                        let t = #[trigger] toks@[k];
                        &&& t.start < t.end <= src@.len()
                        &&& t.kind != TokenKind::Comment
                    },
                forall|a: int, b: int|
                    0 <= a < b < toks@.len() ==> #[trigger] toks@[a].end <= #[trigger] toks@[b].start,
                toks@.len() > 0 ==> forall|j: int|
                    i <= j < all@.len() ==> toks@.last().end <= #[trigger] all@[j].start,
                split_comments(src@, all@.take(i as int)) == (
                    toks@,
                    comment_views(comments@),
                    comments_shape(pending@),
                ),
            decreases all.len() - i,
        {
            let t = all[i];
            proof {
                reveal(scanned);
                lemma_split_step(src@, all@, i as int);
            }
            if t.kind == TokenKind::Comment {
                let mut line: Vec<u8> = Vec::new();
                let mut k: usize = t.start + 1;
                while k < t.end
                    invariant
                        t.start < t.end <= src@.len(),
                        t.start + 1 <= k <= t.end,
                        line@ == src@.subrange(t.start + 1, k as int),
                    decreases t.end - k,
                {
                    line.push(src[k]);
                    k += 1;
                    assert(line@ =~= src@.subrange(t.start + 1, k as int));
                }
                proof {
                    assert(comments_shape(pending@.push(line)) =~= comments_shape(pending@).push(line@));
                }
                pending.push(line);
            } else {
                proof {
                    if toks@.len() > 0 {
                        assert forall|a: int| 0 <= a < toks@.len() implies #[trigger] toks@[a].end <= t.start by {
                            if a < toks@.len() - 1 {
                                assert(toks@[a].end <= toks@[toks@.len() - 1].start);
                            }
                        }
                    }
                }
                proof {
                    assert(comment_views(comments@.push(pending)) =~= comment_views(comments@).push(
                        comments_shape(pending@),
                    ));
                }
                toks.push(t);
                comments.push(pending);
                pending = Vec::new();
                proof {
                    assert(comments_shape(pending@) =~= Seq::<Seq<u8>>::empty());
                }
            }
            i += 1;
        }
        proof {
            assert(all@.take(all@.len() as int) =~= all@);
            lemma_token_text(src@, all@);
        }
        if toks.len() > usize::MAX - 8 {
            // Unreachable in practice: every token takes at least one byte.
            let r = Parser { src, toks: Vec::new(), comments: Vec::new() };
            proof {
                assert(comment_views(r.comments@) =~= Seq::<Seq<Seq<u8>>>::empty());
            }
            return r;
        }
        Parser { src, toks, comments }
    }

    fn kind_at(&self, pos: usize) -> (r: Option<TokenKind>)
        ensures
            pos < self.toks@.len() ==> r == Some(self.toks@[pos as int].kind),
            pos >= self.toks@.len() ==> r is None,
    {
        if pos < self.toks.len() {
            Some(self.toks[pos].kind)
        } else {
            None
        }
    }

    /// Whether token `pos` exists and has kind `k`.
    fn at(&self, pos: usize, k: TokenKind) -> (r: bool)
        ensures
            r == (pos < self.toks@.len() && self.toks@[pos as int].kind == k),
    {
        pos < self.toks.len() && self.toks[pos].kind == k
    }

    /// Copy of the text of `[a, b)`.
    fn slice(&self, a: usize, b: usize) -> (r: Vec<u8>)
        requires
            a <= b <= self.src@.len(),
        ensures
            r@ == self.src@.subrange(a as int, b as int),
    {
        let mut out: Vec<u8> = Vec::new();
        let mut i: usize = a;
        while i < b
            invariant
                a <= i <= b <= self.src@.len(),
                out@ == self.src@.subrange(a as int, i as int),
            decreases b - i,
        {
            out.push(self.src[i]);
            i += 1;
            assert(out@ =~= self.src@.subrange(a as int, i as int));
        }
        out
    }

    /// Whether token `pos` is an identifier spelled `word`.
    fn token_is(&self, pos: usize, word: &[u8]) -> (r: bool)
        requires
            self.inv(),
        ensures
            r == (pos < self.toks@.len() && self.toks@[pos as int].kind == TokenKind::Identifier
                && self.src@.subrange(self.tok_start(pos as int), self.tok_end(pos as int))
                == word@),
    {
        if pos >= self.toks.len() || self.toks[pos].kind != TokenKind::Identifier {
            return false;
        }
        let t = self.toks[pos];
        proof {
            assert(t == self.toks@[pos as int]);
        }
        if t.end - t.start != word.len() {
            assert(self.src@.subrange(t.start as int, t.end as int).len() != word@.len());
            return false;
        }
        let mut i: usize = 0;
        while i < word.len()
            invariant
                self.inv(),
                t == self.toks@[pos as int],
                t.start < t.end <= self.src@.len(),
                t.end - t.start == word@.len(),
                i <= word@.len(),
                forall|j: int| 0 <= j < i ==> self.src@[t.start + j] == word@[j],
            decreases word.len() - i,
        {
            if self.src[t.start + i] != word[i] {
                assert(self.src@.subrange(t.start as int, t.end as int)[i as int] != word@[i as int]);
                return false;
            }
            i += 1;
        }
        assert(self.src@.subrange(t.start as int, t.end as int) =~= word@);
        true
    }

    fn identifier(&self, pos: usize) -> (r: Identifier)
        requires
            self.inv(),
            pos < self.toks@.len(),
        ensures
            wf_identifier(r, self.src@),
            r.span == (Span { start: self.toks@[pos as int].start, end: self.toks@[pos as int].end }),
    {
        let t = self.toks[pos];
        Identifier { name: self.slice(t.start, t.end), span: Span { start: t.start, end: t.end } }
    }

    /// Value of an integer literal spanning `[a, b)`, `None` when it does
    /// not fit in 64 bits.
    fn integer_value(&self, a: usize, b: usize, negative: bool) -> (r: Option<i64>)
        requires
            a < b <= self.src@.len(),
            forall|k: int| a <= k < b ==> is_digit(#[trigger] self.src@[k]),
        ensures
            r == int_value(self.src@.subrange(a as int, b as int), negative),
    {
        let mut acc: i128 = 0;
        let mut i: usize = a;
        while i < b
            invariant
                a <= i <= b <= self.src@.len(),
                forall|k: int| a <= k < b ==> is_digit(#[trigger] self.src@[k]),
                acc == decimal(self.src@.subrange(a as int, i as int)),
                0 <= acc <= 0x8000_0000_0000_0000,
            decreases b - i,
        {
            assert(self.src@.subrange(a as int, i + 1).drop_last() =~= self.src@.subrange(
                a as int,
                i as int,
            ));
            let d = (self.src[i] - 48) as i128;
            acc = acc * 10 + d;
            i += 1;
            if acc > 0x8000_0000_0000_0000 {
                proof {
                    lemma_decimal_prefix(self.src@.subrange(a as int, b as int), i - a);
                    assert(self.src@.subrange(a as int, b as int).take(i - a) =~= self.src@.subrange(
                        a as int,
                        i as int,
                    ));
                }
                return None;
            }
        }
        assert(self.src@.subrange(a as int, i as int) =~= self.src@.subrange(a as int, b as int));
        if negative {
            Some((-acc) as i64)
        } else if acc <= 0x7FFF_FFFF_FFFF_FFFF {
            Some(acc as i64)
        } else {
            None
        }
    }
}

proof fn lemma_tokens_ordered(s: Seq<u8>, toks: Seq<Token>)
    requires
        is_tokenization(s, toks),
    ensures
        forall|a: int, b: int| 0 <= a < b < toks.len() ==> #[trigger] toks[a].end <= #[trigger] toks[b].start,
        forall|a: int| 0 <= a < toks.len() ==> #[trigger] toks[a].start < toks[a].end <= s.len(),
        forall|a: int| 0 <= a < toks.len() ==> scan(s, (#[trigger] toks[a]).start as int) == (toks[a].kind, toks[a].end as int),
{
    assert forall|a: int, b: int| 0 <= a < b < toks.len() implies #[trigger] toks[a].end <= #[trigger] toks[b].start by {
        lemma_tokens_ordered_from(s, toks, a, b);
    }
    assert forall|a: int| 0 <= a < toks.len() implies #[trigger] toks[a].start < toks[a].end <= s.len() by {
        assert(toks[a] == toks[a]);
    }
}

proof fn lemma_tokens_ordered_from(s: Seq<u8>, toks: Seq<Token>, a: int, b: int)
    requires
        is_tokenization(s, toks),
        0 <= a < b < toks.len(),
    ensures
        toks[a].end <= toks[b].start,
    decreases b - a,
{
    let t = toks[b];
    assert(crate::lexer::prev_end(toks, b) <= t.start);
    if a < b - 1 {
        lemma_tokens_ordered_from(s, toks, a, b - 1);
        let u = toks[b - 1];
        assert(u.start < u.end);
    }
}


/// Every byte of a digit run is a digit.
proof fn lemma_digits_run(s: Seq<u8>, j: int)
    requires
        0 <= j <= s.len(),
    ensures
        forall|k: int| j <= k < crate::lexer::digits_end(s, j) ==> is_digit(#[trigger] s[k]),
    decreases s.len() - j,
{
    if j < s.len() && is_digit(s[j]) {
        lemma_digits_run(s, j + 1);
    }
}

/// The value of a literal that fits is its decimal value, negated for a
/// negative one.
proof fn lemma_int_value(d: Seq<u8>, negative: bool)
    requires
        forall|i: int| 0 <= i < d.len() ==> is_digit(#[trigger] d[i]),
    ensures
        int_value(d, negative) matches Some(v) ==> v == if negative {
            -decimal(d)
        } else {
            decimal(d)
        },
{
    lemma_decimal_prefix(d, d.len() as int);
    assert(d.take(d.len() as int) =~= d);
}

/// A prefix of a run of digits is worth no more than the run.
proof fn lemma_decimal_prefix(t: Seq<u8>, k: int)
    requires
        0 <= k <= t.len(),
        forall|i: int| 0 <= i < t.len() ==> is_digit(#[trigger] t[i]),
    ensures
        0 <= decimal(t.take(k)) <= decimal(t),
    decreases t.len(),
{
    if t.len() > 0 {
        let u = t.drop_last();
        assert forall|i: int| 0 <= i < u.len() implies is_digit(#[trigger] u[i]) by {
            assert(u[i] == t[i]);
        }
        if k == t.len() {
            assert(t.take(k) =~= t);
            lemma_decimal_prefix(u, u.len() as int);
            assert(u.take(u.len() as int) =~= u);
        } else {
            lemma_decimal_prefix(u, k);
            assert(u.take(k) =~= t.take(k));
            lemma_decimal_prefix(u, u.len() as int);
            assert(u.take(u.len() as int) =~= u);
        }
    } else {
        assert(t.take(k) =~= t);
    }
}

proof fn lemma_string_end(s: Seq<u8>, j: int)
    requires
        0 <= j,
    ensures
        crate::lexer::string_end(s, j).0 ==> j + 1 <= crate::lexer::string_end(s, j).1 <= s.len(),
    decreases s.len() - j,
{
    if 0 <= j < s.len() {
        if s[j] == crate::util::QUOTE {
        } else if s[j] == crate::util::NEWLINE {
        } else if s[j] == BACKSLASH && j + 1 < s.len() && s[j + 1] != crate::util::NEWLINE {
            lemma_string_end(s, j + 2);
        } else {
            lemma_string_end(s, j + 1);
        }
    }
}

/// Binding power of a binary operator token: `||` 1, `&&` 2, `== !=` 3,
/// `< <= > >=` 4, `+ -` 5.
pub open spec fn binary_op(k: TokenKind) -> Option<(BinaryOp, u8)> {
    match k {
        TokenKind::Or => Some((BinaryOp::Or, 1u8)),
        TokenKind::And => Some((BinaryOp::And, 2u8)),
        TokenKind::Eq => Some((BinaryOp::Eq, 3u8)),
        TokenKind::Ne => Some((BinaryOp::Ne, 3u8)),
        TokenKind::Lt => Some((BinaryOp::Lt, 4u8)),
        TokenKind::Le => Some((BinaryOp::Le, 4u8)),
        TokenKind::Gt => Some((BinaryOp::Gt, 4u8)),
        TokenKind::Ge => Some((BinaryOp::Ge, 4u8)),
        TokenKind::Plus => Some((BinaryOp::Add, 5u8)),
        TokenKind::Minus => Some((BinaryOp::Sub, 5u8)),
        _ => None,
    }
}

fn binary_op_exec(k: TokenKind) -> (r: Option<(BinaryOp, u8)>)
    ensures
        r == binary_op(k),
{
    match k {
        TokenKind::Or => Some((BinaryOp::Or, 1u8)),
        TokenKind::And => Some((BinaryOp::And, 2u8)),
        TokenKind::Eq => Some((BinaryOp::Eq, 3u8)),
        TokenKind::Ne => Some((BinaryOp::Ne, 3u8)),
        TokenKind::Lt => Some((BinaryOp::Lt, 4u8)),
        TokenKind::Le => Some((BinaryOp::Le, 4u8)),
        TokenKind::Gt => Some((BinaryOp::Gt, 4u8)),
        TokenKind::Ge => Some((BinaryOp::Ge, 4u8)),
        TokenKind::Plus => Some((BinaryOp::Add, 5u8)),
        TokenKind::Minus => Some((BinaryOp::Sub, 5u8)),
        _ => None,
    }
}

impl<'a> Parser<'a> {
    proof fn lemma_span(self, a: int, b: int)
        requires
            self.inv(),
            0 <= a <= b < self.n(),
        ensures
            self.tok_start(a) < self.tok_end(b) <= self.text().len(),
            self.tok_start(a) <= self.tok_start(b),
            a < b ==> self.tok_end(a) <= self.tok_start(b),
    {
        assert(self.toks@[a].start < self.toks@[a].end);
        assert(self.toks@[b].start < self.toks@[b].end <= self.src@.len());
        if a < b {
            assert(self.toks@[a].end <= self.toks@[b].start);
        }
    }

    /// The span from the start of token `a` to the end of token `b`.
    fn span_of(&self, a: usize, b: usize) -> (r: Span)
        requires
            self.inv(),
            a <= b < self.n(),
        ensures
            r.start == self.tok_start(a as int),
            r.end == self.tok_end(b as int),
            span_ok(r, self.text().len() as int),
    {
        proof {
            self.lemma_span(a as int, b as int);
        }
        Span { start: self.toks[a].start, end: self.toks[b].end }
    }

    fn comments_at(&self, pos: usize) -> (r: Comments)
        requires
            self.inv(),
            pos < self.n(),
        ensures
            comments_shape(r.lines@) == self.tt().coms[pos as int],
    {
        Comments { lines: self.comments[pos].clone() }
    }

    /// Parses an expression whose binary operators bind at least as tightly as `min_prec`.
    #[verifier::spinoff_prover]
    fn parse_expr(&self, pos: usize, min_prec: u8) -> (r: Option<(Expr, usize)>)
        requires
            self.inv(),
            pos <= self.n(),
        ensures
            r matches Some((e, p)) ==> {
                &&& pos < p <= self.n()
                &&& wf_expr(e, self.text())
                &&& e.spec_span().start == self.tok_start(pos as int)
                &&& e.spec_span().end == self.tok_end(p - 1)
            },
            match r {
                Some((e, p)) => self.tt().expr(pos as int, min_prec as int) == Some((expr_shape(e), p as int)),
                None => self.tt().expr(pos as int, min_prec as int) is None,
            },
        decreases self.n() - pos, 5int,
    {
        let (mut lhs, mut p) = match self.parse_unary(pos) {
            Some(x) => x,
            None => return None,
        };
        while p < self.toks.len()
            invariant
                self.inv(),
                pos < p <= self.n(),
                wf_expr(lhs, self.text()),
                lhs.spec_span().start == self.tok_start(pos as int),
                lhs.spec_span().end == self.tok_end(p - 1),
                self.tt().expr(pos as int, min_prec as int) == self.tt().climb(
                    expr_shape(lhs),
                    pos as int,
                    p as int,
                    min_prec as int,
                ),
            ensures
                self.tt().climb(expr_shape(lhs), pos as int, p as int, min_prec as int) == Some(
                    (expr_shape(lhs), p as int),
                ),
            decreases self.n() - p,
        {
            let (op, prec) = match binary_op_exec(self.toks[p].kind) {
                Some(x) => x,
                None => break,
            };
            if prec < min_prec || prec >= 6 {
                break;
            }
            let (rhs, q) = match self.parse_expr(p + 1, prec + 1) {
                Some(x) => x,
                None => return None,
            };
            proof {
                self.lemma_span(pos as int, q - 1);
            }
            let span = Span { start: lhs.span().start, end: rhs.span().end };
            lhs = Expr::Binary(Box::new(BinaryExpr { lhs: Box::new(lhs), op, rhs: Box::new(rhs), span }));
            p = q;
        }
        Some((lhs, p))
    }

    fn parse_unary(&self, pos: usize) -> (r: Option<(Expr, usize)>)
        requires
            self.inv(),
            pos <= self.n(),
        ensures
            r matches Some((e, p)) ==> {
                &&& pos < p <= self.n()
                &&& wf_expr(e, self.text())
                &&& e.spec_span().start == self.tok_start(pos as int)
                &&& e.spec_span().end == self.tok_end(p - 1)
            },
            match r {
                Some((e, p)) => self.tt().unary(pos as int) == Some((expr_shape(e), p as int)),
                None => self.tt().unary(pos as int) is None,
            },
        decreases self.n() - pos, 4int,
    {
        if self.at(pos, TokenKind::Not) {
            let (e, p) = match self.parse_unary(pos + 1) {
                Some(x) => x,
                None => return None,
            };
            let span = self.span_of(pos, p - 1);
            return Some((Expr::Unary(Box::new(UnaryExpr { op: UnaryOp::Not, expr: Box::new(e), span })), p));
        }
        self.parse_primary(pos)
    }

    fn parse_primary(&self, pos: usize) -> (r: Option<(Expr, usize)>)
        requires
            self.inv(),
            pos <= self.n(),
        ensures
            r matches Some((e, p)) ==> {
                &&& pos < p <= self.n()
                &&& wf_expr(e, self.text())
                &&& e.spec_span().start == self.tok_start(pos as int)
                &&& e.spec_span().end == self.tok_end(p - 1)
            },
            match r {
                Some((e, p)) => self.tt().primary(pos as int) == Some((expr_shape(e), p as int)),
                None => self.tt().primary(pos as int) is None,
            },
        decreases self.n() - pos, 3int,
    {
        match self.parse_primary_inner(pos) {
            Some((p, q)) => Some((Expr::Primary(Box::new(p)), q)),
            None => None,
        }
    }

    /// A primary expression that starts with a name: a call, an array
    /// access, a scope access or the name alone.
    #[verifier::spinoff_prover]
    fn parse_named(&self, pos: usize) -> (r: Option<(PrimaryExpr, usize)>)
        requires
            self.inv(),
            pos < self.n(),
            self.toks@[pos as int].kind == TokenKind::Identifier,
        ensures
            r matches Some((e, p)) ==> {
                &&& pos < p <= self.n()
                &&& wf_primary(e, self.text())
                &&& e.spec_span().start == self.tok_start(pos as int)
                &&& e.spec_span().end == self.tok_end(p - 1)
            },
            match r {
                Some((e, p)) => self.tt().primary(pos as int) == Some((primary_shape(e), p as int)),
                None => self.tt().primary(pos as int) is None,
            },
        decreases self.n() - pos, 1int,
    {
        proof {
            self.lemma_span(pos as int, pos as int);
        }
        if self.at(pos + 1, TokenKind::LParen) {
            let none = Comments { lines: Vec::new() };
            proof {
                assert(comments_shape(none.lines@) =~= Seq::<Seq<u8>>::empty());
            }
            let (c, p) = match self.parse_call(pos, none) {
                Some(x) => x,
                None => return None,
            };
            Some((PrimaryExpr::Call(Box::new(c)), p))
        } else if self.at(pos + 1, TokenKind::LBracket) {
            let (a, p) = match self.parse_array_access(pos) {
                Some(x) => x,
                None => return None,
            };
            Some((PrimaryExpr::ArrayAccess(Box::new(a)), p))
        } else if self.at(pos + 1, TokenKind::Dot) {
            let (a, p) = match self.parse_scope_access(pos) {
                Some(x) => x,
                None => return None,
            };
            Some((PrimaryExpr::ScopeAccess(Box::new(a)), p))
        } else {
            let id = self.identifier(pos);
            Some((PrimaryExpr::Identifier(Box::new(id)), pos + 1))
        }
    }

    /// An integer literal, possibly negative.
    #[verifier::spinoff_prover]
    fn parse_number(&self, pos: usize) -> (r: Option<(PrimaryExpr, usize)>)
        requires
            self.inv(),
            pos < self.n(),
            self.toks@[pos as int].kind == TokenKind::Integer || self.toks@[pos as int].kind == TokenKind::Minus,
        ensures
            r matches Some((e, p)) ==> {
                &&& pos < p <= self.n()
                &&& wf_primary(e, self.text())
                &&& e.spec_span().start == self.tok_start(pos as int)
                &&& e.spec_span().end == self.tok_end(p - 1)
            },
            match r {
                Some((e, p)) => self.tt().primary(pos as int) == Some((primary_shape(e), p as int)),
                None => self.tt().primary(pos as int) is None,
            },
    {
        let t = self.toks[pos];
        proof {
            assert(t == self.toks@[pos as int]);
            self.lemma_span(pos as int, pos as int);
        }
        match t.kind {
            TokenKind::Integer => {
                proof {
                    reveal(scanned);
                    lemma_digits_run(self.src@, t.start as int);
                }
                let value = match self.integer_value(t.start, t.end, false) {
                    Some(v) => v,
                    None => return None,
                };
                proof {
                    lemma_int_value(self.src@.subrange(t.start as int, t.end as int), false);
                }
                let span = Span { start: t.start, end: t.end };
                Some((PrimaryExpr::Integer(Box::new(IntegerLiteral { value, span })), pos + 1))
            },
            TokenKind::Minus => {
                if pos + 1 < self.toks.len() && self.toks[pos + 1].kind == TokenKind::Integer
                    && self.toks[pos + 1].start == t.end {
                    let d = self.toks[pos + 1];
                    proof {
                        assert(d == self.toks@[pos + 1]);
                        self.lemma_span(pos as int, pos + 1);
                        reveal(scanned);
                        lemma_digits_run(self.src@, d.start as int);
                    }
                    let value = match self.integer_value(d.start, d.end, true) {
                        Some(v) => v,
                        None => return None,
                    };
                    proof {
                        lemma_int_value(self.src@.subrange(d.start as int, d.end as int), true);
                    }
                    let span = Span { start: t.start, end: d.end };
                    proof {
                        let text = self.src@.subrange(t.start as int, d.end as int);
                        assert(text.drop_first() =~= self.src@.subrange(d.start as int, d.end as int));
                        assert(text[0] == 45);
                    }
                    Some((PrimaryExpr::Integer(Box::new(IntegerLiteral { value, span })), pos + 2))
                } else {
                    None
                }
            },
            _ => None,
        }
    }

    /// A parenthesized expression.
    #[verifier::spinoff_prover]
    fn parse_paren(&self, pos: usize) -> (r: Option<(PrimaryExpr, usize)>)
        requires
            self.inv(),
            pos < self.n(),
            self.toks@[pos as int].kind == TokenKind::LParen,
        ensures
            r matches Some((e, p)) ==> {
                &&& pos < p <= self.n()
                &&& wf_primary(e, self.text())
                &&& e.spec_span().start == self.tok_start(pos as int)
                &&& e.spec_span().end == self.tok_end(p - 1)
            },
            match r {
                Some((e, p)) => self.tt().primary(pos as int) == Some((primary_shape(e), p as int)),
                None => self.tt().primary(pos as int) is None,
            },
        decreases self.n() - pos, 1int,
    {
        let (e, q) = match self.parse_expr(pos + 1, 1) {
            Some(x) => x,
            None => return None,
        };
        if !self.at(q, TokenKind::RParen) {
            return None;
        }
        let span = self.span_of(pos, q);
        Some((PrimaryExpr::ParenExpr(Box::new(ParenExpr { expr: Box::new(e), span })), q + 1))
    }

    /// A list of expressions in brackets.
    #[verifier::spinoff_prover]
    fn parse_list(&self, pos: usize) -> (r: Option<(PrimaryExpr, usize)>)
        requires
            self.inv(),
            pos < self.n(),
            self.toks@[pos as int].kind == TokenKind::LBracket,
        ensures
            r matches Some((e, p)) ==> {
                &&& pos < p <= self.n()
                &&& wf_primary(e, self.text())
                &&& e.spec_span().start == self.tok_start(pos as int)
                &&& e.spec_span().end == self.tok_end(p - 1)
            },
            match r {
                Some((e, p)) => self.tt().primary(pos as int) == Some((primary_shape(e), p as int)),
                None => self.tt().primary(pos as int) is None,
            },
        decreases self.n() - pos, 1int,
    {
        let (values, q) = match self.parse_items(pos + 1, TokenKind::RBracket) {
            Some(x) => x,
            None => return None,
        };
        let span = self.span_of(pos, q);
        let ghost vs = exprs_shape(values@);
        let e = PrimaryExpr::List(Box::new(ListLiteral { values, span }));
        proof {
            assert(primary_shape(e) == crate::shape::ExprShape::List(vs, span));
            assert(self.tt().kind(pos as int) == Some(TokenKind::LBracket));
            assert(self.tt().items(pos + 1, TokenKind::RBracket) == Some((vs, q as int)));
        }
        Some((e, q + 1))
    }

    #[verifier::spinoff_prover]
    #[verifier::rlimit(60)]
    fn parse_primary_inner(&self, pos: usize) -> (r: Option<(PrimaryExpr, usize)>)
        requires
            self.inv(),
            pos <= self.n(),
        ensures
            r matches Some((e, p)) ==> {
                &&& pos < p <= self.n()
                &&& wf_primary(e, self.text())
                &&& e.spec_span().start == self.tok_start(pos as int)
                &&& e.spec_span().end == self.tok_end(p - 1)
            },
            match r {
                Some((e, p)) => self.tt().primary(pos as int) == Some((primary_shape(e), p as int)),
                None => self.tt().primary(pos as int) is None,
            },
        decreases self.n() - pos, 2int,
    {
        let kind = match self.kind_at(pos) {
            Some(k) => k,
            None => return None,
        };
        let t = self.toks[pos];
        proof {
            assert(t == self.toks@[pos as int]);
            self.lemma_span(pos as int, pos as int);
        }
        match kind {
            TokenKind::Identifier => self.parse_named(pos),
            TokenKind::Integer | TokenKind::Minus => self.parse_number(pos),
            TokenKind::String => {
                proof {
                    reveal(scanned);
                    lemma_string_end(self.src@, t.start + 1);
                }
                let l = self.string_literal(t.start, t.end);
                Some((PrimaryExpr::String(Box::new(l)), pos + 1))
            },
            TokenKind::UnterminatedString => {
                let span = Span { start: t.start, end: t.end };
                let e = SyntaxError { kind: SyntaxErrorKind::UnterminatedString, span };
                Some((PrimaryExpr::Error(Box::new(e)), pos + 1))
            },
            TokenKind::LBrace => {
                let (b, p) = match self.parse_block(pos) {
                    Some(x) => x,
                    None => return None,
                };
                Some((PrimaryExpr::Block(Box::new(b)), p))
            },
            TokenKind::LParen => self.parse_paren(pos),
            TokenKind::LBracket => self.parse_list(pos),
            _ => None,
        }
    }

    /// Comma-separated expressions up to the token `closer`, which is not consumed.
    #[verifier::spinoff_prover]
    fn parse_items(&self, pos: usize, closer: TokenKind) -> (r: Option<(Vec<Expr>, usize)>)
        requires
            self.inv(),
            pos <= self.n(),
        ensures
            r matches Some((v, q)) ==> {
                &&& pos <= q < self.n()
                &&& self.toks@[q as int].kind == closer
                &&& wf_exprs(v@, self.text())
            },
            match r {
                Some((v, q)) => self.tt().items(pos as int, closer) == Some((exprs_shape(v@), q as int)),
                None => self.tt().items(pos as int, closer) is None,
            },
        decreases self.n() - pos, 6int,
    {
        let mut items: Vec<Expr> = Vec::new();
        let mut p = pos;
        loop
            invariant
                self.inv(),
                pos <= p <= self.n(),
                wf_exprs(items@, self.text()),
                self.tt().items(pos as int, closer) == self.tt().items_from(exprs_shape(items@), p as int, closer),
            decreases self.n() - p,
        {
            let ghost p0 = p as int;
            let ghost acc0 = exprs_shape(items@);
            let k = match self.kind_at(p) {
                Some(k) => k,
                None => return None,
            };
            if k == closer {
                return Some((items, p));
            }
            let (e, q) = match self.parse_expr(p, 1) {
                Some(x) => x,
                None => return None,
            };
            let end = e.span().end;
            proof {
                self.lemma_span(p as int, q - 1);
                lemma_wf_exprs_push(items@, e, self.text());
                lemma_exprs_shape_push(items@, e);
            }
            items.push(e);
            p = q;
            let ghost acc1 = exprs_shape(items@);
            assert(acc1 == acc0.push(expr_shape(e)));
            match self.kind_at(p) {
                Some(TokenKind::Comma) => {
                    p = p + 1;
                    assert(self.tt().items_from(acc0, p0, closer) == self.tt().items_from(acc1, p as int, closer));
                },
                Some(k2) => {
                    if k2 != closer {
                        let err = SyntaxError {
                            kind: SyntaxErrorKind::MissingComma,
                            span: Span { start: end, end },
                        };
                        let px = PrimaryExpr::Error(Box::new(err));
                        assert(wf_primary(px, self.text()));
                        let x = Expr::Primary(Box::new(px));
                        proof {
                            lemma_wf_exprs_push(items@, x, self.text());
                            lemma_exprs_shape_push(items@, x);
                        }
                        items.push(x);
                        assert(primary_shape(px) == crate::shape::ExprShape::Error(err));
                        assert(expr_shape(x) == primary_shape(px));
                        assert(self.tt().items_from(acc0, p0, closer) == self.tt().items_from(
                            exprs_shape(items@),
                            p as int,
                            closer,
                        ));
                    } else {
                        assert(self.tt().items_from(acc0, p0, closer) == self.tt().items_from(acc1, p as int, closer));
                    }
                },
                None => return None,
            }
        }
    }

    #[verifier::spinoff_prover]
    #[verifier::rlimit(40)]
    fn parse_call(&self, pos: usize, comments: Comments) -> (r: Option<(Call, usize)>)
        requires
            self.inv(),
            pos <= self.n(),
        ensures
            r matches Some((c, p)) ==> {
                &&& pos < p <= self.n()
                &&& wf_call(c, self.text())
                &&& c.span.start == self.tok_start(pos as int)
                &&& c.span.end == self.tok_end(p - 1)
            },
            match r {
                Some((c, p)) => self.tt().call(pos as int, comments_shape(comments.lines@)) == Some(
                    (call_shape(c), p as int),
                ),
                None => self.tt().call(pos as int, comments_shape(comments.lines@)) is None,
            },
        decreases self.n() - pos, 0int,
    {
        if !self.at(pos, TokenKind::Identifier) || !self.at(pos + 1, TokenKind::LParen) {
            return None;
        }
        let function = self.identifier(pos);
        let (args, q) = match self.parse_items(pos + 2, TokenKind::RParen) {
            Some(x) => x,
            None => return None,
        };
        let ghost cs = comments_shape(comments.lines@);
        let ghost args_shape = exprs_shape(args@);
        if self.at(q + 1, TokenKind::LBrace) {
            let (b, end) = match self.parse_block(q + 1) {
                Some(x) => x,
                None => return None,
            };
            let span = self.span_of(pos, end - 1);
            let c = Call { function, args, block: Some(b), comments, span };
            proof {
                assert(call_shape(c) == CallShape {
                    function: function.span,
                    args: args_shape,
                    block: Some(block_shape(b)),
                    comments: cs,
                    span,
                });
            }
            Some((c, end))
        } else {
            let span = self.span_of(pos, q);
            let c = Call { function, args, block: None, comments, span };
            proof {
                assert(call_shape(c) == CallShape { function: function.span, args: args_shape, block: None, comments: cs, span });
            }
            Some((c, q + 1))
        }
    }

    #[verifier::spinoff_prover]
    fn parse_array_access(&self, pos: usize) -> (r: Option<(ArrayAccess, usize)>)
        requires
            self.inv(),
            pos <= self.n(),
        ensures
            r matches Some((a, p)) ==> {
                &&& pos < p <= self.n()
                &&& wf_array_access(a, self.text())
                &&& a.span.start == self.tok_start(pos as int)
                &&& a.span.end == self.tok_end(p - 1)
            },
            match r {
                Some((a, p)) => self.tt().array_access(pos as int) == Some(
                    (a.array.span, expr_shape(*a.index), a.span, p as int),
                ),
                None => self.tt().array_access(pos as int) is None,
            },
        decreases self.n() - pos, 0int,
    {
        if !self.at(pos, TokenKind::Identifier) || !self.at(pos + 1, TokenKind::LBracket) {
            return None;
        }
        let array = self.identifier(pos);
        let (index, q) = match self.parse_expr(pos + 2, 1) {
            Some(x) => x,
            None => return None,
        };
        if !self.at(q, TokenKind::RBracket) {
            return None;
        }
        let span = self.span_of(pos, q);
        Some((ArrayAccess { array, index: Box::new(index), span }, q + 1))
    }

    fn parse_scope_access(&self, pos: usize) -> (r: Option<(ScopeAccess, usize)>)
        requires
            self.inv(),
            pos <= self.n(),
        ensures
            r matches Some((a, p)) ==> {
                &&& pos < p <= self.n()
                &&& wf_scope_access(a, self.text())
                &&& a.span.start == self.tok_start(pos as int)
                &&& a.span.end == self.tok_end(p - 1)
            },
            match r {
                Some((a, p)) => self.tt().scope_access(pos as int) == Some(
                    (a.scope.span, a.member.span, a.span, p as int),
                ),
                None => self.tt().scope_access(pos as int) is None,
            },
    {
        if !self.at(pos, TokenKind::Identifier) || !self.at(pos + 1, TokenKind::Dot) || !self.at(pos + 2, TokenKind::Identifier) {
            return None;
        }
        let scope = self.identifier(pos);
        let member = self.identifier(pos + 2);
        let span = self.span_of(pos, pos + 2);
        Some((ScopeAccess { scope, member, span }, pos + 3))
    }

    #[verifier::spinoff_prover]
    fn parse_block(&self, pos: usize) -> (r: Option<(Block, usize)>)
        requires
            self.inv(),
            pos <= self.n(),
        ensures
            r matches Some((b, p)) ==> {
                &&& pos < p <= self.n()
                &&& wf_block(b, self.text())
                &&& b.span.start == self.tok_start(pos as int)
                &&& b.span.end == self.tok_end(p - 1)
            },
            match r {
                Some((b, p)) => self.tt().block(pos as int) == Some((block_shape(b), p as int)),
                None => self.tt().block(pos as int) is None,
            },
        decreases self.n() - pos, 0int,
    {
        if !self.at(pos, TokenKind::LBrace) {
            return None;
        }
        let (statements, q) = match self.parse_statements(pos + 1, true) {
            Some(x) => x,
            None => return None,
        };
        let span = self.span_of(pos, q);
        Some((Block { statements, span }, q + 1))
    }

    /// Index just past the tokens on the same line as token `pos` (stopping
    /// before a closing brace).
    fn skip_line(&self, pos: usize) -> (r: usize)
        requires
            self.inv(),
            pos < self.n(),
        ensures
            pos < r <= self.n(),
            r == self.tt().line_end(pos + 1),
    {
        let mut q = pos + 1;
        while q < self.toks.len() && !self.toks[q].line_break_before && self.toks[q].kind
            != TokenKind::RBrace
            invariant
                pos < q <= self.n(),
                self.tt().line_end(q as int) == self.tt().line_end(pos + 1),
            decreases self.n() - q,
        {
            q += 1;
        }
        q
    }

    /// Statements until the end of the text or, in a block, its closing brace
    /// (not consumed). In a block, `None` when the text ends first.
    #[verifier::spinoff_prover]
    fn parse_statements(&self, pos: usize, in_block: bool) -> (r: Option<(Vec<Statement>, usize)>)
        requires
            self.inv(),
            pos <= self.n(),
        ensures
            r matches Some((v, q)) ==> {
                &&& pos <= q <= self.n()
                &&& wf_statements(v@, self.text())
                &&& in_block ==> q < self.n() && self.toks@[q as int].kind == TokenKind::RBrace
                &&& !in_block ==> q == self.n()
            },
            !in_block ==> r is Some,
            match r {
                Some((v, q)) => self.tt().statements(pos as int, in_block) == Some(
                    (statements_shape(v@), q as int),
                ),
                None => self.tt().statements(pos as int, in_block) is None,
            },
        decreases self.n() - pos, 9int,
    {
        let mut v: Vec<Statement> = Vec::new();
        let mut p = pos;
        loop
            invariant
                self.inv(),
                pos <= p <= self.n(),
                wf_statements(v@, self.text()),
                self.tt().statements(pos as int, in_block) == self.tt().statements_from(
                    statements_shape(v@),
                    p as int,
                    in_block,
                ),
            decreases self.n() - p,
        {
            let k = match self.kind_at(p) {
                Some(k) => k,
                None => {
                    if in_block {
                        return None;
                    } else {
                        return Some((v, p));
                    }
                },
            };
            if k == TokenKind::RBrace {
                if in_block {
                    return Some((v, p));
                }
                let span = self.span_of(p, p);
                let st = Statement::Error(Box::new(ErrorStatement {
                    error: SyntaxError { kind: SyntaxErrorKind::UnmatchedBrace, span },
                    text: self.slice(span.start, span.end),
                }));
                proof {
                    lemma_wf_statements_push(v@, st, self.text());
                    lemma_statements_shape_push(v@, st);
                }
                v.push(st);
                p = p + 1;
            } else {
                match self.parse_statement(p) {
                    Some((st, q)) => {
                        proof {
                            lemma_wf_statements_push(v@, st, self.text());
                            lemma_statements_shape_push(v@, st);
                        }
                        v.push(st);
                        p = q;
                    },
                    None => {
                        let q = self.skip_line(p);
                        let span = self.span_of(p, q - 1);
                        let st = Statement::Error(Box::new(ErrorStatement {
                            error: SyntaxError { kind: SyntaxErrorKind::UnknownStatement, span },
                            text: self.slice(span.start, span.end),
                        }));
                        proof {
                            lemma_wf_statements_push(v@, st, self.text());
                            lemma_statements_shape_push(v@, st);
                        }
                        v.push(st);
                        p = q;
                    },
                }
            }
        }
    }

    #[verifier::spinoff_prover]
    #[verifier::rlimit(40)]
    fn parse_lvalue(&self, pos: usize) -> (r: Option<(LValue, usize)>)
        requires
            self.inv(),
            pos <= self.n(),
        ensures
            r matches Some((l, p)) ==> {
                &&& pos < p <= self.n()
                &&& wf_lvalue(l, self.text())
                &&& l.spec_span().start == self.tok_start(pos as int)
                &&& l.spec_span().end == self.tok_end(p - 1)
            },
            match r {
                Some((l, p)) => self.tt().lvalue(pos as int) == Some((lvalue_shape(l), p as int)),
                None => self.tt().lvalue(pos as int) is None,
            },
        decreases self.n() - pos, 1int,
    {
        if !self.at(pos, TokenKind::Identifier) {
            return None;
        }
        if self.at(pos + 1, TokenKind::LBracket) {
            match self.parse_array_access(pos) {
                Some((a, p)) => Some((LValue::ArrayAccess(Box::new(a)), p)),
                None => None,
            }
        } else if self.at(pos + 1, TokenKind::Dot) {
            match self.parse_scope_access(pos) {
                Some((a, p)) => Some((LValue::ScopeAccess(Box::new(a)), p)),
                None => None,
            }
        } else {
            proof {
                self.lemma_span(pos as int, pos as int);
            }
            Some((LValue::Identifier(Box::new(self.identifier(pos))), pos + 1))
        }
    }

    #[verifier::spinoff_prover]
    fn parse_statement(&self, pos: usize) -> (r: Option<(Statement, usize)>)
        requires
            self.inv(),
            pos <= self.n(),
        ensures
            r matches Some((st, p)) ==> {
                &&& pos < p <= self.n()
                &&& wf_statement(st, self.text())
                &&& st.spec_span().start == self.tok_start(pos as int)
                &&& st.spec_span().end == self.tok_end(p - 1)
            },
            match r {
                Some((st, p)) => self.tt().statement(pos as int) == Some((statement_shape(st), p as int)),
                None => self.tt().statement(pos as int) is None,
            },
        decreases self.n() - pos, 7int,
    {
        if !self.at(pos, TokenKind::Identifier) {
            return None;
        }
        if self.token_is(pos, &[105u8, 102u8]) {
            return match self.parse_condition(pos) {
                Some((c, p)) => Some((Statement::Condition(Box::new(c)), p)),
                None => None,
            };
        }
        if self.at(pos + 1, TokenKind::LParen) {
            return match self.parse_call(pos, self.comments_at(pos)) {
                Some((c, p)) => Some((Statement::Call(Box::new(c)), p)),
                None => None,
            };
        }
        let (lvalue, p) = match self.parse_lvalue(pos) {
            Some(x) => x,
            None => return None,
        };
        let op = match self.kind_at(p) {
            Some(TokenKind::Assign) => AssignOp::Assign,
            Some(TokenKind::AddAssign) => AssignOp::AddAssign,
            Some(TokenKind::SubAssign) => AssignOp::SubAssign,
            _ => return None,
        };
        let (rvalue, q) = match self.parse_expr(p + 1, 1) {
            Some(x) => x,
            None => return None,
        };
        let span = self.span_of(pos, q - 1);
        let comments = self.comments_at(pos);
        Some((Statement::Assignment(Box::new(Assignment { lvalue, op, rvalue: Box::new(rvalue), comments, span })), q))
    }

    #[verifier::spinoff_prover]
    #[verifier::rlimit(60)]
    fn parse_condition(&self, pos: usize) -> (r: Option<(Condition, usize)>)
        requires
            self.inv(),
            pos <= self.n(),
        ensures
            r matches Some((c, p)) ==> {
                &&& pos < p <= self.n()
                &&& wf_condition(c, self.text())
                &&& c.span.start == self.tok_start(pos as int)
                &&& c.span.end == self.tok_end(p - 1)
            },
            match r {
                Some((c, p)) => self.tt().condition(pos as int) == Some((condition_shape(c), p as int)),
                None => self.tt().condition(pos as int) is None,
            },
        decreases self.n() - pos, 0int,
    {
        if !self.token_is(pos, &[105u8, 102u8]) || !self.at(pos + 1, TokenKind::LParen) {
            return None;
        }
        let (condition, q) = match self.parse_expr(pos + 2, 1) {
            Some(x) => x,
            None => return None,
        };
        if !self.at(q, TokenKind::RParen) {
            return None;
        }
        let (then_block, r) = match self.parse_block(q + 1) {
            Some(x) => x,
            None => return None,
        };
        let (else_block, end) = if self.token_is(r, &[101u8, 108u8, 115u8, 101u8]) {
            if self.token_is(r + 1, &[105u8, 102u8]) {
                match self.parse_condition(r + 1) {
                    Some((c, p)) => (Some(ElseBlock::Condition(Box::new(c))), p),
                    None => return None,
                }
            } else {
                match self.parse_block(r + 1) {
                    Some((b, p)) => (Some(ElseBlock::Block(Box::new(b))), p),
                    None => return None,
                }
            }
        } else {
            (None, r)
        };
        let span = self.span_of(pos, end - 1);
        Some((Condition { condition: Box::new(condition), then_block, else_block, span }, end))
    }

    /// A closed string literal spanning `[a, b)`, with the expansions it holds.
    fn string_literal(&self, a: usize, b: usize) -> (r: StringLiteral)
        requires
            self.inv(),
            a + 2 <= b <= self.text().len(),
        ensures
            wf_string(r, self.text()),
            r.span == (Span { start: a, end: b }),
            exprs_shape(r.embedded_exprs@) == self.tt().expansions(seq![], a + 1, b - 1),
    {
        let raw_value = self.slice(a + 1, b - 1);
        let embedded_exprs = self.embedded_exprs(a + 1, b - 1);
        StringLiteral { raw_value, embedded_exprs, span: Span { start: a, end: b } }
    }

    /// End of the run of identifier bytes from `i`, not past `b`.
    fn ident_run(&self, i: usize, b: usize) -> (r: usize)
        requires
            i <= b <= self.text().len(),
        ensures
            i <= r <= b,
            r == self.tt().ident_run(i as int, b as int),
    {
        let mut k = i;
        while k < b && is_ident_byte_exec(self.src[k])
            invariant
                i <= k <= b <= self.src@.len(),
                self.tt().ident_run(k as int, b as int) == self.tt().ident_run(i as int, b as int),
            decreases b - k,
        {
            k += 1;
        }
        k
    }

    fn name_expr(&self, a: usize, b: usize) -> (r: Expr)
        requires
            a <= b <= self.text().len(),
        ensures
            wf_expr(r, self.text()),
            expr_shape(r) == crate::shape::ExprShape::Identifier(Span { start: a, end: b }),
    {
        let id = Identifier { name: self.slice(a, b), span: Span { start: a, end: b } };
        let p = PrimaryExpr::Identifier(Box::new(id));
        assert(wf_primary(p, self.src@));
        assert(crate::shape::primary_shape(p) == crate::shape::ExprShape::Identifier(Span { start: a, end: b }));
        let e = Expr::Primary(Box::new(p));
        assert(expr_shape(e) == crate::shape::primary_shape(p));
        e
    }

    /// Expansions in the body `[a, b)` of a string: `$name`, `${name}` and
    /// `${scope.name}`. Backslashes escape the next byte.
    fn embedded_exprs(&self, a: usize, b: usize) -> (r: Vec<Expr>)
        requires
            a <= b <= self.text().len(),
        ensures
            wf_exprs(r@, self.text()),
            exprs_shape(r@) == self.tt().expansions(seq![], a as int, b as int),
    {
        let ghost tt = self.tt();
        let mut out: Vec<Expr> = Vec::new();
        let mut i = a;
        assert(exprs_shape(out@) =~= Seq::<crate::shape::ExprShape>::empty());
        while i < b
            invariant
                a <= i <= b <= self.src@.len(),
                wf_exprs(out@, self.src@),
                tt == self.tt(),
                tt.src == self.src@,
                tt.expansions(exprs_shape(out@), i as int, b as int) == tt.expansions(seq![], a as int, b as int),
            decreases b - i,
        {
            let ghost acc = exprs_shape(out@);
            let ghost before = out@;
            let c = self.src[i];
            if c == BACKSLASH {
                i = if b - i >= 2 { i + 2 } else { b };
            } else if c == DOLLAR && i + 1 < b {
                let d = self.src[i + 1];
                if d == 123 {
                    let mut j = i + 2;
                    while j < b && self.src[j] != 125
                        invariant
                            i + 2 <= j <= b <= self.src@.len(),
                            tt.src == self.src@,
                            tt.close_brace(j as int, b as int) == tt.close_brace(i + 2, b as int),
                        decreases b - j,
                    {
                        j += 1;
                    }
                    if j >= b {
                        i = b;
                    } else {
                        let k = self.ident_run(i + 2, j);
                        if k > i + 2 && k == j {
                            let e = self.name_expr(i + 2, j);
                            proof {
                                lemma_wf_exprs_push(out@, e, self.src@);
                            }
                            out.push(e);
                            assert(out@.drop_last() =~= before);
                        } else if k > i + 2 && k + 1 < j && self.src[k] == DOT && self.ident_run(k + 1, j) == j {
                            let scope = Identifier { name: self.slice(i + 2, k), span: Span { start: i + 2, end: k } };
                            let member = Identifier { name: self.slice(k + 1, j), span: Span { start: k + 1, end: j } };
                            let px = PrimaryExpr::ScopeAccess(Box::new(ScopeAccess {
                                scope,
                                member,
                                span: Span { start: i + 2, end: j },
                            }));
                            assert(wf_primary(px, self.src@));
                            let e = Expr::Primary(Box::new(px));
                            assert(expr_shape(e) == crate::shape::primary_shape(px));
                            proof {
                                lemma_wf_exprs_push(out@, e, self.src@);
                            }
                            out.push(e);
                            assert(out@.drop_last() =~= before);
                        }
                        i = j + 1;
                    }
                } else if is_ident_byte_exec(d) && !(48 <= d && d <= 57) {
                    let k = self.ident_run(i + 1, b);
                    let e = self.name_expr(i + 1, k);
                    proof {
                        lemma_wf_exprs_push(out@, e, self.src@);
                    }
                    out.push(e);
                    assert(out@.drop_last() =~= before);
                    i = if k > i + 1 { k } else { i + 2 };
                } else {
                    i += 1;
                }
            } else {
                i += 1;
            }
        }
        out
    }

    /// Parses the whole text.
    fn parse_file(&self) -> (r: Block)
        requires
            self.inv(),
        ensures
            wf_block(r, self.text()),
            r.span == (Span { start: 0, end: self.text().len() as usize }),
            block_shape(r) == self.tt().file(),
    {
        let statements = match self.parse_statements(0, false) {
            Some((v, _)) => v,
            None => Vec::new(),
        };
        Block { statements, span: Span { start: 0, end: self.src.len() } }
    }
}

/// Parses GN source text. Never fails: unreadable text becomes error nodes.
pub fn parse_bytes(src: &[u8]) -> (r: Block)
    ensures
        wf_block(r, src@),
        r.span == (Span { start: 0, end: src@.len() as usize }),
        block_shape(r) == parsed(src@),
{
    let p = Parser::new(src);
    p.parse_file()
}

/// Parses GN source text. Never fails: unreadable text becomes error nodes.
pub fn parse(input: &str) -> (r: Block)
    ensures
        wf_block(r, input.spec_bytes()),
        r.span == (Span { start: 0, end: input.spec_bytes().len() as usize }),
        block_shape(r) == parsed(input.spec_bytes()),
{
    parse_bytes(input.as_bytes())
}

} // verus!
