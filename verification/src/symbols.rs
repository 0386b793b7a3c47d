//! The outline of a file: assignments, calls with blocks, and conditions,
//! nested as they are in the text.

use vstd::prelude::*;

use crate::ast::{AssignOp, Assignment, Block, Call, Condition, ElseBlock, Expr, PrimaryExpr, Span, Statement};
use crate::workspace::{append_bytes, copy_range};

verus! {

#[derive(Clone, Copy, Debug, PartialEq, Eq, Structural)]
pub enum SymbolKind {
    Variable,
    Function,
    Namespace,
}

/// An entry of the outline: its name, kind, the text it covers, the part to
/// select, and the entries inside it.
pub struct DocumentSymbol {
    pub name: Vec<u8>,
    pub kind: SymbolKind,
    pub range: Span,
    pub selection_range: Span,
    pub children: Vec<DocumentSymbol>,
}

/// The text of `sp`, when it lies inside `text`.
pub open spec fn span_text(text: Seq<u8>, sp: Span) -> Seq<u8> {
    if sp.start <= sp.end && sp.end <= text.len() {
        text.subrange(sp.start as int, sp.end as int)
    } else {
        seq![]
    }
}

pub open spec fn op_text(op: AssignOp) -> Seq<u8> {
    match op {
        AssignOp::Assign => seq![61u8],
        AssignOp::AddAssign => seq![43u8, 61u8],
        AssignOp::SubAssign => seq![45u8, 61u8],
    }
}

/// `<lvalue> <op> ...`
pub open spec fn assignment_name(a: Assignment, text: Seq<u8>) -> Seq<u8> {
    span_text(text, a.lvalue.spec_span()) + seq![32u8] + op_text(a.op) + seq![32u8, 46u8, 46u8, 46u8]
}

/// `f()`, `f("name")` or `f(...)`.
pub open spec fn call_name(c: Call) -> Seq<u8> {
    c.function.name@ + if c.args@.len() == 0 {
        seq![40u8, 41u8]
    } else {
        match c.spec_only_arg() {
            Some(e) => match e.spec_as_primary_string() {
                Some(s) => seq![40u8, 34u8] + s.raw_value@ + seq![34u8, 41u8],
                None => seq![40u8, 46u8, 46u8, 46u8, 41u8],
            },
            None => seq![40u8, 46u8, 46u8, 46u8, 41u8],
        }
    }
}

/// `if (<condition>)`
pub open spec fn if_name(c: Condition, text: Seq<u8>) -> Seq<u8> {
    seq![105u8, 102u8, 32u8, 40u8] + span_text(text, c.condition.spec_span()) + seq![41u8]
}

/// `else if (<condition>)`
pub open spec fn else_if_name(c: Condition, text: Seq<u8>) -> Seq<u8> {
    seq![101u8, 108u8, 115u8, 101u8, 32u8, 105u8, 102u8, 32u8, 40u8] + span_text(text, c.condition.spec_span()) + seq![41u8]
}

pub open spec fn else_name() -> Seq<u8> {
    seq![101u8, 108u8, 115u8, 101u8]
}

/// How many entries a statement makes: one, but none for a call without a
/// block or an error.
pub open spec fn statement_count(st: Statement) -> nat {
    match st {
        Statement::Assignment(_) => 1,
        Statement::Call(c) => if c.block is Some {
            1
        } else {
            0
        },
        Statement::Condition(_) => 1,
        Statement::Error(_) => 0,
    }
}

pub open spec fn statements_count(sts: Seq<Statement>) -> nat
    decreases sts.len(),
{
    if sts.len() == 0 {
        0
    } else {
        statement_count(sts[0]) + statements_count(sts.drop_first())
    }
}

/// How many entries the statements of the blocks inside an expression make.
pub open spec fn expr_syms_count(e: Expr) -> nat
    decreases e,
{
    match e {
        Expr::Primary(p) => match *p {
            PrimaryExpr::String(s) => exprs_syms_count(s.embedded_exprs@),
            PrimaryExpr::Call(c) => exprs_syms_count(c.args@) + match c.block {
                Some(b) => statements_count(b.statements@),
                None => 0,
            },
            PrimaryExpr::ArrayAccess(a) => expr_syms_count(*a.index),
            PrimaryExpr::Block(b) => statements_count(b.statements@),
            PrimaryExpr::ParenExpr(x) => expr_syms_count(*x.expr),
            PrimaryExpr::List(l) => exprs_syms_count(l.values@),
            _ => 0,
        },
        Expr::Unary(u) => expr_syms_count(*u.expr),
        Expr::Binary(b) => expr_syms_count(*b.lhs) + expr_syms_count(*b.rhs),
    }
}

pub open spec fn exprs_syms_count(es: Seq<Expr>) -> nat
    decreases es,
{
    if es.len() == 0 {
        0
    } else {
        expr_syms_count(es[0]) + exprs_syms_count(es.subrange(1, es.len() as int))
    }
}

/// `syms` is the outline of the statements `sts`.
pub open spec fn rel_statements_syms(syms: Seq<DocumentSymbol>, sts: Seq<Statement>, text: Seq<u8>) -> bool
    decreases sts,
{
    if sts.len() == 0 {
        syms.len() == 0
    } else {
        let n = statement_count(sts[0]);
        &&& n <= syms.len()
        &&& rel_statement_syms(syms.take(n as int), sts[0], text)
        &&& rel_statements_syms(syms.skip(n as int), sts.subrange(1, sts.len() as int), text)
    }
}

pub open spec fn rel_statement_syms(syms: Seq<DocumentSymbol>, st: Statement, text: Seq<u8>) -> bool
    decreases st,
{
    match st {
        Statement::Assignment(a) => syms.len() == 1 && {
            let s = syms[0];
            &&& s.name@ == assignment_name(*a, text)
            &&& s.kind == SymbolKind::Variable
            &&& s.range == a.span
            &&& s.selection_range == a.lvalue.spec_span()
            &&& rel_expr_syms(s.children@, *a.rvalue, text)
        },
        Statement::Call(c) => match c.block {
            Some(b) => syms.len() == 1 && {
                let s = syms[0];
                &&& s.name@ == call_name(*c)
                &&& s.kind == SymbolKind::Function
                &&& s.range == c.span
                &&& s.selection_range == c.function.span
                &&& rel_statements_syms(s.children@, b.statements@, text)
            },
            None => syms.len() == 0,
        },
        Statement::Condition(c) => syms.len() == 1 && {
            let s = syms[0];
            &&& s.name@ == if_name(*c, text)
            &&& s.kind == SymbolKind::Namespace
            &&& s.range == c.span
            &&& s.selection_range == c.condition.spec_span()
            &&& rel_condition_children(s.children@, *c, text)
        },
        Statement::Error(_) => syms.len() == 0,
    }
}

/// The entries inside a condition: those of its block, then one for its
/// `else if` (holding the rest of the chain) or its `else`.
pub open spec fn rel_condition_children(syms: Seq<DocumentSymbol>, c: Condition, text: Seq<u8>) -> bool
    decreases c,
{
    let n = statements_count(c.then_block.statements@);
    &&& rel_statements_syms(syms.take(n as int), c.then_block.statements@, text)
    &&& match c.else_block {
        None => syms.len() == n,
        Some(ElseBlock::Condition(next)) => syms.len() == n + 1 && {
            let s = syms[n as int];
            &&& s.name@ == else_if_name(*next, text)
            &&& s.kind == SymbolKind::Namespace
            &&& s.range == next.span
            &&& s.selection_range == next.condition.spec_span()
            &&& rel_condition_children(s.children@, *next, text)
        },
        Some(ElseBlock::Block(b)) => syms.len() == n + 1 && {
            let s = syms[n as int];
            &&& s.name@ == else_name()
            &&& s.kind == SymbolKind::Namespace
            &&& s.range == b.span
            &&& s.selection_range == b.span
            &&& rel_statements_syms(s.children@, b.statements@, text)
        },
    }
}

/// `syms` is the outline of the statements of the blocks inside `e`.
pub open spec fn rel_expr_syms(syms: Seq<DocumentSymbol>, e: Expr, text: Seq<u8>) -> bool
    decreases e,
{
    match e {
        Expr::Primary(p) => match *p {
            PrimaryExpr::String(s) => rel_exprs_syms(syms, s.embedded_exprs@, text),
            PrimaryExpr::Call(c) => {
                let n = exprs_syms_count(c.args@);
                &&& n <= syms.len()
                &&& rel_exprs_syms(syms.take(n as int), c.args@, text)
                &&& match c.block {
                    Some(b) => rel_statements_syms(syms.skip(n as int), b.statements@, text),
                    None => syms.len() == n,
                }
            },
            PrimaryExpr::ArrayAccess(a) => rel_expr_syms(syms, *a.index, text),
            PrimaryExpr::Block(b) => rel_statements_syms(syms, b.statements@, text),
            PrimaryExpr::ParenExpr(x) => rel_expr_syms(syms, *x.expr, text),
            PrimaryExpr::List(l) => rel_exprs_syms(syms, l.values@, text),
            _ => syms.len() == 0,
        },
        Expr::Unary(u) => rel_expr_syms(syms, *u.expr, text),
        Expr::Binary(b) => {
            let n = expr_syms_count(*b.lhs);
            &&& n <= syms.len()
            &&& rel_expr_syms(syms.take(n as int), *b.lhs, text)
            &&& rel_expr_syms(syms.skip(n as int), *b.rhs, text)
        },
    }
}

pub open spec fn rel_exprs_syms(syms: Seq<DocumentSymbol>, es: Seq<Expr>, text: Seq<u8>) -> bool
    decreases es,
{
    if es.len() == 0 {
        syms.len() == 0
    } else {
        let n = expr_syms_count(es[0]);
        &&& n <= syms.len()
        &&& rel_expr_syms(syms.take(n as int), es[0], text)
        &&& rel_exprs_syms(syms.skip(n as int), es.subrange(1, es.len() as int), text)
    }
}


fn span_text_exec(text: &[u8], sp: Span) -> (r: Vec<u8>)
    ensures
        r@ == span_text(text@, sp),
{
    if sp.start <= sp.end && sp.end <= text.len() {
        copy_range(text, sp.start, sp.end)
    } else {
        Vec::new()
    }
}

fn lit(out: &mut Vec<u8>, s: &[u8])
    ensures
        final(out)@ == old(out)@ + s@,
{
    append_bytes(out, s);
}

proof fn lemma_statements_push(
    syms: Seq<DocumentSymbol>,
    sts: Seq<Statement>,
    more: Seq<DocumentSymbol>,
    st: Statement,
    text: Seq<u8>,
)
    requires
        rel_statements_syms(syms, sts, text),
        syms.len() == statements_count(sts),
        rel_statement_syms(more, st, text),
        more.len() == statement_count(st),
    ensures
        rel_statements_syms(syms + more, sts.push(st), text),
        statements_count(sts.push(st)) == statements_count(sts) + statement_count(st),
    decreases sts.len(),
{
    let t = sts.push(st);
    assert(t.subrange(1, t.len() as int) =~= t.drop_first());
    if sts.len() == 0 {
        assert(syms.len() == 0);
        assert(t[0] == st);
        assert(syms + more =~= more);
        assert(more.take(more.len() as int) =~= more);
        assert(more.skip(more.len() as int) =~= Seq::<DocumentSymbol>::empty());
        assert(t.drop_first() =~= Seq::<Statement>::empty());
        assert(statements_count(t.drop_first()) == 0);
        assert(rel_statements_syms(Seq::<DocumentSymbol>::empty(), Seq::<Statement>::empty(), text));
        assert(rel_statements_syms(syms + more, t, text));
    } else {
        let n0 = statement_count(sts[0]);
        let tail = sts.subrange(1, sts.len() as int);
        assert(tail =~= sts.drop_first());
        assert(statements_count(sts) == n0 + statements_count(tail));
        lemma_statements_push(syms.skip(n0 as int), tail, more, st, text);
        assert(t[0] == sts[0]);
        assert(t.subrange(1, t.len() as int) =~= tail.push(st));
        assert((syms + more).take(n0 as int) =~= syms.take(n0 as int));
        assert((syms + more).skip(n0 as int) =~= syms.skip(n0 as int) + more);
        assert(statements_count(t) == n0 + statements_count(tail.push(st)));
        assert(rel_statements_syms(syms + more, t, text));
    }
}

proof fn lemma_exprs_push(
    syms: Seq<DocumentSymbol>,
    es: Seq<Expr>,
    more: Seq<DocumentSymbol>,
    e: Expr,
    text: Seq<u8>,
)
    requires
        rel_exprs_syms(syms, es, text),
        syms.len() == exprs_syms_count(es),
        rel_expr_syms(more, e, text),
        more.len() == expr_syms_count(e),
    ensures
        rel_exprs_syms(syms + more, es.push(e), text),
        exprs_syms_count(es.push(e)) == exprs_syms_count(es) + expr_syms_count(e),
    decreases es.len(),
{
    let t = es.push(e);
    if es.len() == 0 {
        assert(syms.len() == 0);
        assert(t[0] == e);
        assert(syms + more =~= more);
        assert(more.take(more.len() as int) =~= more);
        assert(more.skip(more.len() as int) =~= Seq::<DocumentSymbol>::empty());
        assert(t.subrange(1, t.len() as int) =~= Seq::<Expr>::empty());
        assert(exprs_syms_count(Seq::<Expr>::empty()) == 0);
        assert(rel_exprs_syms(Seq::<DocumentSymbol>::empty(), Seq::<Expr>::empty(), text));
        assert(rel_exprs_syms(syms + more, t, text));
    } else {
        let n0 = expr_syms_count(es[0]);
        let tail = es.subrange(1, es.len() as int);
        assert(exprs_syms_count(es) == n0 + exprs_syms_count(tail));
        lemma_exprs_push(syms.skip(n0 as int), tail, more, e, text);
        assert(t[0] == es[0]);
        assert(t.subrange(1, t.len() as int) =~= tail.push(e));
        assert((syms + more).take(n0 as int) =~= syms.take(n0 as int));
        assert((syms + more).skip(n0 as int) =~= syms.skip(n0 as int) + more);
        assert(exprs_syms_count(t) == n0 + exprs_syms_count(tail.push(e)));
        assert(rel_exprs_syms(syms + more, t, text));
    }
}

/// The outline of the statements `sts` of a file with text `text`.
pub fn collect_symbols(sts: &Vec<Statement>, text: &[u8]) -> (r: Vec<DocumentSymbol>)
    ensures
        rel_statements_syms(r@, sts@, text@),
        r@.len() == statements_count(sts@),
    decreases sts@, 1nat,
{
    let n = sts.len();
    let mut out: Vec<DocumentSymbol> = Vec::new();
    let mut i: usize = 0;
    assert(sts@.take(0) =~= Seq::<Statement>::empty());
    assert(rel_statements_syms(out@, Seq::<Statement>::empty(), text@));
    while i < n
        invariant
            n == sts@.len(),
            i <= n,
            rel_statements_syms(out@, sts@.take(i as int), text@),
            out@.len() == statements_count(sts@.take(i as int)),
        decreases n - i,
    {
        proof {
            assert(decreases_to!(sts@ => sts@[i as int]));
        }
        let mut more = statement_symbols(&sts[i], text);
        let ghost a = out@;
        let ghost b = more@;
        proof {
            lemma_statements_push(a, sts@.take(i as int), b, sts@[i as int], text@);
        }
        out.append(&mut more);
        assert(sts@.take(i + 1) =~= sts@.take(i as int).push(sts@[i as int]));
        i += 1;
    }
    assert(sts@.take(n as int) =~= sts@);
    out
}

fn statement_symbols(st: &Statement, text: &[u8]) -> (r: Vec<DocumentSymbol>)
    ensures
        rel_statement_syms(r@, *st, text@),
        r@.len() == statement_count(*st),
    decreases *st, 0nat,
{
    match st {
        Statement::Assignment(a) => {
            let mut name = span_text_exec(text, a.lvalue.span());
            name.push(32u8);
            let op: &[u8] = match a.op {
                AssignOp::Assign => &[61u8],
                AssignOp::AddAssign => &[43u8, 61u8],
                AssignOp::SubAssign => &[45u8, 61u8],
            };
            assert(op@ =~= op_text(a.op));
            lit(&mut name, op);
            let dots: &[u8] = &[32u8, 46u8, 46u8, 46u8];
            assert(dots@ =~= seq![32u8, 46u8, 46u8, 46u8]);
            lit(&mut name, dots);
            assert(name@ =~= assignment_name(**a, text@));
            let children = expr_symbols(&a.rvalue, text);
            let s = DocumentSymbol {
                name,
                kind: SymbolKind::Variable,
                range: a.span,
                selection_range: a.lvalue.span(),
                children,
            };
            let r = vec![s];
            assert(r@[0] == s);
            r
        },
        Statement::Call(c) => match &c.block {
            Some(b) => {
                let mut name = copy_range(c.function.name.as_slice(), 0, c.function.name.len());
                assert(name@ =~= c.function.name@);
                if c.args.len() == 0 {
                    let p: &[u8] = &[40u8, 41u8];
                    assert(p@ =~= seq![40u8, 41u8]);
                    lit(&mut name, p);
                } else {
                    let quoted = match c.only_arg() {
                        Some(e) => e.as_primary_string(),
                        None => None,
                    };
                    match quoted {
                        Some(sl) => {
                            let o: &[u8] = &[40u8, 34u8];
                            assert(o@ =~= seq![40u8, 34u8]);
                            lit(&mut name, o);
                            lit(&mut name, sl.raw_value.as_slice());
                            let cl: &[u8] = &[34u8, 41u8];
                            assert(cl@ =~= seq![34u8, 41u8]);
                            lit(&mut name, cl);
                        },
                        None => {
                            let e: &[u8] = &[40u8, 46u8, 46u8, 46u8, 41u8];
                            assert(e@ =~= seq![40u8, 46u8, 46u8, 46u8, 41u8]);
                            lit(&mut name, e);
                        },
                    }
                }
                assert(name@ =~= call_name(**c));
                let children = collect_symbols(&b.statements, text);
                let s = DocumentSymbol {
                    name,
                    kind: SymbolKind::Function,
                    range: c.span,
                    selection_range: c.function.span,
                    children,
                };
                let r = vec![s];
                assert(r@[0] == s);
                r
            },
            None => Vec::new(),
        },
        Statement::Condition(c) => {
            let mut name: Vec<u8> = Vec::new();
            let i: &[u8] = &[105u8, 102u8, 32u8, 40u8];
            assert(i@ =~= seq![105u8, 102u8, 32u8, 40u8]);
            lit(&mut name, i);
            let cond = span_text_exec(text, c.condition.span());
            lit(&mut name, cond.as_slice());
            name.push(41u8);
            assert(name@ =~= if_name(**c, text@));
            let children = condition_children(c, text);
            let s = DocumentSymbol {
                name,
                kind: SymbolKind::Namespace,
                range: c.span,
                selection_range: c.condition.span(),
                children,
            };
            let r = vec![s];
            assert(r@[0] == s);
            r
        },
        Statement::Error(_) => Vec::new(),
    }
}

fn condition_children(c: &Condition, text: &[u8]) -> (r: Vec<DocumentSymbol>)
    ensures
        rel_condition_children(r@, *c, text@),
    decreases *c, 0nat,
{
    let mut out = collect_symbols(&c.then_block.statements, text);
    let ghost n = out@.len();
    let ghost first = out@;
    match &c.else_block {
        None => {
            assert(out@.take(n as int) =~= out@);
        },
        Some(ElseBlock::Condition(next)) => {
            let mut name: Vec<u8> = Vec::new();
            let e: &[u8] = &[101u8, 108u8, 115u8, 101u8, 32u8, 105u8, 102u8, 32u8, 40u8];
            assert(e@ =~= seq![101u8, 108u8, 115u8, 101u8, 32u8, 105u8, 102u8, 32u8, 40u8]);
            lit(&mut name, e);
            let cond = span_text_exec(text, next.condition.span());
            lit(&mut name, cond.as_slice());
            name.push(41u8);
            assert(name@ =~= else_if_name(**next, text@));
            let children = condition_children(next, text);
            let s = DocumentSymbol {
                name,
                kind: SymbolKind::Namespace,
                range: next.span,
                selection_range: next.condition.span(),
                children,
            };
            out.push(s);
            assert(out@.take(n as int) =~= first);
            assert(out@[n as int] == s);
        },
        Some(ElseBlock::Block(b)) => {
            let e: &[u8] = &[101u8, 108u8, 115u8, 101u8];
            let mut name: Vec<u8> = Vec::new();
            lit(&mut name, e);
            assert(name@ =~= else_name());
            let children = collect_symbols(&b.statements, text);
            let s = DocumentSymbol { name, kind: SymbolKind::Namespace, range: b.span, selection_range: b.span, children };
            out.push(s);
            assert(out@.take(n as int) =~= first);
            assert(out@[n as int] == s);
        },
    }
    out
}

fn expr_symbols(e: &Expr, text: &[u8]) -> (r: Vec<DocumentSymbol>)
    ensures
        rel_expr_syms(r@, *e, text@),
        r@.len() == expr_syms_count(*e),
    decreases *e, 0nat,
{
    match e {
        Expr::Primary(p) => match &**p {
            PrimaryExpr::String(s) => exprs_symbols(&s.embedded_exprs, text),
            PrimaryExpr::Call(c) => {
                let mut r = exprs_symbols(&c.args, text);
                let ghost n = r@.len();
                let ghost first = r@;
                match &c.block {
                    Some(b) => {
                        let mut more = collect_symbols(&b.statements, text);
                        let ghost m = more@;
                        r.append(&mut more);
                        assert(r@.take(n as int) =~= first);
                        assert(r@.skip(n as int) =~= m);
                    },
                    None => {
                        assert(r@.take(n as int) =~= r@);
                    },
                }
                r
            },
            PrimaryExpr::ArrayAccess(a) => expr_symbols(&a.index, text),
            PrimaryExpr::Block(b) => collect_symbols(&b.statements, text),
            PrimaryExpr::ParenExpr(x) => expr_symbols(&x.expr, text),
            PrimaryExpr::List(l) => exprs_symbols(&l.values, text),
            _ => Vec::new(),
        },
        Expr::Unary(u) => expr_symbols(&u.expr, text),
        Expr::Binary(b) => {
            let mut l = expr_symbols(&b.lhs, text);
            let mut rr = expr_symbols(&b.rhs, text);
            let ghost lv = l@;
            let ghost rv = rr@;
            l.append(&mut rr);
            assert(l@.take(lv.len() as int) =~= lv);
            assert(l@.skip(lv.len() as int) =~= rv);
            l
        },
    }
}

fn exprs_symbols(es: &Vec<Expr>, text: &[u8]) -> (r: Vec<DocumentSymbol>)
    ensures
        rel_exprs_syms(r@, es@, text@),
        r@.len() == exprs_syms_count(es@),
    decreases es@, 1nat,
{
    let n = es.len();
    let mut out: Vec<DocumentSymbol> = Vec::new();
    let mut i: usize = 0;
    assert(es@.take(0) =~= Seq::<Expr>::empty());
    assert(rel_exprs_syms(out@, Seq::<Expr>::empty(), text@));
    while i < n
        invariant
            n == es@.len(),
            i <= n,
            rel_exprs_syms(out@, es@.take(i as int), text@),
            out@.len() == exprs_syms_count(es@.take(i as int)),
        decreases n - i,
    {
        proof {
            assert(decreases_to!(es@ => es@[i as int]));
        }
        let mut more = expr_symbols(&es[i], text);
        let ghost a = out@;
        let ghost b = more@;
        proof {
            lemma_exprs_push(a, es@.take(i as int), b, es@[i as int], text@);
        }
        out.append(&mut more);
        assert(es@.take(i + 1) =~= es@.take(i as int).push(es@[i as int]));
        i += 1;
    }
    assert(es@.take(n as int) =~= es@);
    out
}

} // verus!
