//! Full analysis of the file being edited: every block of the syntax tree,
//! with each statement classified (assignment, condition, `declare_args`,
//! `foreach`, `forward_variables_from`, `import`, target, template, other
//! call) and joined to the blocks inside its expressions.

use std::sync::Arc;

use vstd::prelude::*;

use crate::ast::{AssignOp, Block, Call, Condition, ElseBlock, Expr, LValue, PrimaryExpr, Span, Statement};
use crate::builtins::{
    declare_args_name, foreach_name, forward_variables_from_name, import_name, is_declare_args,
    is_foreach, is_forward_variables_from, is_import, is_set_defaults, is_template, set_defaults_name,
    template_name,
};
use crate::items::{copy_lines, lines_view, FileEnvironment, TargetView, TemplateView, VariableView, scope_view};
use crate::util::is_simple_literal;
use crate::workspace::{copy_range, spec_resolve_path};

verus! {

/// The shallow analyses of imported files, by path.
pub struct ImportTable {
    pub entries: Vec<(Vec<u8>, Arc<FileEnvironment>)>,
}

/// The first entry of `entries` for `path`.
pub open spec fn table_lookup(entries: Seq<(Vec<u8>, Arc<FileEnvironment>)>, path: Seq<u8>) -> Option<
    Arc<FileEnvironment>,
>
    decreases entries.len(),
{
    if entries.len() == 0 {
        None
    } else if entries[0].0@ == path {
        Some(entries[0].1)
    } else {
        table_lookup(entries.drop_first(), path)
    }
}

/// A file environment with nothing in it: what an import of a file that the
/// table does not hold stands for.
pub open spec fn is_empty_environment(f: FileEnvironment) -> bool {
    &&& f.wf()
    &&& scope_view(f.spec_variables().locals_map()) == Map::<Seq<u8>, VariableView>::empty()
    &&& scope_view(f.spec_templates().locals_map()) == Map::<Seq<u8>, TemplateView>::empty()
    &&& scope_view(f.spec_targets().locals_map()) == Map::<Seq<u8>, TargetView>::empty()
    &&& f.spec_variables().imported_arcs().len() == 0
    &&& f.spec_templates().imported_arcs().len() == 0
    &&& f.spec_targets().imported_arcs().len() == 0
}

impl ImportTable {
    pub fn lookup(&self, path: &[u8]) -> (r: Option<&Arc<FileEnvironment>>)
        ensures
            crate::ast::opt_deref(r) == table_lookup(self.entries@, path@),
    {
        let n = self.entries.len();
        let mut i: usize = 0;
        assert(self.entries@.skip(0) =~= self.entries@);
        while i < n
            invariant
                n == self.entries@.len(),
                i <= n,
                table_lookup(self.entries@, path@) == table_lookup(self.entries@.skip(i as int), path@),
            decreases n - i,
        {
            let ghost rest = self.entries@.skip(i as int);
            assert(rest[0] == self.entries@[i as int]);
            assert(rest.drop_first() =~= self.entries@.skip(i + 1));
            if crate::storage::bytes_eq(self.entries[i].0.as_slice(), path) {
                return Some(&self.entries[i].1);
            }
            i += 1;
        }
        None
    }
}

/// What the analysis needs besides the syntax tree: the workspace root, the
/// directory of the file, and the shallow analyses of imported files.
pub struct AnalysisContext {
    pub root: Vec<u8>,
    pub dir: Vec<u8>,
    pub imports: ImportTable,
}

/// A block with its statements analyzed.
pub struct AnalyzedBlock {
    pub statements: Vec<AnalyzedStatement>,
    pub span: Span,
}

pub enum AnalyzedStatement {
    Assignment(Box<AnalyzedAssignment>),
    Conditions(Box<AnalyzedCondition>),
    DeclareArgs(Box<AnalyzedDeclareArgs>),
    Foreach(Box<AnalyzedForeach>),
    ForwardVariablesFrom(Box<AnalyzedForwardVariablesFrom>),
    Import(Box<AnalyzedImport>),
    Target(Box<AnalyzedTarget>),
    Template(Box<AnalyzedTemplate>),
    GenericCall(Box<AnalyzedGenericCall>),
    SyntheticImport(Box<SyntheticImport>),
}

/// An assignment: the statement, the variable it writes (the identifier,
/// or the array or scope written into), its comments, and the blocks in its
/// expressions.
pub struct AnalyzedAssignment {
    pub span: Span,
    /// The spans of the target and of the value, and the operator.
    pub lvalue: Span,
    pub op: AssignOp,
    pub rvalue: Span,
    pub name: Vec<u8>,
    pub primary_variable: Span,
    pub comments: Vec<Vec<u8>>,
    pub expr_scopes: Vec<AnalyzedBlock>,
    /// Whether the assignment writes a plain identifier (not an array
    /// element or a scope member).
    pub defines: bool,
    pub uses: Vec<(Vec<u8>, Span)>,
}

pub enum AnalyzedElse {
    Condition(Box<AnalyzedCondition>),
    Block(Box<AnalyzedBlock>),
}

pub struct AnalyzedCondition {
    pub span: Span,
    pub expr_scopes: Vec<AnalyzedBlock>,
    pub uses: Vec<(Vec<u8>, Span)>,
    pub then_block: AnalyzedBlock,
    pub else_block: Option<AnalyzedElse>,
}

pub struct AnalyzedDeclareArgs {
    pub call_span: Span,
    pub body_block: AnalyzedBlock,
}

pub struct AnalyzedForeach {
    pub call_span: Span,
    pub loop_variable: Vec<u8>,
    pub loop_variable_span: Span,
    pub expr_scopes: Vec<AnalyzedBlock>,
    pub body_block: AnalyzedBlock,
    pub uses: Vec<(Vec<u8>, Span)>,
}

/// A `forward_variables_from` call and the expressions it was given.
pub struct AnalyzedForwardVariablesFrom {
    pub call_span: Span,
    pub includes: Vec<(Vec<u8>, Span)>,
    pub expr_scopes: Vec<AnalyzedBlock>,
    /// The names copied, when every value of the second argument is a
    /// simple string.
    pub simple_includes: Option<Vec<Vec<u8>>>,
    pub uses: Vec<(Vec<u8>, Span)>,
}

pub struct AnalyzedImport {
    pub call_span: Span,
    pub file: Arc<FileEnvironment>,
}

/// A target declaration: the name when it is a simple string.
pub struct AnalyzedTarget {
    pub call_span: Span,
    pub name: Option<Vec<u8>>,
    pub expr_scopes: Vec<AnalyzedBlock>,
    pub body_block: AnalyzedBlock,
    pub uses: Vec<(Vec<u8>, Span)>,
}

pub struct AnalyzedTemplate {
    pub call_span: Span,
    /// The span of the `template` identifier.
    pub header: Span,
    pub name: Option<Vec<u8>>,
    pub comments: Vec<Vec<u8>>,
    pub expr_scopes: Vec<AnalyzedBlock>,
    pub body_block: AnalyzedBlock,
    pub uses: Vec<(Vec<u8>, Span)>,
}

pub struct AnalyzedGenericCall {
    pub call_span: Span,
    pub expr_scopes: Vec<AnalyzedBlock>,
    pub body_block: Option<AnalyzedBlock>,
    pub uses: Vec<(Vec<u8>, Span)>,
}

/// An import the file does not write: the build configuration file, which
/// every file sees.
pub struct SyntheticImport {
    pub file: Arc<FileEnvironment>,
    pub span: Span,
}

/// The byte strings of an optional byte vector.
pub open spec fn opt_view(o: Option<Vec<u8>>) -> Option<Seq<u8>> {
    match o {
        Some(v) => Some(v@),
        None => None,
    }
}

/// The context as plain values.
pub type Cx = (Seq<u8>, Seq<u8>, Seq<(Vec<u8>, Arc<FileEnvironment>)>);

impl AnalysisContext {
    pub open spec fn cx(&self) -> Cx {
        (self.root@, self.dir@, self.imports.entries@)
    }
}

/// The identifiers an expression reads, in order: identifiers; a call's
/// function and the identifiers of its arguments; an array and its index; a
/// scope (not its member); those inside parentheses, lists and operands.
/// Strings, integers and blocks read none.
pub open spec fn expr_uses(e: Expr) -> Seq<(Seq<u8>, Span)>
    decreases e,
{
    match e {
        Expr::Primary(p) => match *p {
            PrimaryExpr::Identifier(i) => seq![(i.name@, i.span)],
            PrimaryExpr::Call(c) => seq![(c.function.name@, c.function.span)] + exprs_uses(c.args@),
            PrimaryExpr::ArrayAccess(a) => seq![(a.array.name@, a.array.span)] + expr_uses(*a.index),
            PrimaryExpr::ScopeAccess(a) => seq![(a.scope.name@, a.scope.span)],
            PrimaryExpr::ParenExpr(x) => expr_uses(*x.expr),
            PrimaryExpr::List(l) => exprs_uses(l.values@),
            _ => seq![],
        },
        Expr::Unary(u) => expr_uses(*u.expr),
        Expr::Binary(b) => expr_uses(*b.lhs) + expr_uses(*b.rhs),
    }
}

pub open spec fn exprs_uses(es: Seq<Expr>) -> Seq<(Seq<u8>, Span)>
    decreases es,
{
    if es.len() == 0 {
        seq![]
    } else {
        expr_uses(es[0]) + exprs_uses(es.subrange(1, es.len() as int))
    }
}

/// How many blocks the analysis finds in an expression.
pub open spec fn expr_count(e: Expr) -> nat
    decreases e,
{
    match e {
        Expr::Primary(p) => match *p {
            PrimaryExpr::Block(_) => 1,
            PrimaryExpr::Call(c) => exprs_count(c.args@) + if c.block is Some {
                1nat
            } else {
                0nat
            },
            PrimaryExpr::ParenExpr(x) => expr_count(*x.expr),
            PrimaryExpr::List(l) => exprs_count(l.values@),
            _ => 0,
        },
        Expr::Unary(u) => expr_count(*u.expr),
        Expr::Binary(b) => expr_count(*b.lhs) + expr_count(*b.rhs),
    }
}

pub open spec fn exprs_count(es: Seq<Expr>) -> nat
    decreases es,
{
    if es.len() == 0 {
        0
    } else {
        expr_count(es[0]) + exprs_count(es.subrange(1, es.len() as int))
    }
}

/// `abs` are the analyses of the blocks in `e`: a block itself; a call's
/// arguments' blocks and its own block; the blocks of a parenthesized
/// expression, of a list's values, of operands. Blocks inside identifiers,
/// strings, array or scope accesses are not looked into.
pub open spec fn rel_expr(abs: Seq<AnalyzedBlock>, e: Expr, cx: Cx) -> bool
    decreases e,
{
    match e {
        Expr::Primary(p) => match *p {
            PrimaryExpr::Block(b) => abs.len() == 1 && rel_block(abs[0], *b, cx),
            PrimaryExpr::Call(c) => {
                let n = exprs_count(c.args@);
                &&& abs.len() == n + if c.block is Some {
                    1nat
                } else {
                    0nat
                }
                &&& rel_exprs(abs.take(n as int), c.args@, cx)
                &&& match c.block {
                    Some(b) => rel_block(abs[n as int], b, cx),
                    None => true,
                }
            },
            PrimaryExpr::ParenExpr(x) => rel_expr(abs, *x.expr, cx),
            PrimaryExpr::List(l) => rel_exprs(abs, l.values@, cx),
            _ => abs.len() == 0,
        },
        Expr::Unary(u) => rel_expr(abs, *u.expr, cx),
        Expr::Binary(b) => {
            let n = expr_count(*b.lhs);
            &&& abs.len() == n + expr_count(*b.rhs)
            &&& rel_expr(abs.take(n as int), *b.lhs, cx)
            &&& rel_expr(abs.skip(n as int), *b.rhs, cx)
        },
    }
}

pub open spec fn rel_exprs(abs: Seq<AnalyzedBlock>, es: Seq<Expr>, cx: Cx) -> bool
    decreases es,
{
    if es.len() == 0 {
        abs.len() == 0
    } else {
        let n = expr_count(es[0]);
        &&& n <= abs.len()
        &&& rel_expr(abs.take(n as int), es[0], cx)
        &&& rel_exprs(abs.skip(n as int), es.subrange(1, es.len() as int), cx)
    }
}

/// `ab` is the analysis of `b`: the same span, and one analyzed statement
/// for each statement that is not a syntax error, in order.
pub open spec fn rel_block(ab: AnalyzedBlock, b: Block, cx: Cx) -> bool
    decreases b,
{
    ab.span == b.span && rel_statements(ab.statements@, b.statements@, cx)
}

pub open spec fn rel_statements(abs: Seq<AnalyzedStatement>, sts: Seq<Statement>, cx: Cx) -> bool
    decreases sts,
{
    if sts.len() == 0 {
        abs.len() == 0
    } else if sts[0] is Error {
        rel_statements(abs, sts.subrange(1, sts.len() as int), cx)
    } else {
        &&& abs.len() > 0
        &&& rel_statement(abs[0], sts[0], cx)
        &&& rel_statements(abs.subrange(1, abs.len() as int), sts.subrange(1, sts.len() as int), cx)
    }
}

pub open spec fn rel_statement(a: AnalyzedStatement, st: Statement, cx: Cx) -> bool
    decreases st,
{
    match st {
        Statement::Assignment(x) => {
            let id = x.lvalue.spec_primary();
            &&& a matches AnalyzedStatement::Assignment(y)
            &&& y.span == x.span
            &&& y.lvalue == x.lvalue.spec_span()
            &&& y.op == x.op
            &&& y.rvalue == x.rvalue.spec_span()
            &&& y.name@ == id.name@
            &&& y.primary_variable == id.span
            &&& lines_view(y.comments@) == lines_view(x.comments.lines@)
            &&& y.defines == (x.lvalue is Identifier)
            &&& includes_view(y.uses@) == match x.lvalue {
                LValue::ArrayAccess(aa) => expr_uses(*aa.index) + expr_uses(*x.rvalue),
                _ => expr_uses(*x.rvalue),
            }
            &&& match x.lvalue {
                LValue::ArrayAccess(aa) => {
                    let n = expr_count(*aa.index);
                    &&& y.expr_scopes@.len() == n + expr_count(*x.rvalue)
                    &&& rel_expr(y.expr_scopes@.take(n as int), *aa.index, cx)
                    &&& rel_expr(y.expr_scopes@.skip(n as int), *x.rvalue, cx)
                },
                _ => rel_expr(y.expr_scopes@, *x.rvalue, cx),
            }
        },
        Statement::Call(c) => rel_call(a, *c, cx),
        Statement::Condition(c) => a matches AnalyzedStatement::Conditions(y) && rel_condition(*y, *c, cx),
        Statement::Error(_) => false,
    }
}

pub open spec fn rel_opt_block(ab: Option<AnalyzedBlock>, b: Option<Block>, cx: Cx) -> bool
    decreases b,
{
    match b {
        Some(b) => ab matches Some(x) && rel_block(x, b, cx),
        None => ab is None,
    }
}

/// `forward_variables_from` takes two or three arguments.
pub open spec fn forwards(c: Call) -> bool {
    c.function.name@ == forward_variables_from_name() && c.block is None && (c.args@.len() == 2
        || c.args@.len() == 3)
}

/// A well-formed `foreach`: a block, a loop variable and a list.
pub open spec fn loops(c: Call) -> bool {
    c.function.name@ == foreach_name() && c.block is Some && c.args@.len() == 2
        && c.args@[0].spec_as_identifier() is Some
}

/// The simple string names of a list of expressions, with the spans inside
/// their quotes.
pub open spec fn included_names(values: Seq<Expr>) -> Seq<(Seq<u8>, Span)>
    decreases values.len(),
{
    if values.len() == 0 {
        seq![]
    } else {
        let rest = included_names(values.drop_first());
        match values[0].spec_as_primary_string() {
            Some(s) => if is_simple_literal(s.raw_value@) && s.span.start + 2 <= s.span.end {
                seq![(s.raw_value@, Span { start: (s.span.start + 1) as usize, end: (s.span.end - 1) as usize })]
                    + rest
            } else {
                rest
            },
            None => rest,
        }
    }
}

/// The names a `forward_variables_from` call copies: the simple strings of
/// its second argument when that is a list.
pub open spec fn forwarded_names(c: Call) -> Seq<(Seq<u8>, Span)> {
    match c.args@[1].spec_as_primary_list() {
        Some(l) => included_names(l.values@),
        None => seq![],
    }
}

pub open spec fn includes_view(v: Seq<(Vec<u8>, Span)>) -> Seq<(Seq<u8>, Span)> {
    v.map_values(|p: (Vec<u8>, Span)| (p.0@, p.1))
}

pub open spec fn opt_names(o: Option<Vec<Vec<u8>>>) -> Option<Seq<Seq<u8>>> {
    match o {
        Some(v) => Some(v@.map_values(|x: Vec<u8>| x@)),
        None => None,
    }
}

/// The file an `import` of `name` stands for.
pub open spec fn rel_import(file: Arc<FileEnvironment>, name: Seq<u8>, cx: Cx) -> bool {
    match table_lookup(cx.2, spec_resolve_path(name, cx.0, cx.1)) {
        Some(f) => file == f,
        None => is_empty_environment(*file),
    }
}

/// How the analysis classifies a call, in this order: `declare_args` with a
/// block; `foreach` with a block (a well-formed one, else an ordinary call);
/// `forward_variables_from` without a block (with two or three arguments,
/// else an ordinary call); `import` without a block (of a simple string,
/// else an ordinary call); `template` with a block (with one argument, else
/// an ordinary call); any other call with a block but `set_defaults` (a
/// target when it has one argument, else an ordinary call); any other call.
pub open spec fn rel_call(a: AnalyzedStatement, c: Call, cx: Cx) -> bool
    decreases c,
{
    let f = c.function.name@;
    if f == declare_args_name() && c.block is Some {
        a matches AnalyzedStatement::DeclareArgs(y) && y.call_span == c.span && rel_block(
            y.body_block,
            c.block.unwrap(),
            cx,
        )
    } else if f == foreach_name() && c.block is Some && loops(c) {
        let id = c.args@[0].spec_as_identifier().unwrap();
        &&& a matches AnalyzedStatement::Foreach(y)
        &&& y.call_span == c.span
        &&& y.loop_variable@ == id.name@
        &&& y.loop_variable_span == id.span
        &&& rel_exprs(y.expr_scopes@, c.args@.subrange(1, 2), cx)
        &&& rel_block(y.body_block, c.block.unwrap(), cx)
        &&& includes_view(y.uses@) == expr_uses(c.args@[1])
    } else if forwards(c) {
        &&& a matches AnalyzedStatement::ForwardVariablesFrom(y)
        &&& y.call_span == c.span
        &&& includes_view(y.includes@) == forwarded_names(c)
        &&& rel_exprs(y.expr_scopes@, c.args@, cx)
        &&& includes_view(y.uses@) == exprs_uses(c.args@)
        &&& opt_names(y.simple_includes) == c.args@[1].spec_as_simple_string_list()
    } else if f == import_name() && c.block is None && crate::shallow::only_simple_string(c) is Some {
        a matches AnalyzedStatement::Import(y) && y.call_span == c.span && rel_import(
            y.file,
            crate::shallow::only_simple_string(c).unwrap(),
            cx,
        )
    } else if f == template_name() && c.block is Some && c.spec_only_arg() is Some {
        &&& a matches AnalyzedStatement::Template(y)
        &&& y.call_span == c.span
        &&& y.header == c.function.span
        &&& opt_view(y.name) == c.spec_only_arg().unwrap().spec_as_simple_string()
        &&& lines_view(y.comments@) == lines_view(c.comments.lines@)
        &&& rel_exprs(y.expr_scopes@, c.args@, cx)
        &&& rel_block(y.body_block, c.block.unwrap(), cx)
        &&& includes_view(y.uses@) == exprs_uses(c.args@)
    } else if f != foreach_name() && f != template_name() && f != set_defaults_name() && c.block is Some
        && c.spec_only_arg() is Some {
        &&& a matches AnalyzedStatement::Target(y)
        &&& y.call_span == c.span
        &&& opt_view(y.name) == c.spec_only_arg().unwrap().spec_as_simple_string()
        &&& rel_exprs(y.expr_scopes@, c.args@, cx)
        &&& rel_block(y.body_block, c.block.unwrap(), cx)
        &&& includes_view(y.uses@) == exprs_uses(c.args@)
    } else {
        &&& a matches AnalyzedStatement::GenericCall(y)
        &&& y.call_span == c.span
        &&& rel_exprs(y.expr_scopes@, c.args@, cx)
        &&& rel_opt_block(y.body_block, c.block, cx)
        &&& includes_view(y.uses@) == seq![(c.function.name@, c.function.span)] + exprs_uses(c.args@)
    }
}

pub open spec fn rel_condition(y: AnalyzedCondition, c: Condition, cx: Cx) -> bool
    decreases c,
{
    &&& y.span == c.span
    &&& rel_expr(y.expr_scopes@, *c.condition, cx)
    &&& includes_view(y.uses@) == expr_uses(*c.condition)
    &&& rel_block(y.then_block, c.then_block, cx)
    &&& match c.else_block {
        None => y.else_block is None,
        Some(ElseBlock::Condition(n)) => y.else_block matches Some(AnalyzedElse::Condition(z)) && rel_condition(
            *z,
            *n,
            cx,
        ),
        Some(ElseBlock::Block(b)) => y.else_block matches Some(AnalyzedElse::Block(z)) && rel_block(*z, *b, cx),
    }
}


proof fn lemma_rel_exprs_push(a: Seq<AnalyzedBlock>, s: Seq<Expr>, b: Seq<AnalyzedBlock>, e: Expr, cx: Cx)
    requires
        rel_exprs(a, s, cx),
        a.len() == exprs_count(s),
        rel_expr(b, e, cx),
        b.len() == expr_count(e),
    ensures
        rel_exprs(a + b, s.push(e), cx),
        exprs_count(s.push(e)) == exprs_count(s) + expr_count(e),
    decreases s.len(),
{
    let t = s.push(e);
    let empty_e = Seq::<Expr>::empty();
    let empty_b = Seq::<AnalyzedBlock>::empty();
    assert(exprs_count(empty_e) == 0);
    assert(rel_exprs(empty_b, empty_e, cx));
    if s.len() == 0 {
        assert(a.len() == 0);
        assert(t[0] == e);
        assert(a + b =~= b);
        assert(b.take(b.len() as int) =~= b);
        assert(b.skip(b.len() as int) =~= empty_b);
        assert(t.subrange(1, t.len() as int) =~= empty_e);
        assert(exprs_count(t) == expr_count(e) + exprs_count(empty_e));
        assert(rel_exprs(a + b, t, cx));
    } else {
        let n0 = expr_count(s[0]);
        let tail = s.subrange(1, s.len() as int);
        assert(exprs_count(s) == n0 + exprs_count(tail));
        assert(rel_expr(a.take(n0 as int), s[0], cx));
        assert(rel_exprs(a.skip(n0 as int), tail, cx));
        lemma_rel_exprs_push(a.skip(n0 as int), tail, b, e, cx);
        assert(t[0] == s[0]);
        assert(t.subrange(1, t.len() as int) =~= tail.push(e));
        assert((a + b).take(n0 as int) =~= a.take(n0 as int));
        assert((a + b).skip(n0 as int) =~= a.skip(n0 as int) + b);
        assert(exprs_count(t) == n0 + exprs_count(tail.push(e)));
        assert(rel_exprs(a + b, t, cx));
    }
}

proof fn lemma_rel_statements_push(
    abs: Seq<AnalyzedStatement>,
    sts: Seq<Statement>,
    a: AnalyzedStatement,
    st: Statement,
    cx: Cx,
)
    requires
        rel_statements(abs, sts, cx),
        !(st is Error) ==> rel_statement(a, st, cx),
    ensures
        st is Error ==> rel_statements(abs, sts.push(st), cx),
        !(st is Error) ==> rel_statements(abs.push(a), sts.push(st), cx),
    decreases sts.len(),
{
    let t = sts.push(st);
    let empty_s = Seq::<Statement>::empty();
    let empty_a = Seq::<AnalyzedStatement>::empty();
    assert(rel_statements(empty_a, empty_s, cx));
    if sts.len() == 0 {
        assert(abs.len() == 0);
        assert(abs =~= empty_a);
        assert(t[0] == st);
        assert(t.subrange(1, t.len() as int) =~= empty_s);
        assert(abs.push(a).subrange(1, 1) =~= empty_a);
        assert(abs.push(a)[0] == a);
        if st is Error {
            assert(rel_statements(abs, t, cx));
        } else {
            assert(rel_statements(abs.push(a), t, cx));
        }
    } else {
        let tail = sts.subrange(1, sts.len() as int);
        assert(t[0] == sts[0]);
        assert(t.subrange(1, t.len() as int) =~= tail.push(st));
        if sts[0] is Error {
            assert(rel_statements(abs, tail, cx));
            lemma_rel_statements_push(abs, tail, a, st, cx);
        } else {
            let atail = abs.subrange(1, abs.len() as int);
            assert(rel_statements(atail, tail, cx));
            lemma_rel_statements_push(atail, tail, a, st, cx);
            assert(abs.push(a).subrange(1, abs.len() as int + 1) =~= atail.push(a));
            assert(abs.push(a)[0] == abs[0]);
            if st is Error {
                assert(rel_statements(abs, t, cx));
            } else {
                assert(rel_statements(abs.push(a), t, cx));
            }
        }
    }
}

/// The simple strings among `values`, with the spans inside their quotes.
fn included(values: &Vec<Expr>) -> (r: Vec<(Vec<u8>, Span)>)
    ensures
        includes_view(r@) == included_names(values@),
{
    let n = values.len();
    let mut out: Vec<(Vec<u8>, Span)> = Vec::new();
    let mut i: usize = 0;
    assert(values@.skip(0) =~= values@);
    assert(includes_view(out@) =~= Seq::<(Seq<u8>, Span)>::empty());
    while i < n
        invariant
            n == values@.len(),
            i <= n,
            includes_view(out@) + included_names(values@.skip(i as int)) == included_names(values@),
        decreases n - i,
    {
        let ghost rest = values@.skip(i as int);
        assert(rest[0] == values@[i as int]);
        assert(rest.drop_first() =~= values@.skip(i + 1));
        let ghost before = includes_view(out@);
        if let Some(s) = values[i].as_primary_string() {
            if crate::util::parse_simple_literal(s.raw_value.as_slice()).is_some() && s.span.start < s.span.end
                && s.span.end - s.span.start >= 2 {
                let name = copy_range(s.raw_value.as_slice(), 0, s.raw_value.len());
                assert(name@ =~= s.raw_value@);
                out.push((name, Span { start: s.span.start + 1, end: s.span.end - 1 }));
                assert(includes_view(out@) =~= before.push(
                    (s.raw_value@, Span { start: (s.span.start + 1) as usize, end: (s.span.end - 1) as usize }),
                ));
                assert(before + included_names(rest) =~= includes_view(out@) + included_names(rest.drop_first()));
            }
        }
        i += 1;
    }
    assert(values@.skip(n as int) =~= Seq::<Expr>::empty());
    assert(includes_view(out@) + Seq::<(Seq<u8>, Span)>::empty() =~= includes_view(out@));
    out
}

/// Appends the identifiers `e` reads.
fn collect_uses(e: &Expr, out: &mut Vec<(Vec<u8>, Span)>)
    ensures
        includes_view(final(out)@) == includes_view(old(out)@) + expr_uses(*e),
    decreases *e, 0nat,
{
    let ghost start = includes_view(out@);
    match e {
        Expr::Primary(p) => match &**p {
            PrimaryExpr::Identifier(i) => {
                push_use(out, &i.name, i.span);
            },
            PrimaryExpr::Call(c) => {
                push_use(out, &c.function.name, c.function.span);
                collect_uses_all(&c.args, out);
            },
            PrimaryExpr::ArrayAccess(a) => {
                push_use(out, &a.array.name, a.array.span);
                collect_uses(&a.index, out);
            },
            PrimaryExpr::ScopeAccess(a) => {
                push_use(out, &a.scope.name, a.scope.span);
            },
            PrimaryExpr::ParenExpr(x) => collect_uses(&x.expr, out),
            PrimaryExpr::List(l) => collect_uses_all(&l.values, out),
            _ => {},
        },
        Expr::Unary(u) => collect_uses(&u.expr, out),
        Expr::Binary(b) => {
            collect_uses(&b.lhs, out);
            collect_uses(&b.rhs, out);
        },
    }
    assert(includes_view(out@) =~= start + expr_uses(*e));
}

/// Appends the identifiers `es` read, in order.
fn collect_uses_all(es: &Vec<Expr>, out: &mut Vec<(Vec<u8>, Span)>)
    ensures
        includes_view(final(out)@) == includes_view(old(out)@) + exprs_uses(es@),
    decreases es@, 1nat,
{
    let n = es.len();
    let mut i: usize = 0;
    let ghost start = includes_view(out@);
    assert(es@.subrange(0, n as int) =~= es@);
    while i < n
        invariant
            n == es@.len(),
            i <= n,
            start + exprs_uses(es@) == includes_view(out@) + exprs_uses(es@.subrange(i as int, n as int)),
        decreases n - i,
    {
        let ghost rest = es@.subrange(i as int, n as int);
        assert(rest[0] == es@[i as int]);
        assert(rest.subrange(1, rest.len() as int) =~= es@.subrange(i + 1, n as int));
        proof {
            assert(decreases_to!(es@ => es@[i as int]));
        }
        let ghost before = includes_view(out@);
        collect_uses(&es[i], out);
        assert(before + exprs_uses(rest) =~= includes_view(out@) + exprs_uses(rest.subrange(1, rest.len() as int)));
        i += 1;
    }
    assert(exprs_uses(es@.subrange(n as int, n as int)) =~= Seq::<(Seq<u8>, Span)>::empty());
    assert(includes_view(out@) + Seq::<(Seq<u8>, Span)>::empty() =~= includes_view(out@));
}

fn push_use(out: &mut Vec<(Vec<u8>, Span)>, name: &Vec<u8>, span: Span)
    ensures
        includes_view(final(out)@) == includes_view(old(out)@).push((name@, span)),
{
    let v = copy_range(name.as_slice(), 0, name.len());
    assert(v@ =~= name@);
    let ghost before = out@;
    out.push((v, span));
    assert(includes_view(out@) =~= includes_view(before).push((name@, span)));
}

fn uses_of(e: &Expr) -> (r: Vec<(Vec<u8>, Span)>)
    ensures
        includes_view(r@) == expr_uses(*e),
{
    let mut out: Vec<(Vec<u8>, Span)> = Vec::new();
    assert(includes_view(out@) =~= Seq::<(Seq<u8>, Span)>::empty());
    collect_uses(e, &mut out);
    assert(Seq::<(Seq<u8>, Span)>::empty() + expr_uses(*e) =~= expr_uses(*e));
    out
}

fn uses_of_all(es: &Vec<Expr>) -> (r: Vec<(Vec<u8>, Span)>)
    ensures
        includes_view(r@) == exprs_uses(es@),
{
    let mut out: Vec<(Vec<u8>, Span)> = Vec::new();
    assert(includes_view(out@) =~= Seq::<(Seq<u8>, Span)>::empty());
    collect_uses_all(es, &mut out);
    assert(Seq::<(Seq<u8>, Span)>::empty() + exprs_uses(es@) =~= exprs_uses(es@));
    out
}

/// The simple strings of a list, owned.
fn simple_list(e: &Expr) -> (r: Option<Vec<Vec<u8>>>)
    ensures
        opt_names(r) == e.spec_as_simple_string_list(),
{
    match e.as_simple_string_list() {
        Some(v) => {
            let mut out: Vec<Vec<u8>> = Vec::new();
            let mut i: usize = 0;
            while i < v.len()
                invariant
                    i <= v@.len(),
                    out@.len() == i,
                    out@.map_values(|x: Vec<u8>| x@) == v@.take(i as int).map_values(|x: &[u8]| x@),
                decreases v.len() - i,
            {
                let c = copy_range(v[i], 0, v[i].len());
                assert(c@ =~= v@[i as int]@);
                let ghost before = out@;
                out.push(c);
                proof {
                    let a = out@.map_values(|x: Vec<u8>| x@);
                    let b = v@.take(i + 1).map_values(|x: &[u8]| x@);
                    assert forall|j: int| 0 <= j < a.len() implies a[j] == b[j] by {
                        if j < i {
                            assert(out@[j] == before[j]);
                            assert(before.map_values(|x: Vec<u8>| x@)[j] == v@.take(i as int).map_values(|x: &[u8]| x@)[j]);
                        }
                    }
                    assert(a =~= b);
                }
                i += 1;
            }
            assert(v@.take(v@.len() as int) =~= v@);
            Some(out)
        },
        None => None,
    }
}

impl AnalysisContext {
    /// The analyses of the blocks in `e`.
    fn analyze_expr(&self, e: &Expr) -> (r: Vec<AnalyzedBlock>)
        ensures
            rel_expr(r@, *e, self.cx()),
            r@.len() == expr_count(*e),
        decreases *e, 0nat,
    {
        match e {
            Expr::Primary(p) => match &**p {
                PrimaryExpr::Block(b) => {
                    let ab = self.analyze_block(b);
                    let r = vec![ab];
                    assert(r@[0] == ab);
                    r
                },
                PrimaryExpr::Call(c) => {
                    let mut r = self.analyze_exprs(&c.args);
                    let ghost n = r@.len();
                    let ghost first = r@;
                    match &c.block {
                        Some(b) => {
                            let ab = self.analyze_block(b);
                            r.push(ab);
                            assert(r@.take(n as int) =~= first);
                            assert(r@[n as int] == ab);
                        },
                        None => {
                            assert(r@.take(n as int) =~= r@);
                        },
                    }
                    r
                },
                PrimaryExpr::ParenExpr(x) => self.analyze_expr(&x.expr),
                PrimaryExpr::List(l) => self.analyze_exprs(&l.values),
                _ => Vec::new(),
            },
            Expr::Unary(u) => self.analyze_expr(&u.expr),
            Expr::Binary(b) => {
                let mut l = self.analyze_expr(&b.lhs);
                let mut rr = self.analyze_expr(&b.rhs);
                let ghost lv = l@;
                let ghost rv = rr@;
                l.append(&mut rr);
                assert(l@.take(lv.len() as int) =~= lv);
                assert(l@.skip(lv.len() as int) =~= rv);
                l
            },
        }
    }

    /// The analyses of the blocks in `es`, in order.
    fn analyze_exprs(&self, es: &Vec<Expr>) -> (r: Vec<AnalyzedBlock>)
        ensures
            rel_exprs(r@, es@, self.cx()),
            r@.len() == exprs_count(es@),
        decreases es@, 1nat,
    {
        let n = es.len();
        let mut out: Vec<AnalyzedBlock> = Vec::new();
        let mut i: usize = 0;
        assert(es@.take(0) =~= Seq::<Expr>::empty());
        while i < n
            invariant
                n == es@.len(),
                i <= n,
                rel_exprs(out@, es@.take(i as int), self.cx()),
                out@.len() == exprs_count(es@.take(i as int)),
            decreases n - i,
        {
            proof {
                assert(decreases_to!(es@ => es@[i as int]));
            }
            let mut blocks = self.analyze_expr(&es[i]);
            let ghost a = out@;
            let ghost b = blocks@;
            proof {
                lemma_rel_exprs_push(a, es@.take(i as int), b, es@[i as int], self.cx());
            }
            out.append(&mut blocks);
            assert(es@.take(i + 1) =~= es@.take(i as int).push(es@[i as int]));
            i += 1;
        }
        assert(es@.take(n as int) =~= es@);
        out
    }

    /// The analysis of `b`.
    pub fn analyze_block(&self, b: &Block) -> (r: AnalyzedBlock)
        ensures
            rel_block(r, *b, self.cx()),
        decreases *b, 0nat,
    {
        let n = b.statements.len();
        let mut statements: Vec<AnalyzedStatement> = Vec::new();
        let mut i: usize = 0;
        assert(b.statements@.take(0) =~= Seq::<Statement>::empty());
        while i < n
            invariant
                n == b.statements@.len(),
                i <= n,
                rel_statements(statements@, b.statements@.take(i as int), self.cx()),
            decreases n - i,
        {
            proof {
                assert(decreases_to!(*b => b.statements));
                assert(decreases_to!(b.statements => b.statements@));
                assert(decreases_to!(b.statements@ => b.statements@[i as int]));
            }
            let st = &b.statements[i];
            let ghost before = statements@;
            let analyzed: Option<AnalyzedStatement> = match st {
                Statement::Assignment(x) => {
                    let id = x.lvalue.primary();
                    let mut scopes = match &x.lvalue {
                        LValue::ArrayAccess(aa) => self.analyze_expr(&aa.index),
                        _ => Vec::new(),
                    };
                    let ghost left = scopes@;
                    let mut rhs = self.analyze_expr(&x.rvalue);
                    let ghost right = rhs@;
                    scopes.append(&mut rhs);
                    proof {
                        if x.lvalue is ArrayAccess {
                            assert(scopes@.take(left.len() as int) =~= left);
                            assert(scopes@.skip(left.len() as int) =~= right);
                        } else {
                            assert(scopes@ =~= right);
                        }
                    }
                    let name = copy_range(id.name.as_slice(), 0, id.name.len());
                    assert(name@ =~= id.name@);
                    let mut uses = match &x.lvalue {
                        LValue::ArrayAccess(aa) => uses_of(&aa.index),
                        _ => {
                            let v: Vec<(Vec<u8>, Span)> = Vec::new();
                            assert(includes_view(v@) =~= Seq::<(Seq<u8>, Span)>::empty());
                            v
                        },
                    };
                    let ghost ul = includes_view(uses@);
                    collect_uses(&x.rvalue, &mut uses);
                    proof {
                        if !(x.lvalue is ArrayAccess) {
                            assert(includes_view(uses@) =~= expr_uses(*x.rvalue));
                        }
                    }
                    let defines = match &x.lvalue {
                        LValue::Identifier(_) => true,
                        _ => false,
                    };
                    Some(
                        AnalyzedStatement::Assignment(
                            Box::new(
                                AnalyzedAssignment {
                                    span: x.span,
                                    lvalue: x.lvalue.span(),
                                    op: x.op,
                                    rvalue: x.rvalue.span(),
                                    name,
                                    primary_variable: id.span,
                                    comments: copy_lines(&x.comments),
                                    expr_scopes: scopes,
                                    defines,
                                    uses,
                                },
                            ),
                        ),
                    )
                },
                Statement::Call(c) => Some(self.analyze_call(c)),
                Statement::Condition(c) => Some(AnalyzedStatement::Conditions(Box::new(self.analyze_condition(c)))),
                Statement::Error(_) => None,
            };
            match analyzed {
                Some(a) => {
                    proof {
                        lemma_rel_statements_push(before, b.statements@.take(i as int), a, *st, self.cx());
                    }
                    statements.push(a);
                },
                None => {
                    proof {
                        lemma_rel_statements_push(before, b.statements@.take(i as int), statements@[0], *st, self.cx());
                    }
                },
            }
            assert(b.statements@.take(i + 1) =~= b.statements@.take(i as int).push(*st));
            i += 1;
        }
        assert(b.statements@.take(n as int) =~= b.statements@);
        AnalyzedBlock { statements, span: b.span }
    }

    /// The analysis of a condition and of its `else` chain.
    fn analyze_condition(&self, c: &Condition) -> (r: AnalyzedCondition)
        ensures
            rel_condition(r, *c, self.cx()),
        decreases *c, 0nat,
    {
        let expr_scopes = self.analyze_expr(&c.condition);
        let then_block = self.analyze_block(&c.then_block);
        let else_block = match &c.else_block {
            None => None,
            Some(ElseBlock::Condition(n)) => Some(AnalyzedElse::Condition(Box::new(self.analyze_condition(n)))),
            Some(ElseBlock::Block(b)) => Some(AnalyzedElse::Block(Box::new(self.analyze_block(b)))),
        };
        AnalyzedCondition { span: c.span, expr_scopes, uses: uses_of(&c.condition), then_block, else_block }
    }

    /// The analysis of a call, classified as `rel_call` says.
    fn analyze_call(&self, c: &Call) -> (r: AnalyzedStatement)
        ensures
            rel_call(r, *c, self.cx()),
        decreases *c, 0nat,
    {
        let f = c.function.name.as_slice();
        if is_declare_args(f) && c.block.is_some() {
            let body_block = match &c.block {
                Some(b) => self.analyze_block(b),
                None => AnalyzedBlock { statements: Vec::new(), span: c.span },
            };
            return AnalyzedStatement::DeclareArgs(Box::new(AnalyzedDeclareArgs { call_span: c.span, body_block }));
        }
        if is_foreach(f) && c.block.is_some() && c.args.len() == 2 {
            if let Some(id) = c.args[0].as_identifier() {
                let expr_scopes = self.analyze_expr(&c.args[1]);
                proof {
                    let s = c.args@.subrange(1, 2);
                    assert(s[0] == c.args@[1]);
                    assert(s.subrange(1, 1) =~= Seq::<Expr>::empty());
                    assert(expr_scopes@.take(expr_scopes@.len() as int) =~= expr_scopes@);
                    assert(expr_scopes@.skip(expr_scopes@.len() as int) =~= Seq::<AnalyzedBlock>::empty());
                }
                let body_block = match &c.block {
                    Some(b) => self.analyze_block(b),
                    None => AnalyzedBlock { statements: Vec::new(), span: c.span },
                };
                let loop_variable = copy_range(id.name.as_slice(), 0, id.name.len());
                assert(loop_variable@ =~= id.name@);
                return AnalyzedStatement::Foreach(
                    Box::new(
                        AnalyzedForeach {
                            call_span: c.span,
                            loop_variable,
                            loop_variable_span: id.span,
                            expr_scopes,
                            body_block,
                            uses: uses_of(&c.args[1]),
                        },
                    ),
                );
            }
        }
        if is_forward_variables_from(f) && c.block.is_none() && (c.args.len() == 2 || c.args.len() == 3) {
            let expr_scopes = self.analyze_exprs(&c.args);
            let includes = match c.args[1].as_primary_list() {
                Some(l) => included(&l.values),
                None => {
                    let v: Vec<(Vec<u8>, Span)> = Vec::new();
                    assert(includes_view(v@) =~= Seq::<(Seq<u8>, Span)>::empty());
                    v
                },
            };
            return AnalyzedStatement::ForwardVariablesFrom(
                Box::new(
                    AnalyzedForwardVariablesFrom {
                        call_span: c.span,
                        includes,
                        expr_scopes,
                        simple_includes: simple_list(&c.args[1]),
                        uses: uses_of_all(&c.args),
                    },
                ),
            );
        }
        if is_import(f) && c.block.is_none() {
            if let Some(name) = crate::shallow::only_simple(c) {
                let path = crate::workspace::resolve_path(name, self.root.as_slice(), self.dir.as_slice());
                let file = match self.imports.lookup(path.as_slice()) {
                    Some(found) => Arc::clone(found),
                    None => Arc::new(FileEnvironment::new()),
                };
                return AnalyzedStatement::Import(Box::new(AnalyzedImport { call_span: c.span, file }));
            }
        }
        if is_template(f) && c.block.is_some() {
            if let Some(name_expr) = c.only_arg() {
                let expr_scopes = self.analyze_exprs(&c.args);
                let body_block = match &c.block {
                    Some(b) => self.analyze_block(b),
                    None => AnalyzedBlock { statements: Vec::new(), span: c.span },
                };
                let name = match name_expr.as_simple_string() {
                    Some(n) => {
                        let v = copy_range(n, 0, n.len());
                        assert(v@ =~= n@);
                        Some(v)
                    },
                    None => None,
                };
                return AnalyzedStatement::Template(
                    Box::new(
                        AnalyzedTemplate {
                            call_span: c.span,
                            header: c.function.span,
                            name,
                            comments: copy_lines(&c.comments),
                            expr_scopes,
                            body_block,
                            uses: uses_of_all(&c.args),
                        },
                    ),
                );
            }
        }
        if !is_foreach(f) && !is_template(f) && !is_set_defaults(f) && c.block.is_some() {
            if let Some(name_expr) = c.only_arg() {
                let expr_scopes = self.analyze_exprs(&c.args);
                let body_block = match &c.block {
                    Some(b) => self.analyze_block(b),
                    None => AnalyzedBlock { statements: Vec::new(), span: c.span },
                };
                let name = match name_expr.as_simple_string() {
                    Some(n) => {
                        let v = copy_range(n, 0, n.len());
                        assert(v@ =~= n@);
                        Some(v)
                    },
                    None => None,
                };
                return AnalyzedStatement::Target(
                    Box::new(
                        AnalyzedTarget {
                            call_span: c.span,
                            name,
                            expr_scopes,
                            body_block,
                            uses: uses_of_all(&c.args),
                        },
                    ),
                );
            }
        }
        let expr_scopes = self.analyze_exprs(&c.args);
        let body_block = match &c.block {
            Some(b) => Some(self.analyze_block(b)),
            None => None,
        };
        let mut uses: Vec<(Vec<u8>, Span)> = Vec::new();
        push_use(&mut uses, &c.function.name, c.function.span);
        let ghost first = includes_view(uses@);
        collect_uses_all(&c.args, &mut uses);
        assert(first =~= seq![(c.function.name@, c.function.span)]);
        AnalyzedStatement::GenericCall(
            Box::new(AnalyzedGenericCall { call_span: c.span, expr_scopes, body_block, uses }),
        )
    }
}


/// The paths, resolved against `root` and `dir`, that the `import` calls
/// among `sts` name (at any depth: in nested blocks, call arguments and
/// expressions), in order.
pub open spec fn imports_in_statements(sts: Seq<Statement>, root: Seq<u8>, dir: Seq<u8>) -> Seq<Seq<u8>>
    decreases sts,
{
    if sts.len() == 0 {
        seq![]
    } else {
        imports_in_statement(sts[0], root, dir) + imports_in_statements(sts.subrange(1, sts.len() as int), root, dir)
    }
}

pub open spec fn imports_in_statement(st: Statement, root: Seq<u8>, dir: Seq<u8>) -> Seq<Seq<u8>>
    decreases st,
{
    match st {
        Statement::Assignment(a) => match a.lvalue {
            LValue::ArrayAccess(aa) => imports_in_expr(*aa.index, root, dir) + imports_in_expr(*a.rvalue, root, dir),
            _ => imports_in_expr(*a.rvalue, root, dir),
        },
        Statement::Call(c) => imports_in_call(*c, root, dir),
        Statement::Condition(c) => imports_in_condition(*c, root, dir),
        Statement::Error(_) => seq![],
    }
}

pub open spec fn imports_in_call(c: Call, root: Seq<u8>, dir: Seq<u8>) -> Seq<Seq<u8>>
    decreases c,
{
    let own = if c.function.name@ == import_name() {
        match crate::shallow::only_simple_string(c) {
            Some(n) => seq![spec_resolve_path(n, root, dir)],
            None => seq![],
        }
    } else {
        seq![]
    };
    own + imports_in_exprs(c.args@, root, dir) + match c.block {
        Some(b) => imports_in_statements(b.statements@, root, dir),
        None => seq![],
    }
}

pub open spec fn imports_in_condition(c: Condition, root: Seq<u8>, dir: Seq<u8>) -> Seq<Seq<u8>>
    decreases c,
{
    imports_in_expr(*c.condition, root, dir) + imports_in_statements(c.then_block.statements@, root, dir)
        + match c.else_block {
        Some(ElseBlock::Condition(n)) => imports_in_condition(*n, root, dir),
        Some(ElseBlock::Block(b)) => imports_in_statements(b.statements@, root, dir),
        None => seq![],
    }
}

pub open spec fn imports_in_exprs(es: Seq<Expr>, root: Seq<u8>, dir: Seq<u8>) -> Seq<Seq<u8>>
    decreases es,
{
    if es.len() == 0 {
        seq![]
    } else {
        imports_in_expr(es[0], root, dir) + imports_in_exprs(es.subrange(1, es.len() as int), root, dir)
    }
}

pub open spec fn imports_in_expr(e: Expr, root: Seq<u8>, dir: Seq<u8>) -> Seq<Seq<u8>>
    decreases e,
{
    match e {
        Expr::Primary(p) => match *p {
            PrimaryExpr::Block(b) => imports_in_statements(b.statements@, root, dir),
            PrimaryExpr::Call(c) => imports_in_call(*c, root, dir),
            PrimaryExpr::ParenExpr(x) => imports_in_expr(*x.expr, root, dir),
            PrimaryExpr::List(l) => imports_in_exprs(l.values@, root, dir),
            PrimaryExpr::ArrayAccess(a) => imports_in_expr(*a.index, root, dir),
            _ => seq![],
        },
        Expr::Unary(u) => imports_in_expr(*u.expr, root, dir),
        Expr::Binary(b) => imports_in_expr(*b.lhs, root, dir) + imports_in_expr(*b.rhs, root, dir),
    }
}

/// Byte vectors by view.
pub open spec fn paths_view(v: Seq<Vec<u8>>) -> Seq<Seq<u8>> {
    v.map_values(|p: Vec<u8>| p@)
}

/// The paths of the files that the `import` calls of `b` name, at any depth
/// and in order, for the caller to analyze before the full analysis.
pub fn import_requests(b: &Block, root: &[u8], dir: &[u8]) -> (r: Vec<Vec<u8>>)
    ensures
        paths_view(r@) == imports_in_statements(b.statements@, root@, dir@),
{
    let mut out: Vec<Vec<u8>> = Vec::new();
    requests_in_statements(&b.statements, root, dir, &mut out);
    assert(paths_view(out@) =~= Seq::<Seq<u8>>::empty() + imports_in_statements(b.statements@, root@, dir@));
    out
}

fn requests_in_statements(sts: &Vec<Statement>, root: &[u8], dir: &[u8], out: &mut Vec<Vec<u8>>)
    ensures
        paths_view(final(out)@) == paths_view(old(out)@) + imports_in_statements(sts@, root@, dir@),
    decreases sts@, 1nat,
{
    let ghost start = paths_view(out@);
    let mut i: usize = 0;
    assert(sts@.subrange(0, sts@.len() as int) =~= sts@);
    assert(paths_view(out@) =~= start);
    while i < sts.len()
        invariant
            i <= sts@.len(),
            paths_view(out@) + imports_in_statements(sts@.subrange(i as int, sts@.len() as int), root@, dir@)
                == start + imports_in_statements(sts@, root@, dir@),
        decreases sts.len() - i,
    {
        proof {
            assert(decreases_to!(sts@ => sts@[i as int]));
        }
        let ghost before = paths_view(out@);
        let ghost rest = sts@.subrange(i as int, sts@.len() as int);
        assert(rest[0] == sts@[i as int]);
        assert(rest.subrange(1, rest.len() as int) =~= sts@.subrange(i + 1, sts@.len() as int));
        requests_in_statement(&sts[i], root, dir, out);
        assert(paths_view(out@) + imports_in_statements(sts@.subrange(i + 1, sts@.len() as int), root@, dir@)
            =~= before + imports_in_statements(rest, root@, dir@));
        i += 1;
    }
    assert(sts@.subrange(i as int, sts@.len() as int) =~= Seq::<Statement>::empty());
    assert(paths_view(out@) + Seq::<Seq<u8>>::empty() =~= paths_view(out@));
}

fn requests_in_statement(st: &Statement, root: &[u8], dir: &[u8], out: &mut Vec<Vec<u8>>)
    ensures
        paths_view(final(out)@) == paths_view(old(out)@) + imports_in_statement(*st, root@, dir@),
    decreases *st, 0nat,
{
    let ghost start = paths_view(out@);
    match st {
        Statement::Assignment(a) => {
            match &a.lvalue {
                LValue::ArrayAccess(aa) => {
                    requests_in_expr(&aa.index, root, dir, out);
                    requests_in_expr(&a.rvalue, root, dir, out);
                    assert(paths_view(out@) =~= start + (imports_in_expr(*aa.index, root@, dir@) + imports_in_expr(
                        *a.rvalue,
                        root@,
                        dir@,
                    )));
                },
                _ => requests_in_expr(&a.rvalue, root, dir, out),
            }
        },
        Statement::Call(c) => requests_in_call(c, root, dir, out),
        Statement::Condition(c) => requests_in_condition(c, root, dir, out),
        Statement::Error(_) => {
            assert(paths_view(out@) =~= start + Seq::<Seq<u8>>::empty());
        },
    }
}

fn requests_in_call(c: &Call, root: &[u8], dir: &[u8], out: &mut Vec<Vec<u8>>)
    ensures
        paths_view(final(out)@) == paths_view(old(out)@) + imports_in_call(*c, root@, dir@),
    decreases *c, 0nat,
{
    let ghost start = paths_view(out@);
    if is_import(c.function.name.as_slice()) {
        if let Some(name) = crate::shallow::only_simple(c) {
            let p = crate::workspace::resolve_path(name, root, dir);
            let ghost before = out@;
            out.push(p);
            assert(paths_view(out@) =~= paths_view(before).push(p@));
        }
    }
    let ghost own = paths_view(out@);
    assert(own =~= start + if c.function.name@ == import_name() {
        match crate::shallow::only_simple_string(*c) {
            Some(n) => seq![spec_resolve_path(n, root@, dir@)],
            None => Seq::<Seq<u8>>::empty(),
        }
    } else {
        Seq::<Seq<u8>>::empty()
    });
    requests_in_exprs(&c.args, root, dir, out);
    let ghost mid = paths_view(out@);
    match &c.block {
        Some(b) => {
            proof {
                assert(decreases_to!(*c => c.block));
            }
            requests_in_statements(&b.statements, root, dir, out);
        },
        None => {},
    }
    assert(paths_view(out@) =~= start + imports_in_call(*c, root@, dir@));
}

fn requests_in_exprs(es: &Vec<Expr>, root: &[u8], dir: &[u8], out: &mut Vec<Vec<u8>>)
    ensures
        paths_view(final(out)@) == paths_view(old(out)@) + imports_in_exprs(es@, root@, dir@),
    decreases es@, 1nat,
{
    let ghost start = paths_view(out@);
    let mut i: usize = 0;
    assert(es@.subrange(0, es@.len() as int) =~= es@);
    assert(paths_view(out@) =~= start);
    while i < es.len()
        invariant
            i <= es@.len(),
            paths_view(out@) + imports_in_exprs(es@.subrange(i as int, es@.len() as int), root@, dir@) == start
                + imports_in_exprs(es@, root@, dir@),
        decreases es.len() - i,
    {
        proof {
            assert(decreases_to!(es@ => es@[i as int]));
        }
        let ghost before = paths_view(out@);
        let ghost rest = es@.subrange(i as int, es@.len() as int);
        assert(rest[0] == es@[i as int]);
        assert(rest.subrange(1, rest.len() as int) =~= es@.subrange(i + 1, es@.len() as int));
        requests_in_expr(&es[i], root, dir, out);
        assert(paths_view(out@) + imports_in_exprs(es@.subrange(i + 1, es@.len() as int), root@, dir@)
            =~= before + imports_in_exprs(rest, root@, dir@));
        i += 1;
    }
    assert(es@.subrange(i as int, es@.len() as int) =~= Seq::<Expr>::empty());
    assert(paths_view(out@) + Seq::<Seq<u8>>::empty() =~= paths_view(out@));
}

fn requests_in_condition(c: &Condition, root: &[u8], dir: &[u8], out: &mut Vec<Vec<u8>>)
    ensures
        paths_view(final(out)@) == paths_view(old(out)@) + imports_in_condition(*c, root@, dir@),
    decreases *c, 0nat,
{
    let ghost start = paths_view(out@);
    requests_in_expr(&c.condition, root, dir, out);
    requests_in_statements(&c.then_block.statements, root, dir, out);
    let ghost mid = paths_view(out@);
    match &c.else_block {
        Some(ElseBlock::Condition(n)) => requests_in_condition(n, root, dir, out),
        Some(ElseBlock::Block(b)) => requests_in_statements(&b.statements, root, dir, out),
        None => {},
    }
    assert(paths_view(out@) =~= start + imports_in_condition(*c, root@, dir@));
}

fn requests_in_expr(e: &Expr, root: &[u8], dir: &[u8], out: &mut Vec<Vec<u8>>)
    ensures
        paths_view(final(out)@) == paths_view(old(out)@) + imports_in_expr(*e, root@, dir@),
    decreases *e, 0nat,
{
    let ghost start = paths_view(out@);
    match e {
        Expr::Primary(p) => match &**p {
            PrimaryExpr::Block(b) => requests_in_statements(&b.statements, root, dir, out),
            PrimaryExpr::Call(c) => requests_in_call(c, root, dir, out),
            PrimaryExpr::ParenExpr(x) => requests_in_expr(&x.expr, root, dir, out),
            PrimaryExpr::List(l) => requests_in_exprs(&l.values, root, dir, out),
            PrimaryExpr::ArrayAccess(a) => requests_in_expr(&a.index, root, dir, out),
            _ => {
                assert(paths_view(out@) =~= start + Seq::<Seq<u8>>::empty());
            },
        },
        Expr::Unary(u) => requests_in_expr(&u.expr, root, dir, out),
        Expr::Binary(b) => {
            requests_in_expr(&b.lhs, root, dir, out);
            requests_in_expr(&b.rhs, root, dir, out);
            assert(paths_view(out@) =~= start + (imports_in_expr(*b.lhs, root@, dir@) + imports_in_expr(
                *b.rhs,
                root@,
                dir@,
            )));
        },
    }
}

} // verus!
