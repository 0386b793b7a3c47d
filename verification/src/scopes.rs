//! The names visible at a position of the file being edited: variables and
//! templates defined at the file's level (with those of imported files), and
//! those of the blocks around the position.

use std::sync::Arc;

use vstd::prelude::*;

use crate::analyzed::{
    includes_view, AnalyzedBlock, AnalyzedCondition, AnalyzedElse, AnalyzedStatement,
};
use crate::ast::Span;
use crate::items::{
    lines_view, scope_view, copy_lines, AssignmentSite, AssignmentView, Target, TargetScope, TargetView, Template,
    TemplateScope, TemplateView, VariableAssignment, VariableScope, VariableView,
};
use crate::shallow::{record, settle};
use crate::workspace::copy_range;

verus! {

impl AnalyzedStatement {
    pub open spec fn spec_span(&self) -> Span {
        match self {
            AnalyzedStatement::Assignment(a) => a.span,
            AnalyzedStatement::Conditions(c) => c.span,
            AnalyzedStatement::DeclareArgs(d) => d.call_span,
            AnalyzedStatement::Foreach(f) => f.call_span,
            AnalyzedStatement::ForwardVariablesFrom(f) => f.call_span,
            AnalyzedStatement::Import(i) => i.call_span,
            AnalyzedStatement::Target(t) => t.call_span,
            AnalyzedStatement::Template(t) => t.call_span,
            AnalyzedStatement::GenericCall(g) => g.call_span,
            AnalyzedStatement::SyntheticImport(s) => s.span,
        }
    }

    pub fn span(&self) -> (r: Span)
        ensures
            r == self.spec_span(),
    {
        match self {
            AnalyzedStatement::Assignment(a) => a.span,
            AnalyzedStatement::Conditions(c) => c.span,
            AnalyzedStatement::DeclareArgs(d) => d.call_span,
            AnalyzedStatement::Foreach(f) => f.call_span,
            AnalyzedStatement::ForwardVariablesFrom(f) => f.call_span,
            AnalyzedStatement::Import(i) => i.call_span,
            AnalyzedStatement::Target(t) => t.call_span,
            AnalyzedStatement::Template(t) => t.call_span,
            AnalyzedStatement::GenericCall(g) => g.call_span,
            AnalyzedStatement::SyntheticImport(s) => s.span,
        }
    }
}

/// `pos` lies strictly inside `b`.
pub open spec fn encloses(b: AnalyzedBlock, pos: usize) -> bool {
    b.span.start < pos && pos < b.span.end
}

/// `vars` with each of the names a `forward_variables_from` call copies
/// recorded as set by the call.
pub open spec fn record_includes(
    vars: Map<Seq<u8>, VariableView>,
    incs: Seq<(Seq<u8>, Span)>,
    path: Seq<u8>,
    call_span: Span,
    is_args: bool,
) -> Map<Seq<u8>, VariableView>
    decreases incs.len(),
{
    if incs.len() == 0 {
        vars
    } else {
        record_includes(
            record(vars, incs[0].0, is_args, (path, AssignmentSite::Forward, call_span, incs[0].1, seq![])),
            incs.drop_first(),
            path,
            call_span,
            is_args,
        )
    }
}

/// Records each name a `forward_variables_from` call copies.
fn record_includes_exec(vars: &mut VariableScope, incs: &Vec<(Vec<u8>, Span)>, path: &[u8], call_span: Span, is_args: bool)
    requires
        old(vars).wf(),
    ensures
        final(vars).wf(),
        scope_view(final(vars).locals_map()) == record_includes(
            scope_view(old(vars).locals_map()),
            includes_view(incs@),
            path@,
            call_span,
            is_args,
        ),
        final(vars).imported_arcs() == old(vars).imported_arcs(),
{
    let n = incs.len();
    let ghost all = includes_view(incs@);
    let ghost target = record_includes(scope_view(vars.locals_map()), all, path@, call_span, is_args);
    let mut i: usize = 0;
    assert(all.skip(0) =~= all);
    while i < n
        invariant
            n == incs@.len(),
            all == includes_view(incs@),
            i <= n,
            vars.wf(),
            vars.imported_arcs() == old(vars).imported_arcs(),
            target == record_includes(scope_view(vars.locals_map()), all.skip(i as int), path@, call_span, is_args),
        decreases n - i,
    {
        let ghost rest = all.skip(i as int);
        assert(rest[0] == all[i as int]);
        assert(rest.drop_first() =~= all.skip(i + 1));
        let a = VariableAssignment {
            path: copy_range(path, 0, path.len()),
            site: AssignmentSite::Forward,
            statement_span: call_span,
            primary_variable: incs[i].1,
            comments: Vec::new(),
        };
        assert(path@.subrange(0, path@.len() as int) =~= path@);
        assert(lines_view(a.comments@) =~= Seq::<Seq<u8>>::empty());
        crate::shallow::record_assignment(vars, incs[i].0.as_slice(), is_args, a);
        i += 1;
    }
}

pub type VarsState = (Map<Seq<u8>, VariableView>, Seq<usize>, Seq<Arc<VariableScope>>);

pub type VarsScope = (Map<Seq<u8>, VariableView>, Seq<Arc<VariableScope>>);
/// One statement of the first pass of `variables_at`: assignments,
/// `foreach` loop variables and `forward_variables_from` names are
/// recorded (as arguments inside `declare_args`); imports are imported.
pub open spec fn vars_step(s: VarsState, st: AnalyzedStatement, path: Seq<u8>) -> VarsState {
    let stack = settle(s.1, st.spec_span().start);
    let is_args = stack.len() > 0;
    match st {
        AnalyzedStatement::Assignment(a) => (
            record(s.0, a.name@, is_args, (path, AssignmentSite::Assignment { lvalue: a.lvalue, op: a.op, rvalue: a.rvalue }, a.span, a.primary_variable, lines_view(a.comments@))),
            stack,
            s.2,
        ),
        AnalyzedStatement::Foreach(f) => (
            record(s.0, f.loop_variable@, is_args, (path, AssignmentSite::Foreach, f.call_span, f.loop_variable_span, seq![])),
            stack,
            s.2,
        ),
        AnalyzedStatement::ForwardVariablesFrom(f) => (
            record_includes(s.0, includes_view(f.includes@), path, f.call_span, is_args),
            stack,
            s.2,
        ),
        AnalyzedStatement::Import(i) => (s.0, stack, s.2.push(i.file.spec_variables())),
        AnalyzedStatement::SyntheticImport(i) => (s.0, stack, s.2.push(i.file.spec_variables())),
        AnalyzedStatement::DeclareArgs(d) => (s.0, stack.push(d.call_span.end), s.2),
        _ => (s.0, stack, s.2),
    }
}
/// The first pass over statements at a block's level, in order: each
/// statement, then the statements at the same level inside it.
pub open spec fn vars_walk(sts: Seq<AnalyzedStatement>, s: VarsState, path: Seq<u8>) -> VarsState
    decreases sts, 1nat,
{
    if sts.len() == 0 {
        s
    } else {
        vars_walk(sts.subrange(1, sts.len() as int), vars_inner(sts[0], vars_step(s, sts[0], path), path), path)
    }
}

pub open spec fn vars_inner(st: AnalyzedStatement, s: VarsState, path: Seq<u8>) -> VarsState
    decreases st, 0nat,
{
    match st {
        AnalyzedStatement::Conditions(c) => vars_cond(*c, s, path),
        AnalyzedStatement::DeclareArgs(d) => vars_walk(d.body_block.statements@, s, path),
        AnalyzedStatement::Foreach(f) => vars_walk(f.body_block.statements@, s, path),
        _ => s,
    }
}

pub open spec fn vars_cond(c: AnalyzedCondition, s: VarsState, path: Seq<u8>) -> VarsState
    decreases c, 0nat,
{
    let s1 = vars_walk(c.then_block.statements@, s, path);
    match c.else_block {
        None => s1,
        Some(AnalyzedElse::Condition(n)) => vars_cond(*n, s1, path),
        Some(AnalyzedElse::Block(b)) => vars_walk(b.statements@, s1, path),
    }
}

/// Merging a scope: its local items replace those of the same name; its
/// imports come after.
pub open spec fn vars_merge(a: VarsScope, b: VarsScope) -> VarsScope {
    (a.0.union_prefer_right(b.0), a.1 + b.1)
}

/// What `variables_at` gives for `ab` at `pos` in the file at `path`: the
/// first pass over the statements at the block's level, then, in the same
/// order, the result for each block inside a statement that encloses `pos`
/// merged in.
pub open spec fn vars_at(ab: AnalyzedBlock, pos: usize, path: Seq<u8>) -> VarsScope
    decreases ab, 2nat,
{
    let s1 = vars_walk(ab.statements@, (Map::empty(), seq![], seq![]), path);
    vars_nested(ab.statements@, pos, path, (s1.0, s1.2))
}

pub open spec fn vars_one(b: AnalyzedBlock, pos: usize, path: Seq<u8>, acc: VarsScope) -> VarsScope
    decreases b, 3nat,
{
    if encloses(b, pos) {
        vars_merge(acc, vars_at(b, pos, path))
    } else {
        acc
    }
}

pub open spec fn vars_blocks(bs: Seq<AnalyzedBlock>, pos: usize, path: Seq<u8>, acc: VarsScope) -> VarsScope
    decreases bs, 1nat,
{
    if bs.len() == 0 {
        acc
    } else {
        vars_blocks(bs.subrange(1, bs.len() as int), pos, path, vars_one(bs[0], pos, path, acc))
    }
}

/// The blocks of the condition expressions of a condition and its `else` chain.
pub open spec fn vars_cond_exprs(c: AnalyzedCondition, pos: usize, path: Seq<u8>, acc: VarsScope) -> VarsScope
    decreases c, 1nat,
{
    let a1 = vars_blocks(c.expr_scopes@, pos, path, acc);
    match c.else_block {
        Some(AnalyzedElse::Condition(n)) => vars_cond_exprs(*n, pos, path, a1),
        _ => a1,
    }
}

/// The blocks of one statement: its body, then the blocks of its expressions.
pub open spec fn vars_subscopes(st: AnalyzedStatement, pos: usize, path: Seq<u8>, acc: VarsScope) -> VarsScope
    decreases st, 1nat,
{
    match st {
        AnalyzedStatement::Assignment(a) => vars_blocks(a.expr_scopes@, pos, path, acc),
        AnalyzedStatement::Conditions(c) => vars_cond_exprs(*c, pos, path, acc),
        AnalyzedStatement::Foreach(f) => vars_blocks(f.expr_scopes@, pos, path, acc),
        AnalyzedStatement::ForwardVariablesFrom(f) => vars_blocks(f.expr_scopes@, pos, path, acc),
        AnalyzedStatement::Target(t) => vars_blocks(t.expr_scopes@, pos, path, vars_one(t.body_block, pos, path, acc)),
        AnalyzedStatement::Template(t) => vars_blocks(t.expr_scopes@, pos, path, vars_one(t.body_block, pos, path, acc)),
        AnalyzedStatement::GenericCall(g) => vars_blocks(
            g.expr_scopes@,
            pos,
            path,
            match g.body_block {
                Some(b) => vars_one(b, pos, path, acc),
                None => acc,
            },
        ),
        _ => acc,
    }
}

/// The second pass, in the order of the first.
pub open spec fn vars_nested(sts: Seq<AnalyzedStatement>, pos: usize, path: Seq<u8>, acc: VarsScope) -> VarsScope
    decreases sts, 1nat,
{
    if sts.len() == 0 {
        acc
    } else {
        vars_nested(
            sts.subrange(1, sts.len() as int),
            pos,
            path,
            vars_nested_inner(sts[0], pos, path, vars_subscopes(sts[0], pos, path, acc)),
        )
    }
}

pub open spec fn vars_nested_inner(st: AnalyzedStatement, pos: usize, path: Seq<u8>, acc: VarsScope) -> VarsScope
    decreases st, 0nat,
{
    match st {
        AnalyzedStatement::Conditions(c) => vars_nested_cond(*c, pos, path, acc),
        AnalyzedStatement::DeclareArgs(d) => vars_nested(d.body_block.statements@, pos, path, acc),
        AnalyzedStatement::Foreach(f) => vars_nested(f.body_block.statements@, pos, path, acc),
        _ => acc,
    }
}

pub open spec fn vars_nested_cond(c: AnalyzedCondition, pos: usize, path: Seq<u8>, acc: VarsScope) -> VarsScope
    decreases c, 0nat,
{
    let a1 = vars_nested(c.then_block.statements@, pos, path, acc);
    match c.else_block {
        None => a1,
        Some(AnalyzedElse::Condition(n)) => vars_nested_cond(*n, pos, path, a1),
        Some(AnalyzedElse::Block(b)) => vars_nested(b.statements@, pos, path, a1),
    }
}
pub type TmplsState = (Map<Seq<u8>, TemplateView>, Seq<usize>, Seq<Arc<TemplateScope>>);

pub type TmplsScope = (Map<Seq<u8>, TemplateView>, Seq<Arc<TemplateScope>>);
/// One statement of the first pass of `templates_at`: templates with a
/// simple string name are recorded; imports are imported.
pub open spec fn tmpls_step(s: TmplsState, st: AnalyzedStatement, path: Seq<u8>) -> TmplsState {
    match st {
        AnalyzedStatement::Template(t) => match t.name {
            Some(n) => (s.0.insert(n@, (path, t.call_span, n@, lines_view(t.comments@), t.header)), s.1, s.2),
            None => s,
        },
        AnalyzedStatement::Import(i) => (s.0, s.1, s.2.push(i.file.spec_templates())),
        AnalyzedStatement::SyntheticImport(i) => (s.0, s.1, s.2.push(i.file.spec_templates())),
        _ => s,
    }
}
/// The first pass over statements at a block's level, in order: each
/// statement, then the statements at the same level inside it.
pub open spec fn tmpls_walk(sts: Seq<AnalyzedStatement>, s: TmplsState, path: Seq<u8>) -> TmplsState
    decreases sts, 1nat,
{
    if sts.len() == 0 {
        s
    } else {
        tmpls_walk(sts.subrange(1, sts.len() as int), tmpls_inner(sts[0], tmpls_step(s, sts[0], path), path), path)
    }
}

pub open spec fn tmpls_inner(st: AnalyzedStatement, s: TmplsState, path: Seq<u8>) -> TmplsState
    decreases st, 0nat,
{
    match st {
        AnalyzedStatement::Conditions(c) => tmpls_cond(*c, s, path),
        AnalyzedStatement::DeclareArgs(d) => tmpls_walk(d.body_block.statements@, s, path),
        AnalyzedStatement::Foreach(f) => tmpls_walk(f.body_block.statements@, s, path),
        _ => s,
    }
}

pub open spec fn tmpls_cond(c: AnalyzedCondition, s: TmplsState, path: Seq<u8>) -> TmplsState
    decreases c, 0nat,
{
    let s1 = tmpls_walk(c.then_block.statements@, s, path);
    match c.else_block {
        None => s1,
        Some(AnalyzedElse::Condition(n)) => tmpls_cond(*n, s1, path),
        Some(AnalyzedElse::Block(b)) => tmpls_walk(b.statements@, s1, path),
    }
}

/// Merging a scope: its local items replace those of the same name; its
/// imports come after.
pub open spec fn tmpls_merge(a: TmplsScope, b: TmplsScope) -> TmplsScope {
    (a.0.union_prefer_right(b.0), a.1 + b.1)
}

/// What `templates_at` gives for `ab` at `pos` in the file at `path`: the
/// first pass over the statements at the block's level, then, in the same
/// order, the result for each block inside a statement that encloses `pos`
/// merged in.
pub open spec fn tmpls_at(ab: AnalyzedBlock, pos: usize, path: Seq<u8>) -> TmplsScope
    decreases ab, 2nat,
{
    let s1 = tmpls_walk(ab.statements@, (Map::empty(), seq![], seq![]), path);
    tmpls_nested(ab.statements@, pos, path, (s1.0, s1.2))
}

pub open spec fn tmpls_one(b: AnalyzedBlock, pos: usize, path: Seq<u8>, acc: TmplsScope) -> TmplsScope
    decreases b, 3nat,
{
    if encloses(b, pos) {
        tmpls_merge(acc, tmpls_at(b, pos, path))
    } else {
        acc
    }
}

pub open spec fn tmpls_blocks(bs: Seq<AnalyzedBlock>, pos: usize, path: Seq<u8>, acc: TmplsScope) -> TmplsScope
    decreases bs, 1nat,
{
    if bs.len() == 0 {
        acc
    } else {
        tmpls_blocks(bs.subrange(1, bs.len() as int), pos, path, tmpls_one(bs[0], pos, path, acc))
    }
}

/// The blocks of the condition expressions of a condition and its `else` chain.
pub open spec fn tmpls_cond_exprs(c: AnalyzedCondition, pos: usize, path: Seq<u8>, acc: TmplsScope) -> TmplsScope
    decreases c, 1nat,
{
    let a1 = tmpls_blocks(c.expr_scopes@, pos, path, acc);
    match c.else_block {
        Some(AnalyzedElse::Condition(n)) => tmpls_cond_exprs(*n, pos, path, a1),
        _ => a1,
    }
}

/// The blocks of one statement: its body, then the blocks of its expressions.
pub open spec fn tmpls_subscopes(st: AnalyzedStatement, pos: usize, path: Seq<u8>, acc: TmplsScope) -> TmplsScope
    decreases st, 1nat,
{
    match st {
        AnalyzedStatement::Assignment(a) => tmpls_blocks(a.expr_scopes@, pos, path, acc),
        AnalyzedStatement::Conditions(c) => tmpls_cond_exprs(*c, pos, path, acc),
        AnalyzedStatement::Foreach(f) => tmpls_blocks(f.expr_scopes@, pos, path, acc),
        AnalyzedStatement::ForwardVariablesFrom(f) => tmpls_blocks(f.expr_scopes@, pos, path, acc),
        AnalyzedStatement::Target(t) => tmpls_blocks(t.expr_scopes@, pos, path, tmpls_one(t.body_block, pos, path, acc)),
        AnalyzedStatement::Template(t) => tmpls_blocks(t.expr_scopes@, pos, path, tmpls_one(t.body_block, pos, path, acc)),
        AnalyzedStatement::GenericCall(g) => tmpls_blocks(
            g.expr_scopes@,
            pos,
            path,
            match g.body_block {
                Some(b) => tmpls_one(b, pos, path, acc),
                None => acc,
            },
        ),
        _ => acc,
    }
}

/// The second pass, in the order of the first.
pub open spec fn tmpls_nested(sts: Seq<AnalyzedStatement>, pos: usize, path: Seq<u8>, acc: TmplsScope) -> TmplsScope
    decreases sts, 1nat,
{
    if sts.len() == 0 {
        acc
    } else {
        tmpls_nested(
            sts.subrange(1, sts.len() as int),
            pos,
            path,
            tmpls_nested_inner(sts[0], pos, path, tmpls_subscopes(sts[0], pos, path, acc)),
        )
    }
}

pub open spec fn tmpls_nested_inner(st: AnalyzedStatement, pos: usize, path: Seq<u8>, acc: TmplsScope) -> TmplsScope
    decreases st, 0nat,
{
    match st {
        AnalyzedStatement::Conditions(c) => tmpls_nested_cond(*c, pos, path, acc),
        AnalyzedStatement::DeclareArgs(d) => tmpls_nested(d.body_block.statements@, pos, path, acc),
        AnalyzedStatement::Foreach(f) => tmpls_nested(f.body_block.statements@, pos, path, acc),
        _ => acc,
    }
}

pub open spec fn tmpls_nested_cond(c: AnalyzedCondition, pos: usize, path: Seq<u8>, acc: TmplsScope) -> TmplsScope
    decreases c, 0nat,
{
    let a1 = tmpls_nested(c.then_block.statements@, pos, path, acc);
    match c.else_block {
        None => a1,
        Some(AnalyzedElse::Condition(n)) => tmpls_nested_cond(*n, pos, path, a1),
        Some(AnalyzedElse::Block(b)) => tmpls_nested(b.statements@, pos, path, a1),
    }
}


fn vars_step_exec(st: &AnalyzedStatement, path: &[u8], acc: &mut VariableScope, stack: &mut Vec<usize>)
    requires
        old(acc).wf(),
    ensures
        final(acc).wf(),
        (scope_view(final(acc).locals_map()), final(stack)@, final(acc).imported_arcs()) == vars_step((scope_view(old(acc).locals_map()), old(stack)@, old(acc).imported_arcs()), *st, path@),
{
    let start = st.span().start;
    let ghost stack0 = stack@;
    while stack.len() > 0 && stack[stack.len() - 1] < start
        invariant
            settle(stack0, start) == settle(stack@, start),
        decreases stack@.len(),
    {
        let ghost b = stack@;
        stack.pop();
        assert(stack@ =~= b.drop_last());
    }
    assert(settle(stack@, start) == stack@);
    let is_args = stack.len() > 0;
    match st {
        AnalyzedStatement::Assignment(a) => {
            let va = VariableAssignment {
                path: copy_range(path, 0, path.len()),
                site: AssignmentSite::Assignment { lvalue: a.lvalue, op: a.op, rvalue: a.rvalue },
                statement_span: a.span,
                primary_variable: a.primary_variable,
                comments: crate::items::copy_vec_lines(&a.comments),
            };
            assert(path@.subrange(0, path@.len() as int) =~= path@);
            crate::shallow::record_assignment(acc, a.name.as_slice(), is_args, va);
        },
        AnalyzedStatement::Foreach(f) => {
            let va = VariableAssignment {
                path: copy_range(path, 0, path.len()),
                site: AssignmentSite::Foreach,
                statement_span: f.call_span,
                primary_variable: f.loop_variable_span,
                comments: Vec::new(),
            };
            assert(path@.subrange(0, path@.len() as int) =~= path@);
            assert(lines_view(va.comments@) =~= Seq::<Seq<u8>>::empty());
            crate::shallow::record_assignment(acc, f.loop_variable.as_slice(), is_args, va);
        },
        AnalyzedStatement::ForwardVariablesFrom(f) => {
            record_includes_exec(acc, &f.includes, path, f.call_span, is_args);
        },
        AnalyzedStatement::Import(i) => {
            acc.import(i.file.variables());
        },
        AnalyzedStatement::SyntheticImport(i) => {
            acc.import(i.file.variables());
        },
        AnalyzedStatement::DeclareArgs(d) => {
            stack.push(d.call_span.end);
        },
        _ => {},
    }
}

fn vars_walk_exec(sts: &Vec<AnalyzedStatement>, path: &[u8], acc: &mut VariableScope, stack: &mut Vec<usize>)
    requires
        old(acc).wf(),
    ensures
        final(acc).wf(),
        (scope_view(final(acc).locals_map()), final(stack)@, final(acc).imported_arcs()) == vars_walk(sts@, (scope_view(old(acc).locals_map()), old(stack)@, old(acc).imported_arcs()), path@),
    decreases sts@, 1nat,
{
    let n = sts.len();
    let mut i: usize = 0;
    assert(sts@.subrange(0, n as int) =~= sts@);
    while i < n
        invariant
            n == sts@.len(),
            i <= n,
            acc.wf(),
            vars_walk(sts@, (scope_view(old(acc).locals_map()), old(stack)@, old(acc).imported_arcs()), path@) == vars_walk(
                sts@.subrange(i as int, n as int),
                (scope_view(acc.locals_map()), stack@, acc.imported_arcs()),
                path@,
            ),
        decreases n - i,
    {
        let ghost rest = sts@.subrange(i as int, n as int);
        assert(rest[0] == sts@[i as int]);
        assert(rest.subrange(1, rest.len() as int) =~= sts@.subrange(i + 1, n as int));
        proof {
            assert(decreases_to!(sts@ => sts@[i as int]));
        }
        vars_step_exec(&sts[i], path, acc, stack);
        vars_inner_exec(&sts[i], path, acc, stack);
        i += 1;
    }
    assert(sts@.subrange(n as int, n as int) =~= Seq::<AnalyzedStatement>::empty());
}

fn vars_inner_exec(st: &AnalyzedStatement, path: &[u8], acc: &mut VariableScope, stack: &mut Vec<usize>)
    requires
        old(acc).wf(),
    ensures
        final(acc).wf(),
        (scope_view(final(acc).locals_map()), final(stack)@, final(acc).imported_arcs()) == vars_inner(*st, (scope_view(old(acc).locals_map()), old(stack)@, old(acc).imported_arcs()), path@),
    decreases *st, 0nat,
{
    match st {
        AnalyzedStatement::Conditions(c) => vars_cond_exec(c, path, acc, stack),
        AnalyzedStatement::DeclareArgs(d) => vars_walk_exec(&d.body_block.statements, path, acc, stack),
        AnalyzedStatement::Foreach(f) => vars_walk_exec(&f.body_block.statements, path, acc, stack),
        _ => {},
    }
}

fn vars_cond_exec(c: &AnalyzedCondition, path: &[u8], acc: &mut VariableScope, stack: &mut Vec<usize>)
    requires
        old(acc).wf(),
    ensures
        final(acc).wf(),
        (scope_view(final(acc).locals_map()), final(stack)@, final(acc).imported_arcs()) == vars_cond(*c, (scope_view(old(acc).locals_map()), old(stack)@, old(acc).imported_arcs()), path@),
    decreases *c, 0nat,
{
    vars_walk_exec(&c.then_block.statements, path, acc, stack);
    match &c.else_block {
        None => {},
        Some(AnalyzedElse::Condition(n)) => vars_cond_exec(n, path, acc, stack),
        Some(AnalyzedElse::Block(b)) => vars_walk_exec(&b.statements, path, acc, stack),
    }
}

fn vars_one_exec(b: &AnalyzedBlock, pos: usize, path: &[u8], acc: &mut VariableScope)
    requires
        old(acc).wf(),
    ensures
        final(acc).wf(),
        (scope_view(final(acc).locals_map()), final(acc).imported_arcs()) == vars_one(*b, pos, path@, (scope_view(old(acc).locals_map()), old(acc).imported_arcs())),
    decreases *b, 3nat,
{
    if b.span.start < pos && pos < b.span.end {
        let sub = b.variables_at(pos, path);
        let ghost before = acc.locals_map();
        acc.merge(sub);
        assert(scope_view(acc.locals_map()) =~= scope_view(before).union_prefer_right(scope_view(sub.locals_map())));
    }
}

fn vars_blocks_exec(bs: &Vec<AnalyzedBlock>, pos: usize, path: &[u8], acc: &mut VariableScope)
    requires
        old(acc).wf(),
    ensures
        final(acc).wf(),
        (scope_view(final(acc).locals_map()), final(acc).imported_arcs()) == vars_blocks(bs@, pos, path@, (scope_view(old(acc).locals_map()), old(acc).imported_arcs())),
    decreases bs@, 1nat,
{
    let n = bs.len();
    let mut i: usize = 0;
    assert(bs@.subrange(0, n as int) =~= bs@);
    while i < n
        invariant
            n == bs@.len(),
            i <= n,
            acc.wf(),
            vars_blocks(bs@, pos, path@, (scope_view(old(acc).locals_map()), old(acc).imported_arcs())) == vars_blocks(
                bs@.subrange(i as int, n as int),
                pos,
                path@,
                (scope_view(acc.locals_map()), acc.imported_arcs()),
            ),
        decreases n - i,
    {
        let ghost rest = bs@.subrange(i as int, n as int);
        assert(rest[0] == bs@[i as int]);
        assert(rest.subrange(1, rest.len() as int) =~= bs@.subrange(i + 1, n as int));
        proof {
            assert(decreases_to!(bs@ => bs@[i as int]));
        }
        vars_one_exec(&bs[i], pos, path, acc);
        i += 1;
    }
    assert(bs@.subrange(n as int, n as int) =~= Seq::<AnalyzedBlock>::empty());
}

fn vars_cond_exprs_exec(c: &AnalyzedCondition, pos: usize, path: &[u8], acc: &mut VariableScope)
    requires
        old(acc).wf(),
    ensures
        final(acc).wf(),
        (scope_view(final(acc).locals_map()), final(acc).imported_arcs()) == vars_cond_exprs(*c, pos, path@, (scope_view(old(acc).locals_map()), old(acc).imported_arcs())),
    decreases *c, 1nat,
{
    vars_blocks_exec(&c.expr_scopes, pos, path, acc);
    match &c.else_block {
        Some(AnalyzedElse::Condition(n)) => vars_cond_exprs_exec(n, pos, path, acc),
        _ => {},
    }
}

fn vars_subscopes_exec(st: &AnalyzedStatement, pos: usize, path: &[u8], acc: &mut VariableScope)
    requires
        old(acc).wf(),
    ensures
        final(acc).wf(),
        (scope_view(final(acc).locals_map()), final(acc).imported_arcs()) == vars_subscopes(*st, pos, path@, (scope_view(old(acc).locals_map()), old(acc).imported_arcs())),
    decreases *st, 1nat,
{
    match st {
        AnalyzedStatement::Assignment(a) => vars_blocks_exec(&a.expr_scopes, pos, path, acc),
        AnalyzedStatement::Conditions(c) => vars_cond_exprs_exec(c, pos, path, acc),
        AnalyzedStatement::Foreach(f) => vars_blocks_exec(&f.expr_scopes, pos, path, acc),
        AnalyzedStatement::ForwardVariablesFrom(f) => vars_blocks_exec(&f.expr_scopes, pos, path, acc),
        AnalyzedStatement::Target(t) => {
            vars_one_exec(&t.body_block, pos, path, acc);
            vars_blocks_exec(&t.expr_scopes, pos, path, acc);
        },
        AnalyzedStatement::Template(t) => {
            vars_one_exec(&t.body_block, pos, path, acc);
            vars_blocks_exec(&t.expr_scopes, pos, path, acc);
        },
        AnalyzedStatement::GenericCall(g) => {
            match &g.body_block {
                Some(b) => vars_one_exec(b, pos, path, acc),
                None => {},
            }
            vars_blocks_exec(&g.expr_scopes, pos, path, acc);
        },
        _ => {},
    }
}

fn vars_nested_exec(sts: &Vec<AnalyzedStatement>, pos: usize, path: &[u8], acc: &mut VariableScope)
    requires
        old(acc).wf(),
    ensures
        final(acc).wf(),
        (scope_view(final(acc).locals_map()), final(acc).imported_arcs()) == vars_nested(sts@, pos, path@, (scope_view(old(acc).locals_map()), old(acc).imported_arcs())),
    decreases sts@, 1nat,
{
    let n = sts.len();
    let mut i: usize = 0;
    assert(sts@.subrange(0, n as int) =~= sts@);
    while i < n
        invariant
            n == sts@.len(),
            i <= n,
            acc.wf(),
            vars_nested(sts@, pos, path@, (scope_view(old(acc).locals_map()), old(acc).imported_arcs())) == vars_nested(
                sts@.subrange(i as int, n as int),
                pos,
                path@,
                (scope_view(acc.locals_map()), acc.imported_arcs()),
            ),
        decreases n - i,
    {
        let ghost rest = sts@.subrange(i as int, n as int);
        assert(rest[0] == sts@[i as int]);
        assert(rest.subrange(1, rest.len() as int) =~= sts@.subrange(i + 1, n as int));
        proof {
            assert(decreases_to!(sts@ => sts@[i as int]));
        }
        vars_subscopes_exec(&sts[i], pos, path, acc);
        vars_nested_inner_exec(&sts[i], pos, path, acc);
        i += 1;
    }
    assert(sts@.subrange(n as int, n as int) =~= Seq::<AnalyzedStatement>::empty());
}

fn vars_nested_inner_exec(st: &AnalyzedStatement, pos: usize, path: &[u8], acc: &mut VariableScope)
    requires
        old(acc).wf(),
    ensures
        final(acc).wf(),
        (scope_view(final(acc).locals_map()), final(acc).imported_arcs()) == vars_nested_inner(*st, pos, path@, (scope_view(old(acc).locals_map()), old(acc).imported_arcs())),
    decreases *st, 0nat,
{
    match st {
        AnalyzedStatement::Conditions(c) => vars_nested_cond_exec(c, pos, path, acc),
        AnalyzedStatement::DeclareArgs(d) => vars_nested_exec(&d.body_block.statements, pos, path, acc),
        AnalyzedStatement::Foreach(f) => vars_nested_exec(&f.body_block.statements, pos, path, acc),
        _ => {},
    }
}

fn vars_nested_cond_exec(c: &AnalyzedCondition, pos: usize, path: &[u8], acc: &mut VariableScope)
    requires
        old(acc).wf(),
    ensures
        final(acc).wf(),
        (scope_view(final(acc).locals_map()), final(acc).imported_arcs()) == vars_nested_cond(*c, pos, path@, (scope_view(old(acc).locals_map()), old(acc).imported_arcs())),
    decreases *c, 0nat,
{
    vars_nested_exec(&c.then_block.statements, pos, path, acc);
    match &c.else_block {
        None => {},
        Some(AnalyzedElse::Condition(n)) => vars_nested_cond_exec(n, pos, path, acc),
        Some(AnalyzedElse::Block(b)) => vars_nested_exec(&b.statements, pos, path, acc),
    }
}

fn tmpls_step_exec(st: &AnalyzedStatement, path: &[u8], acc: &mut TemplateScope, stack: &mut Vec<usize>)
    requires
        old(acc).wf(),
    ensures
        final(acc).wf(),
        (scope_view(final(acc).locals_map()), final(stack)@, final(acc).imported_arcs()) == tmpls_step((scope_view(old(acc).locals_map()), old(stack)@, old(acc).imported_arcs()), *st, path@),
{
    match st {
        AnalyzedStatement::Template(t) => {
            match &t.name {
                Some(n) => {
                    let item = Template {
                        path: copy_range(path, 0, path.len()),
                        call_span: t.call_span,
                        name: copy_range(n.as_slice(), 0, n.len()),
                        comments: crate::items::copy_vec_lines(&t.comments),
                        header: t.header,
                    };
                    assert(path@.subrange(0, path@.len() as int) =~= path@);
                    assert(n@.subrange(0, n@.len() as int) =~= n@);
                    let ghost m = acc.locals_map();
                    acc.insert(n.as_slice(), item);
                    assert(scope_view(acc.locals_map()) =~= scope_view(m).insert(n@, item@));
                },
                None => {},
            }
        },
        AnalyzedStatement::Import(i) => {
            acc.import(i.file.templates());
        },
        AnalyzedStatement::SyntheticImport(i) => {
            acc.import(i.file.templates());
        },
        _ => {},
    }
}

fn tmpls_walk_exec(sts: &Vec<AnalyzedStatement>, path: &[u8], acc: &mut TemplateScope, stack: &mut Vec<usize>)
    requires
        old(acc).wf(),
    ensures
        final(acc).wf(),
        (scope_view(final(acc).locals_map()), final(stack)@, final(acc).imported_arcs()) == tmpls_walk(sts@, (scope_view(old(acc).locals_map()), old(stack)@, old(acc).imported_arcs()), path@),
    decreases sts@, 1nat,
{
    let n = sts.len();
    let mut i: usize = 0;
    assert(sts@.subrange(0, n as int) =~= sts@);
    while i < n
        invariant
            n == sts@.len(),
            i <= n,
            acc.wf(),
            tmpls_walk(sts@, (scope_view(old(acc).locals_map()), old(stack)@, old(acc).imported_arcs()), path@) == tmpls_walk(
                sts@.subrange(i as int, n as int),
                (scope_view(acc.locals_map()), stack@, acc.imported_arcs()),
                path@,
            ),
        decreases n - i,
    {
        let ghost rest = sts@.subrange(i as int, n as int);
        assert(rest[0] == sts@[i as int]);
        assert(rest.subrange(1, rest.len() as int) =~= sts@.subrange(i + 1, n as int));
        proof {
            assert(decreases_to!(sts@ => sts@[i as int]));
        }
        tmpls_step_exec(&sts[i], path, acc, stack);
        tmpls_inner_exec(&sts[i], path, acc, stack);
        i += 1;
    }
    assert(sts@.subrange(n as int, n as int) =~= Seq::<AnalyzedStatement>::empty());
}

fn tmpls_inner_exec(st: &AnalyzedStatement, path: &[u8], acc: &mut TemplateScope, stack: &mut Vec<usize>)
    requires
        old(acc).wf(),
    ensures
        final(acc).wf(),
        (scope_view(final(acc).locals_map()), final(stack)@, final(acc).imported_arcs()) == tmpls_inner(*st, (scope_view(old(acc).locals_map()), old(stack)@, old(acc).imported_arcs()), path@),
    decreases *st, 0nat,
{
    match st {
        AnalyzedStatement::Conditions(c) => tmpls_cond_exec(c, path, acc, stack),
        AnalyzedStatement::DeclareArgs(d) => tmpls_walk_exec(&d.body_block.statements, path, acc, stack),
        AnalyzedStatement::Foreach(f) => tmpls_walk_exec(&f.body_block.statements, path, acc, stack),
        _ => {},
    }
}

fn tmpls_cond_exec(c: &AnalyzedCondition, path: &[u8], acc: &mut TemplateScope, stack: &mut Vec<usize>)
    requires
        old(acc).wf(),
    ensures
        final(acc).wf(),
        (scope_view(final(acc).locals_map()), final(stack)@, final(acc).imported_arcs()) == tmpls_cond(*c, (scope_view(old(acc).locals_map()), old(stack)@, old(acc).imported_arcs()), path@),
    decreases *c, 0nat,
{
    tmpls_walk_exec(&c.then_block.statements, path, acc, stack);
    match &c.else_block {
        None => {},
        Some(AnalyzedElse::Condition(n)) => tmpls_cond_exec(n, path, acc, stack),
        Some(AnalyzedElse::Block(b)) => tmpls_walk_exec(&b.statements, path, acc, stack),
    }
}

fn tmpls_one_exec(b: &AnalyzedBlock, pos: usize, path: &[u8], acc: &mut TemplateScope)
    requires
        old(acc).wf(),
    ensures
        final(acc).wf(),
        (scope_view(final(acc).locals_map()), final(acc).imported_arcs()) == tmpls_one(*b, pos, path@, (scope_view(old(acc).locals_map()), old(acc).imported_arcs())),
    decreases *b, 3nat,
{
    if b.span.start < pos && pos < b.span.end {
        let sub = b.templates_at(pos, path);
        let ghost before = acc.locals_map();
        acc.merge(sub);
        assert(scope_view(acc.locals_map()) =~= scope_view(before).union_prefer_right(scope_view(sub.locals_map())));
    }
}

fn tmpls_blocks_exec(bs: &Vec<AnalyzedBlock>, pos: usize, path: &[u8], acc: &mut TemplateScope)
    requires
        old(acc).wf(),
    ensures
        final(acc).wf(),
        (scope_view(final(acc).locals_map()), final(acc).imported_arcs()) == tmpls_blocks(bs@, pos, path@, (scope_view(old(acc).locals_map()), old(acc).imported_arcs())),
    decreases bs@, 1nat,
{
    let n = bs.len();
    let mut i: usize = 0;
    assert(bs@.subrange(0, n as int) =~= bs@);
    while i < n
        invariant
            n == bs@.len(),
            i <= n,
            acc.wf(),
            tmpls_blocks(bs@, pos, path@, (scope_view(old(acc).locals_map()), old(acc).imported_arcs())) == tmpls_blocks(
                bs@.subrange(i as int, n as int),
                pos,
                path@,
                (scope_view(acc.locals_map()), acc.imported_arcs()),
            ),
        decreases n - i,
    {
        let ghost rest = bs@.subrange(i as int, n as int);
        assert(rest[0] == bs@[i as int]);
        assert(rest.subrange(1, rest.len() as int) =~= bs@.subrange(i + 1, n as int));
        proof {
            assert(decreases_to!(bs@ => bs@[i as int]));
        }
        tmpls_one_exec(&bs[i], pos, path, acc);
        i += 1;
    }
    assert(bs@.subrange(n as int, n as int) =~= Seq::<AnalyzedBlock>::empty());
}

fn tmpls_cond_exprs_exec(c: &AnalyzedCondition, pos: usize, path: &[u8], acc: &mut TemplateScope)
    requires
        old(acc).wf(),
    ensures
        final(acc).wf(),
        (scope_view(final(acc).locals_map()), final(acc).imported_arcs()) == tmpls_cond_exprs(*c, pos, path@, (scope_view(old(acc).locals_map()), old(acc).imported_arcs())),
    decreases *c, 1nat,
{
    tmpls_blocks_exec(&c.expr_scopes, pos, path, acc);
    match &c.else_block {
        Some(AnalyzedElse::Condition(n)) => tmpls_cond_exprs_exec(n, pos, path, acc),
        _ => {},
    }
}

fn tmpls_subscopes_exec(st: &AnalyzedStatement, pos: usize, path: &[u8], acc: &mut TemplateScope)
    requires
        old(acc).wf(),
    ensures
        final(acc).wf(),
        (scope_view(final(acc).locals_map()), final(acc).imported_arcs()) == tmpls_subscopes(*st, pos, path@, (scope_view(old(acc).locals_map()), old(acc).imported_arcs())),
    decreases *st, 1nat,
{
    match st {
        AnalyzedStatement::Assignment(a) => tmpls_blocks_exec(&a.expr_scopes, pos, path, acc),
        AnalyzedStatement::Conditions(c) => tmpls_cond_exprs_exec(c, pos, path, acc),
        AnalyzedStatement::Foreach(f) => tmpls_blocks_exec(&f.expr_scopes, pos, path, acc),
        AnalyzedStatement::ForwardVariablesFrom(f) => tmpls_blocks_exec(&f.expr_scopes, pos, path, acc),
        AnalyzedStatement::Target(t) => {
            tmpls_one_exec(&t.body_block, pos, path, acc);
            tmpls_blocks_exec(&t.expr_scopes, pos, path, acc);
        },
        AnalyzedStatement::Template(t) => {
            tmpls_one_exec(&t.body_block, pos, path, acc);
            tmpls_blocks_exec(&t.expr_scopes, pos, path, acc);
        },
        AnalyzedStatement::GenericCall(g) => {
            match &g.body_block {
                Some(b) => tmpls_one_exec(b, pos, path, acc),
                None => {},
            }
            tmpls_blocks_exec(&g.expr_scopes, pos, path, acc);
        },
        _ => {},
    }
}

fn tmpls_nested_exec(sts: &Vec<AnalyzedStatement>, pos: usize, path: &[u8], acc: &mut TemplateScope)
    requires
        old(acc).wf(),
    ensures
        final(acc).wf(),
        (scope_view(final(acc).locals_map()), final(acc).imported_arcs()) == tmpls_nested(sts@, pos, path@, (scope_view(old(acc).locals_map()), old(acc).imported_arcs())),
    decreases sts@, 1nat,
{
    let n = sts.len();
    let mut i: usize = 0;
    assert(sts@.subrange(0, n as int) =~= sts@);
    while i < n
        invariant
            n == sts@.len(),
            i <= n,
            acc.wf(),
            tmpls_nested(sts@, pos, path@, (scope_view(old(acc).locals_map()), old(acc).imported_arcs())) == tmpls_nested(
                sts@.subrange(i as int, n as int),
                pos,
                path@,
                (scope_view(acc.locals_map()), acc.imported_arcs()),
            ),
        decreases n - i,
    {
        let ghost rest = sts@.subrange(i as int, n as int);
        assert(rest[0] == sts@[i as int]);
        assert(rest.subrange(1, rest.len() as int) =~= sts@.subrange(i + 1, n as int));
        proof {
            assert(decreases_to!(sts@ => sts@[i as int]));
        }
        tmpls_subscopes_exec(&sts[i], pos, path, acc);
        tmpls_nested_inner_exec(&sts[i], pos, path, acc);
        i += 1;
    }
    assert(sts@.subrange(n as int, n as int) =~= Seq::<AnalyzedStatement>::empty());
}

fn tmpls_nested_inner_exec(st: &AnalyzedStatement, pos: usize, path: &[u8], acc: &mut TemplateScope)
    requires
        old(acc).wf(),
    ensures
        final(acc).wf(),
        (scope_view(final(acc).locals_map()), final(acc).imported_arcs()) == tmpls_nested_inner(*st, pos, path@, (scope_view(old(acc).locals_map()), old(acc).imported_arcs())),
    decreases *st, 0nat,
{
    match st {
        AnalyzedStatement::Conditions(c) => tmpls_nested_cond_exec(c, pos, path, acc),
        AnalyzedStatement::DeclareArgs(d) => tmpls_nested_exec(&d.body_block.statements, pos, path, acc),
        AnalyzedStatement::Foreach(f) => tmpls_nested_exec(&f.body_block.statements, pos, path, acc),
        _ => {},
    }
}

fn tmpls_nested_cond_exec(c: &AnalyzedCondition, pos: usize, path: &[u8], acc: &mut TemplateScope)
    requires
        old(acc).wf(),
    ensures
        final(acc).wf(),
        (scope_view(final(acc).locals_map()), final(acc).imported_arcs()) == tmpls_nested_cond(*c, pos, path@, (scope_view(old(acc).locals_map()), old(acc).imported_arcs())),
    decreases *c, 0nat,
{
    tmpls_nested_exec(&c.then_block.statements, pos, path, acc);
    match &c.else_block {
        None => {},
        Some(AnalyzedElse::Condition(n)) => tmpls_nested_cond_exec(n, pos, path, acc),
        Some(AnalyzedElse::Block(b)) => tmpls_nested_exec(&b.statements, pos, path, acc),
    }
}

impl AnalyzedBlock {
    /// The variables visible at `pos` in this block of the file at `path`:
    /// those set at the block's level (including those of imported files),
    /// and, merged over them, those visible at `pos` in each block inside a
    /// statement that encloses `pos`.
    pub fn variables_at(&self, pos: usize, path: &[u8]) -> (r: VariableScope)
        ensures
            r.wf(),
            (scope_view(r.locals_map()), r.imported_arcs()) == vars_at(*self, pos, path@),
        decreases *self, 2nat,
    {
        let mut acc = VariableScope::new();
        let mut stack: Vec<usize> = Vec::new();
        assert(scope_view(acc.locals_map()) =~= Map::<Seq<u8>, VariableView>::empty());
        vars_walk_exec(&self.statements, path, &mut acc, &mut stack);
        vars_nested_exec(&self.statements, pos, path, &mut acc);
        acc
    }

    /// The templates visible at `pos` in this block of the file at `path`:
    /// those defined at the block's level (including those of imported
    /// files), and, merged over them, those visible at `pos` in each block
    /// inside a statement that encloses `pos`.
    pub fn templates_at(&self, pos: usize, path: &[u8]) -> (r: TemplateScope)
        ensures
            r.wf(),
            (scope_view(r.locals_map()), r.imported_arcs()) == tmpls_at(*self, pos, path@),
        decreases *self, 2nat,
    {
        let mut acc = TemplateScope::new();
        let mut stack: Vec<usize> = Vec::new();
        assert(scope_view(acc.locals_map()) =~= Map::<Seq<u8>, TemplateView>::empty());
        tmpls_walk_exec(&self.statements, path, &mut acc, &mut stack);
        tmpls_nested_exec(&self.statements, pos, path, &mut acc);
        acc
    }
}

} // verus!
