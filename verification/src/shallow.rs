//! Shallow analysis: what a file exports to the files that import it. Only
//! statements at the file's own level count (conditions, `declare_args` and
//! `foreach` open no scope); template bodies are not looked into.

use std::sync::Arc;

use vstd::prelude::*;

use crate::ast::{Block, Call, Expr, Statement};
use crate::builtins::{
    declare_args_name, foreach_name, forward_variables_from_name, import_name, is_declare_args,
    is_foreach, is_forward_variables_from, is_import, is_set_defaults, is_template, set_defaults_name,
    template_name,
};
use crate::items::{
    copy_lines, lines_view, scope_view, AssignmentSite, AssignmentView, FileEnvironment, Target,
    TargetScope, TargetView, Template, TemplateScope, TemplateView, Variable, VariableAssignment,
    VariableScope, VariableView, add_assignment,
};
use crate::toplevel::{top_level, top_level_statements};
use crate::util::{is_exported, is_simple_literal, parse_simple_literal, spec_is_exported};
use crate::workspace::copy_range;

verus! {

/// The state of a shallow analysis between two statements: the variables,
/// templates and targets found so far, the ends of the `declare_args` calls
/// still open, and the names of the files imported so far.
pub type ShallowState = (
    Map<Seq<u8>, VariableView>,
    Map<Seq<u8>, TemplateView>,
    Map<Seq<u8>, TargetView>,
    Seq<usize>,
    Seq<Seq<u8>>,
);

pub open spec fn initial_state() -> ShallowState {
    (Map::empty(), Map::empty(), Map::empty(), seq![], seq![])
}

/// The `declare_args` calls still open at a statement starting at `start`:
/// those that end before it are closed.
pub open spec fn settle(stack: Seq<usize>, start: usize) -> Seq<usize>
    decreases stack.len(),
{
    if stack.len() > 0 && stack.last() < start {
        settle(stack.drop_last(), start)
    } else {
        stack
    }
}

/// `vars` with the assignment `a` to `name` recorded; a variable seen for the
/// first time is an argument when `is_args`.
pub open spec fn record(vars: Map<Seq<u8>, VariableView>, name: Seq<u8>, is_args: bool, a: AssignmentView) -> Map<
    Seq<u8>,
    VariableView,
> {
    let v = match vars.get(name) {
        Some(v) => v,
        None => (Seq::<AssignmentView>::empty(), is_args),
    };
    vars.insert(name, (add_assignment(v.0, a), v.1))
}

/// The simple string of a call's only argument.
pub open spec fn only_simple_string(c: Call) -> Option<Seq<u8>> {
    match c.spec_only_arg() {
        Some(e) => e.spec_as_simple_string(),
        None => None,
    }
}

/// The values of `forward_variables_from`'s second argument, when it is a
/// list.
pub open spec fn forwarded_values(c: Call) -> Seq<Expr> {
    if c.args@.len() > 1 {
        match c.args@[1].spec_as_primary_list() {
            Some(l) => l.values@,
            None => seq![],
        }
    } else {
        seq![]
    }
}

/// `vars` with each exported simple string among `values` recorded as set by
/// the call at `call_span`.
pub open spec fn record_forwarded(
    vars: Map<Seq<u8>, VariableView>,
    values: Seq<Expr>,
    path: Seq<u8>,
    call_span: crate::ast::Span,
    is_args: bool,
) -> Map<Seq<u8>, VariableView>
    decreases values.len(),
{
    if values.len() == 0 {
        vars
    } else {
        let next = match values[0].spec_as_primary_string() {
            Some(s) => if is_simple_literal(s.raw_value@) && spec_is_exported(s.raw_value@) {
                record(vars, s.raw_value@, is_args, (path, AssignmentSite::Forward, call_span, s.span, seq![]))
            } else {
                vars
            },
            None => vars,
        };
        record_forwarded(next, values.drop_first(), path, call_span, is_args)
    }
}

/// One statement of the shallow analysis of the file at `path`.
pub open spec fn shallow_step(s: ShallowState, st: Statement, path: Seq<u8>) -> ShallowState {
    let stack = settle(s.3, st.spec_span().start);
    let is_args = stack.len() > 0;
    match st {
        Statement::Assignment(a) => {
            let id = a.lvalue.spec_primary();
            let vars = if spec_is_exported(id.name@) {
                record(
                    s.0,
                    id.name@,
                    is_args,
                    (path, AssignmentSite::Assignment { lvalue: a.lvalue.spec_span(), op: a.op, rvalue: a.rvalue.spec_span() }, a.span, id.span, lines_view(a.comments.lines@)),
                )
            } else {
                s.0
            };
            (vars, s.1, s.2, stack, s.4)
        },
        Statement::Call(c) => {
            let f = c.function.name@;
            if f == import_name() {
                match only_simple_string(*c) {
                    Some(name) => (s.0, s.1, s.2, stack, s.4.push(name)),
                    None => (s.0, s.1, s.2, stack, s.4),
                }
            } else if f == template_name() {
                match only_simple_string(*c) {
                    Some(name) => if spec_is_exported(name) {
                        (
                            s.0,
                            s.1.insert(name, (path, c.span, name, lines_view(c.comments.lines@), c.function.span)),
                            s.2,
                            stack,
                            s.4,
                        )
                    } else {
                        (s.0, s.1, s.2, stack, s.4)
                    },
                    None => (s.0, s.1, s.2, stack, s.4),
                }
            } else if f == declare_args_name() {
                (s.0, s.1, s.2, stack.push(c.span.end), s.4)
            } else if f == foreach_name() || f == set_defaults_name() {
                (s.0, s.1, s.2, stack, s.4)
            } else if f == forward_variables_from_name() {
                (record_forwarded(s.0, forwarded_values(*c), path, c.span, is_args), s.1, s.2, stack, s.4)
            } else {
                match only_simple_string(*c) {
                    Some(name) => (s.0, s.1, s.2.insert(name, (path, c.span, name)), stack, s.4),
                    None => (s.0, s.1, s.2, stack, s.4),
                }
            }
        },
        _ => (s.0, s.1, s.2, stack, s.4),
    }
}

/// The shallow analysis of the statements `sts` of the file at `path`.
pub open spec fn shallow_fold(sts: Seq<Statement>, path: Seq<u8>, s: ShallowState) -> ShallowState
    decreases sts.len(),
{
    if sts.len() == 0 {
        s
    } else {
        shallow_fold(sts.drop_first(), path, shallow_step(s, sts[0], path))
    }
}

/// What the shallow analysis of `block`, the syntax tree of the file at
/// `path`, finds.
pub open spec fn shallow_analysis(block: Block, path: Seq<u8>) -> ShallowState {
    shallow_fold(top_level(block.statements@), path, initial_state())
}

/// Records in `vars` the assignment `a` to `name`.
pub(crate) fn record_assignment(vars: &mut VariableScope, name: &[u8], is_args: bool, a: VariableAssignment)
    requires
        old(vars).wf(),
    ensures
        final(vars).wf(),
        scope_view(final(vars).locals_map()) == record(scope_view(old(vars).locals_map()), name@, is_args, a@),
        final(vars).imported_arcs() == old(vars).imported_arcs(),
{
    let ghost m = old(vars).locals_map();
    let fresh = move || -> (r: Variable)
        ensures
            r@.0.len() == 0 && r@.1 == is_args,
        {
            Variable::new(is_args)
        };
    let v = vars.ensure(name, fresh);
    let ghost init = *v;
    v.add(a);
    proof {
        let fin = vars.locals_map()[name@];
        assert(vars.locals_map() == m.insert(name@, fin));
        let old_view = scope_view(m);
        assert(fin@ == (add_assignment(init@.0, a@), init@.1));
        if m.contains_key(name@) {
            assert(init == m[name@]);
        }
        assert(scope_view(vars.locals_map()) =~= record(old_view, name@, is_args, a@));
    }
}


/// The simple string of a call's only argument.
pub(crate) fn only_simple(c: &Call) -> (r: Option<&[u8]>)
    ensures
        match r {
            Some(v) => only_simple_string(*c) == Some(v@),
            None => only_simple_string(*c) is None,
        },
{
    match c.only_arg() {
        Some(e) => e.as_simple_string(),
        None => None,
    }
}

/// Records the variables that a `forward_variables_from` call sets.
fn record_forwarded_exec(vars: &mut VariableScope, c: &Call, path: &[u8], is_args: bool)
    requires
        old(vars).wf(),
    ensures
        final(vars).wf(),
        scope_view(final(vars).locals_map()) == record_forwarded(
            scope_view(old(vars).locals_map()),
            forwarded_values(*c),
            path@,
            c.span,
            is_args,
        ),
        final(vars).imported_arcs() == old(vars).imported_arcs(),
{
    if c.args.len() <= 1 {
        return;
    }
    let list = match c.args[1].as_primary_list() {
        Some(l) => l,
        None => return,
    };
    let n = list.values.len();
    let ghost values = list.values@;
    let ghost target = record_forwarded(scope_view(vars.locals_map()), values, path@, c.span, is_args);
    let mut i: usize = 0;
    assert(values.skip(0) =~= values);
    while i < n
        invariant
            n == values.len(),
            values == list.values@,
            i <= n,
            vars.wf(),
            vars.imported_arcs() == old(vars).imported_arcs(),
            target == record_forwarded(scope_view(vars.locals_map()), values.skip(i as int), path@, c.span, is_args),
        decreases n - i,
    {
        let ghost rest = values.skip(i as int);
        assert(rest[0] == values[i as int]);
        assert(rest.drop_first() =~= values.skip(i + 1));
        if let Some(s) = list.values[i].as_primary_string() {
            if let Some(name) = parse_simple_literal(s.raw_value.as_slice()) {
                if is_exported(name) {
                    let a = VariableAssignment {
                        path: copy_range(path, 0, path.len()),
                        site: AssignmentSite::Forward,
                        statement_span: c.span,
                        primary_variable: s.span,
                        comments: Vec::new(),
                    };
                    assert(path@.subrange(0, path@.len() as int) =~= path@);
                    assert(lines_view(a.comments@) =~= Seq::<Seq<u8>>::empty());
                    record_assignment(vars, name, is_args, a);
                }
            }
        }
        i += 1;
    }
}

proof fn lemma_fold_imports_grow(sts: Seq<Statement>, path: Seq<u8>, s: ShallowState)
    ensures
        shallow_fold(sts, path, s).4.len() >= s.4.len(),
    decreases sts.len(),
{
    if sts.len() > 0 {
        lemma_fold_imports_grow(sts.drop_first(), path, shallow_step(s, sts[0], path));
    }
}

/// The names of the files that the file with syntax tree `block` imports at
/// its own level, in order: the files whose shallow analyses
/// `shallow_environment` takes.
pub fn shallow_imports(block: &Block, path: &[u8]) -> (r: Vec<Vec<u8>>)
    ensures
        r@.map_values(|v: Vec<u8>| v@) == shallow_analysis(*block, path@).4,
{
    let flat = top_level_statements(block);
    let ghost sts = top_level(block.statements@);
    let mut out: Vec<Vec<u8>> = Vec::new();
    let ghost mut state = initial_state();
    let mut i: usize = 0;
    assert(sts.skip(0) =~= sts);
    while i < flat.len()
        invariant
            i <= flat@.len(),
            crate::ast::derefs(flat@) == sts,
            out@.map_values(|v: Vec<u8>| v@) == state.4,
            shallow_fold(sts, path@, initial_state()) == shallow_fold(sts.skip(i as int), path@, state),
        decreases flat.len() - i,
    {
        let ghost rest = sts.skip(i as int);
        assert(rest[0] == *flat@[i as int]);
        assert(rest.drop_first() =~= sts.skip(i + 1));
        let st = flat[i];
        if let Statement::Call(c) = st {
            if is_import(c.function.name.as_slice()) {
                if let Some(name) = only_simple(c) {
                    let ghost before = out@;
                    out.push(copy_range(name, 0, name.len()));
                    assert(name@.subrange(0, name@.len() as int) =~= name@);
                    assert(out@.map_values(|v: Vec<u8>| v@) =~= before.map_values(|v: Vec<u8>| v@).push(name@));
                }
            }
        }
        proof {
            state = shallow_step(state, rest[0], path@);
        }
        i += 1;
    }
    assert(sts.skip(flat@.len() as int) =~= Seq::<Statement>::empty());
    out
}

/// What the file at `path`, with syntax tree `block`, exports: variables
/// assigned at its own level (names starting with `_` stay private;
/// assignments inside `declare_args` make arguments), templates it defines,
/// and targets it declares. `imports` holds the environments of the files
/// it imports, in the order `shallow_imports` lists them; each scope imports
/// the matching scope of each of them.
pub fn shallow_environment(block: &Block, path: &[u8], imports: &Vec<FileEnvironment>) -> (r: FileEnvironment)
    requires
        imports@.len() == shallow_analysis(*block, path@).4.len(),
        forall|k: int| 0 <= k < imports@.len() ==> (#[trigger] imports@[k]).wf(),
    ensures
        r.wf(),
        scope_view(r.spec_variables().locals_map()) == shallow_analysis(*block, path@).0,
        scope_view(r.spec_templates().locals_map()) == shallow_analysis(*block, path@).1,
        scope_view(r.spec_targets().locals_map()) == shallow_analysis(*block, path@).2,
        r.spec_variables().imported_arcs() == imports@.map_values(|f: FileEnvironment| f.spec_variables()),
        r.spec_templates().imported_arcs() == imports@.map_values(|f: FileEnvironment| f.spec_templates()),
        r.spec_targets().imported_arcs() == imports@.map_values(|f: FileEnvironment| f.spec_targets()),
{
    let flat = top_level_statements(block);
    let ghost sts = top_level(block.statements@);
    let ghost p = path@;
    let mut vars = VariableScope::new();
    let mut templates = TemplateScope::new();
    let mut targets = TargetScope::new();
    let mut stack: Vec<usize> = Vec::new();
    let mut k: usize = 0;
    let nimports = imports.len();
    let ghost mut names: Seq<Seq<u8>> = seq![];
    let mut i: usize = 0;
    assert(sts.skip(0) =~= sts);
    assert(scope_view(vars.locals_map()) =~= Map::<Seq<u8>, VariableView>::empty());
    assert(scope_view(templates.locals_map()) =~= Map::<Seq<u8>, TemplateView>::empty());
    assert(scope_view(targets.locals_map()) =~= Map::<Seq<u8>, TargetView>::empty());
    assert(imports@.take(0).map_values(|f: FileEnvironment| f.spec_variables()) =~= vars.imported_arcs());
    assert(imports@.take(0).map_values(|f: FileEnvironment| f.spec_templates()) =~= templates.imported_arcs());
    assert(imports@.take(0).map_values(|f: FileEnvironment| f.spec_targets()) =~= targets.imported_arcs());
    while i < flat.len()
        invariant
            i <= flat@.len(),
            crate::ast::derefs(flat@) == sts,
            sts == top_level(block.statements@),
            p == path@,
            vars.wf(),
            templates.wf(),
            targets.wf(),
            imports@.len() == shallow_fold(sts, p, initial_state()).4.len(),
            forall|j: int| 0 <= j < imports@.len() ==> (#[trigger] imports@[j]).wf(),
            k == names.len(),
            k <= imports@.len(),
            nimports == imports@.len(),
            vars.imported_arcs() == imports@.take(k as int).map_values(|f: FileEnvironment| f.spec_variables()),
            templates.imported_arcs() == imports@.take(k as int).map_values(|f: FileEnvironment| f.spec_templates()),
            targets.imported_arcs() == imports@.take(k as int).map_values(|f: FileEnvironment| f.spec_targets()),
            shallow_fold(sts, p, initial_state()) == shallow_fold(
                sts.skip(i as int),
                p,
                (
                    scope_view(vars.locals_map()),
                    scope_view(templates.locals_map()),
                    scope_view(targets.locals_map()),
                    stack@,
                    names,
                ),
            ),
        decreases flat.len() - i,
    {
        let ghost rest = sts.skip(i as int);
        let ghost cur: ShallowState = (
            scope_view(vars.locals_map()),
            scope_view(templates.locals_map()),
            scope_view(targets.locals_map()),
            stack@,
            names,
        );
        assert(rest[0] == *flat@[i as int]);
        assert(rest.drop_first() =~= sts.skip(i + 1));
        let st = flat[i];
        proof {
            lemma_fold_imports_grow(rest.drop_first(), p, shallow_step(cur, rest[0], p));
        }
        let start = st.span().start;
        let ghost stack0 = stack@;
        while stack.len() > 0 && stack[stack.len() - 1] < start
            invariant
                settle(stack0, start) == settle(stack@, start),
            decreases stack@.len(),
        {
            let ghost b = stack@;
            stack.pop();
            assert(stack@ =~= b.drop_last());
        }
        assert(settle(stack@, start) == stack@);
        let is_args = stack.len() > 0;
        match st {
            Statement::Assignment(a) => {
                let id = a.lvalue.primary();
                if is_exported(id.name.as_slice()) {
                    let va = VariableAssignment {
                        path: copy_range(path, 0, path.len()),
                        site: AssignmentSite::Assignment { lvalue: a.lvalue.span(), op: a.op, rvalue: a.rvalue.span() },
                        statement_span: a.span,
                        primary_variable: id.span,
                        comments: copy_lines(&a.comments),
                    };
                    assert(path@.subrange(0, path@.len() as int) =~= path@);
                    record_assignment(&mut vars, id.name.as_slice(), is_args, va);
                }
            },
            Statement::Call(c) => {
                let f = c.function.name.as_slice();
                if is_import(f) {
                    if let Some(name) = only_simple(c) {
                        assert(k < imports@.len());
                        let env = &imports[k];
                        let ghost vb = vars.imported_arcs();
                        let ghost tb = templates.imported_arcs();
                        let ghost gb = targets.imported_arcs();
                        vars.import(env.variables());
                        templates.import(env.templates());
                        targets.import(env.targets());
                        proof {
                            let t1 = imports@.take(k + 1);
                            assert(t1 =~= imports@.take(k as int).push(imports@[k as int]));
                            assert(vars.imported_arcs() =~= t1.map_values(|f: FileEnvironment| f.spec_variables()));
                            assert(templates.imported_arcs() =~= t1.map_values(|f: FileEnvironment| f.spec_templates()));
                            assert(targets.imported_arcs() =~= t1.map_values(|f: FileEnvironment| f.spec_targets()));
                            names = names.push(name@);
                        }
                        k += 1;
                    }
                } else if is_template(f) {
                    if let Some(name) = only_simple(c) {
                        if is_exported(name) {
                            let t = Template {
                                path: copy_range(path, 0, path.len()),
                                call_span: c.span,
                                name: copy_range(name, 0, name.len()),
                                comments: copy_lines(&c.comments),
                                header: c.function.span,
                            };
                            assert(path@.subrange(0, path@.len() as int) =~= path@);
                            assert(name@.subrange(0, name@.len() as int) =~= name@);
                            let ghost m = templates.locals_map();
                            templates.insert(name, t);
                            assert(scope_view(templates.locals_map()) =~= scope_view(m).insert(name@, t@));
                        }
                    }
                } else if is_declare_args(f) {
                    stack.push(c.span.end);
                } else if is_foreach(f) || is_set_defaults(f) {
                } else if is_forward_variables_from(f) {
                    record_forwarded_exec(&mut vars, c, path, is_args);
                } else {
                    if let Some(name) = only_simple(c) {
                        let t = Target {
                            path: copy_range(path, 0, path.len()),
                            call_span: c.span,
                            name: copy_range(name, 0, name.len()),
                        };
                        assert(path@.subrange(0, path@.len() as int) =~= path@);
                        assert(name@.subrange(0, name@.len() as int) =~= name@);
                        let ghost m = targets.locals_map();
                        targets.insert(name, t);
                        assert(scope_view(targets.locals_map()) =~= scope_view(m).insert(name@, t@));
                    }
                }
            },
            _ => {},
        }
        assert(shallow_step(cur, rest[0], p) == (
            scope_view(vars.locals_map()),
            scope_view(templates.locals_map()),
            scope_view(targets.locals_map()),
            stack@,
            names,
        ));
        i += 1;
    }
    assert(sts.skip(flat@.len() as int) =~= Seq::<Statement>::empty());
    assert(imports@.take(k as int) =~= imports@);
    FileEnvironment::from_scopes(vars, templates, targets)
}


proof fn lemma_record_exported(vars: Map<Seq<u8>, VariableView>, name: Seq<u8>, is_args: bool, a: AssignmentView)
    requires
        spec_is_exported(name),
        forall|k: Seq<u8>| #[trigger] vars.contains_key(k) ==> spec_is_exported(k),
    ensures
        forall|k: Seq<u8>| #[trigger] record(vars, name, is_args, a).contains_key(k) ==> spec_is_exported(k),
{
}

proof fn lemma_forwarded_exported(
    vars: Map<Seq<u8>, VariableView>,
    values: Seq<Expr>,
    path: Seq<u8>,
    call_span: crate::ast::Span,
    is_args: bool,
)
    requires
        forall|k: Seq<u8>| #[trigger] vars.contains_key(k) ==> spec_is_exported(k),
    ensures
        forall|k: Seq<u8>| #[trigger] record_forwarded(vars, values, path, call_span, is_args).contains_key(k)
            ==> spec_is_exported(k),
    decreases values.len(),
{
    if values.len() > 0 {
        let next = match values[0].spec_as_primary_string() {
            Some(s) => if is_simple_literal(s.raw_value@) && spec_is_exported(s.raw_value@) {
                record(vars, s.raw_value@, is_args, (path, AssignmentSite::Forward, call_span, s.span, seq![]))
            } else {
                vars
            },
            None => vars,
        };
        match values[0].spec_as_primary_string() {
            Some(s) => if is_simple_literal(s.raw_value@) && spec_is_exported(s.raw_value@) {
                lemma_record_exported(vars, s.raw_value@, is_args, (path, AssignmentSite::Forward, call_span, s.span, seq![]));
            },
            None => {},
        }
        lemma_forwarded_exported(next, values.drop_first(), path, call_span, is_args);
        assert(record_forwarded(vars, values, path, call_span, is_args) == record_forwarded(
            next,
            values.drop_first(),
            path,
            call_span,
            is_args,
        ));
    }
}

proof fn lemma_fold_exported(sts: Seq<Statement>, path: Seq<u8>, s: ShallowState)
    requires
        forall|k: Seq<u8>| #[trigger] s.0.contains_key(k) ==> spec_is_exported(k),
        forall|k: Seq<u8>| #[trigger] s.1.contains_key(k) ==> spec_is_exported(k),
    ensures
        forall|k: Seq<u8>| #[trigger] shallow_fold(sts, path, s).0.contains_key(k) ==> spec_is_exported(k),
        forall|k: Seq<u8>| #[trigger] shallow_fold(sts, path, s).1.contains_key(k) ==> spec_is_exported(k),
    decreases sts.len(),
{
    if sts.len() > 0 {
        let st = sts[0];
        let next = shallow_step(s, st, path);
        let is_args = settle(s.3, st.spec_span().start).len() > 0;
        match st {
            Statement::Assignment(a) => {
                let id = a.lvalue.spec_primary();
                if spec_is_exported(id.name@) {
                    lemma_record_exported(
                        s.0,
                        id.name@,
                        is_args,
                        (path, AssignmentSite::Assignment { lvalue: a.lvalue.spec_span(), op: a.op, rvalue: a.rvalue.spec_span() }, a.span, id.span, lines_view(a.comments.lines@)),
                    );
                }
            },
            Statement::Call(c) => {
                lemma_forwarded_exported(s.0, forwarded_values(*c), path, c.span, is_args);
            },
            _ => {},
        }
        assert forall|k: Seq<u8>| #[trigger] next.0.contains_key(k) implies spec_is_exported(k) by {}
        assert forall|k: Seq<u8>| #[trigger] next.1.contains_key(k) implies spec_is_exported(k) by {}
        lemma_fold_exported(sts.drop_first(), path, next);
        assert(shallow_fold(sts, path, s) == shallow_fold(sts.drop_first(), path, next));
    }
}

/// A file exports no variable and no template whose name starts with `_`.
pub proof fn lemma_private_names_stay_private(block: Block, path: Seq<u8>)
    ensures
        forall|k: Seq<u8>| #[trigger] shallow_analysis(block, path).0.contains_key(k) ==> spec_is_exported(k),
        forall|k: Seq<u8>| #[trigger] shallow_analysis(block, path).1.contains_key(k) ==> spec_is_exported(k),
{
    lemma_fold_exported(top_level(block.statements@), path, initial_state());
}

} // verus!
