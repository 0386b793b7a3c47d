//! Identifiers read before anything defines them, in the file being edited.
//!
//! Statements are visited in order at each level; an identifier is reported
//! when neither GN, nor an earlier assignment, nor an imported file defines
//! it. Blocks inside a statement see what is defined before the statement;
//! what they define stays inside them. After `forward_variables_from` with a
//! list that is not all simple strings, nothing more is reported.

use std::sync::Arc;

use vstd::prelude::*;
use vstd::string::StringSliceAdditionalSpecFns;

use crate::analyzed::{includes_view, opt_names, AnalyzedBlock, AnalyzedCondition, AnalyzedElse, AnalyzedStatement};
use crate::ast::Span;
use crate::builtins::BuiltinSymbols;
use crate::environment::lookup_in;
use crate::items::{Variable, VariableScope};
use crate::workspace::copy_range;

verus! {

/// What the analysis knows is defined: names, and imported scopes; `None` once
/// it cannot tell any more.
pub type Tracker = Option<(Set<Seq<u8>>, Seq<Arc<VariableScope>>)>;

pub open spec fn may_contain(t: Tracker, name: Seq<u8>) -> bool {
    match t {
        None => true,
        Some(k) => k.0.contains(name) || lookup_in(k.1, name) is Some,
    }
}

/// The uses among `uses` of names not known to `t`.
pub open spec fn undefined_uses(uses: Seq<(Seq<u8>, Span)>, t: Tracker) -> Seq<(Seq<u8>, Span)>
    decreases uses.len(),
{
    if uses.len() == 0 {
        seq![]
    } else {
        (if may_contain(t, uses[0].0) {
            seq![]
        } else {
            seq![uses[0]]
        }) + undefined_uses(uses.drop_first(), t)
    }
}

pub open spec fn insert_names(t: Tracker, names: Seq<Seq<u8>>) -> Tracker {
    match t {
        None => None,
        Some(k) => Some((k.0 + names.to_set(), k.1)),
    }
}

/// What a statement defines for the statements after it.
pub open spec fn track(t: Tracker, st: AnalyzedStatement) -> Tracker {
    match st {
        AnalyzedStatement::Assignment(a) => if a.defines {
            insert_names(t, seq![a.name@])
        } else {
            t
        },
        AnalyzedStatement::Foreach(f) => insert_names(t, seq![f.loop_variable@]),
        AnalyzedStatement::ForwardVariablesFrom(f) => match opt_names(f.simple_includes) {
            Some(names) => insert_names(t, names),
            None => None,
        },
        AnalyzedStatement::Import(i) => match t {
            None => None,
            Some(k) => Some((k.0, k.1.push(i.file.spec_variables()))),
        },
        AnalyzedStatement::SyntheticImport(i) => match t {
            None => None,
            Some(k) => Some((k.0, k.1.push(i.file.spec_variables()))),
        },
        _ => t,
    }
}

/// The identifiers the condition expressions of a chain read.
pub open spec fn chain_uses(c: AnalyzedCondition) -> Seq<(Seq<u8>, Span)>
    decreases c,
{
    includes_view(c.uses@) + match c.else_block {
        Some(AnalyzedElse::Condition(n)) => chain_uses(*n),
        _ => seq![],
    }
}

/// The identifiers a statement reads.
pub open spec fn statement_uses(st: AnalyzedStatement) -> Seq<(Seq<u8>, Span)> {
    match st {
        AnalyzedStatement::Assignment(a) => includes_view(a.uses@),
        AnalyzedStatement::Conditions(c) => chain_uses(*c),
        AnalyzedStatement::Foreach(f) => includes_view(f.uses@),
        AnalyzedStatement::ForwardVariablesFrom(f) => includes_view(f.uses@),
        AnalyzedStatement::Target(x) => includes_view(x.uses@),
        AnalyzedStatement::Template(x) => includes_view(x.uses@),
        AnalyzedStatement::GenericCall(g) => includes_view(g.uses@),
        _ => seq![],
    }
}

/// The analysis of statements at one level, in order: each statement's own
/// reads, then its blocks (each with what is known before the statement),
/// then what it defines is learned, then the statements at the same level
/// inside it.
pub open spec fn diag_walk(sts: Seq<AnalyzedStatement>, t: Tracker) -> (Seq<(Seq<u8>, Span)>, Tracker)
    decreases sts, 1nat,
{
    if sts.len() == 0 {
        (seq![], t)
    } else {
        let d1 = undefined_uses(statement_uses(sts[0]), t) + diag_sub(sts[0], t);
        let inner = diag_inner(sts[0], track(t, sts[0]));
        let rest = diag_walk(sts.subrange(1, sts.len() as int), inner.1);
        (d1 + inner.0 + rest.0, rest.1)
    }
}

pub open spec fn diag_inner(st: AnalyzedStatement, t: Tracker) -> (Seq<(Seq<u8>, Span)>, Tracker)
    decreases st, 0nat,
{
    match st {
        AnalyzedStatement::Conditions(c) => diag_cond(*c, t),
        AnalyzedStatement::DeclareArgs(d) => diag_walk(d.body_block.statements@, t),
        AnalyzedStatement::Foreach(f) => diag_walk(f.body_block.statements@, t),
        _ => (seq![], t),
    }
}

pub open spec fn diag_cond(c: AnalyzedCondition, t: Tracker) -> (Seq<(Seq<u8>, Span)>, Tracker)
    decreases c, 0nat,
{
    let a = diag_walk(c.then_block.statements@, t);
    match c.else_block {
        None => a,
        Some(AnalyzedElse::Condition(n)) => {
            let b = diag_cond(*n, a.1);
            (a.0 + b.0, b.1)
        },
        Some(AnalyzedElse::Block(b)) => {
            let x = diag_walk(b.statements@, a.1);
            (a.0 + x.0, x.1)
        },
    }
}

pub open spec fn diag_block(b: AnalyzedBlock, t: Tracker) -> Seq<(Seq<u8>, Span)>
    decreases b, 2nat,
{
    diag_walk(b.statements@, t).0
}

pub open spec fn diag_blocks(bs: Seq<AnalyzedBlock>, t: Tracker) -> Seq<(Seq<u8>, Span)>
    decreases bs, 1nat,
{
    if bs.len() == 0 {
        seq![]
    } else {
        diag_block(bs[0], t) + diag_blocks(bs.subrange(1, bs.len() as int), t)
    }
}

pub open spec fn diag_cond_exprs(c: AnalyzedCondition, t: Tracker) -> Seq<(Seq<u8>, Span)>
    decreases c, 1nat,
{
    diag_blocks(c.expr_scopes@, t) + match c.else_block {
        Some(AnalyzedElse::Condition(n)) => diag_cond_exprs(*n, t),
        _ => seq![],
    }
}

/// The blocks of a statement: its body, then those of its expressions.
pub open spec fn diag_sub(st: AnalyzedStatement, t: Tracker) -> Seq<(Seq<u8>, Span)>
    decreases st, 1nat,
{
    match st {
        AnalyzedStatement::Assignment(a) => diag_blocks(a.expr_scopes@, t),
        AnalyzedStatement::Conditions(c) => diag_cond_exprs(*c, t),
        AnalyzedStatement::Foreach(f) => diag_blocks(f.expr_scopes@, t),
        AnalyzedStatement::ForwardVariablesFrom(f) => diag_blocks(f.expr_scopes@, t),
        AnalyzedStatement::Target(x) => diag_block(x.body_block, t) + diag_blocks(x.expr_scopes@, t),
        AnalyzedStatement::Template(x) => diag_block(x.body_block, t) + diag_blocks(x.expr_scopes@, t),
        AnalyzedStatement::GenericCall(g) => match g.body_block {
            Some(b) => diag_block(b, t) + diag_blocks(g.expr_scopes@, t),
            None => diag_blocks(g.expr_scopes@, t),
        },
        _ => seq![],
    }
}

/// What the analysis knows, held as plain values.
pub struct VariablesTracker {
    names: Vec<Vec<u8>>,
    imports: Vec<Arc<VariableScope>>,
    trackable: bool,
}

impl VariablesTracker {
    pub closed spec fn view(&self) -> Tracker {
        if self.trackable {
            Some((self.names@.map_values(|n: Vec<u8>| n@).to_set(), self.imports@))
        } else {
            None
        }
    }

    pub closed spec fn wf(&self) -> bool {
        forall|i: int| 0 <= i < self.imports@.len() ==> #[trigger] self.imports@[i].wf()
    }

    /// A tracker that knows what `builtins` holds.
    pub fn new(builtins: &Arc<VariableScope>) -> (r: VariablesTracker)
        requires
            builtins.wf(),
        ensures
            r.wf(),
            r.view() == Some((Set::<Seq<u8>>::empty(), seq![*builtins])),
    {
        let mut imports: Vec<Arc<VariableScope>> = Vec::new();
        imports.push(Arc::clone(builtins));
        let r = VariablesTracker { names: Vec::new(), imports, trackable: true };
        assert(r.names@.map_values(|n: Vec<u8>| n@).to_set() =~= Set::<Seq<u8>>::empty());
        assert(r.imports@ =~= seq![*builtins]);
        r
    }

    /// A copy.
    fn copy(&self) -> (r: VariablesTracker)
        requires
            self.wf(),
        ensures
            r.wf(),
            r.view() == self.view(),
    {
        let mut names: Vec<Vec<u8>> = Vec::new();
        let mut i: usize = 0;
        while i < self.names.len()
            invariant
                i <= self.names@.len(),
                names@.len() == i,
                forall|j: int| 0 <= j < i ==> #[trigger] names@[j]@ == self.names@[j]@,
            decreases self.names.len() - i,
        {
            let c = copy_range(self.names[i].as_slice(), 0, self.names[i].len());
            assert(c@ =~= self.names@[i as int]@);
            names.push(c);
            i += 1;
        }
        let mut imports: Vec<Arc<VariableScope>> = Vec::new();
        let mut k: usize = 0;
        while k < self.imports.len()
            invariant
                k <= self.imports@.len(),
                imports@ == self.imports@.take(k as int),
            decreases self.imports.len() - k,
        {
            imports.push(Arc::clone(&self.imports[k]));
            assert(imports@ =~= self.imports@.take(k + 1));
            k += 1;
        }
        assert(self.imports@.take(self.imports@.len() as int) =~= self.imports@);
        let r = VariablesTracker { names, imports, trackable: self.trackable };
        assert(r.names@.map_values(|n: Vec<u8>| n@) =~= self.names@.map_values(|n: Vec<u8>| n@));
        r
    }

    /// Whether `name` may be defined.
    pub fn may_contain(&self, name: &[u8]) -> (r: bool)
        requires
            self.wf(),
        ensures
            r == may_contain(self.view(), name@),
    {
        if !self.trackable {
            return true;
        }
        let mut i: usize = 0;
        while i < self.names.len()
            invariant
                i <= self.names@.len(),
                forall|j: int| 0 <= j < i ==> #[trigger] self.names@[j]@ != name@,
            decreases self.names.len() - i,
        {
            if crate::storage::bytes_eq(self.names[i].as_slice(), name) {
                assert(self.names@.map_values(|n: Vec<u8>| n@)[i as int] == name@);
                assert(self.names@.map_values(|n: Vec<u8>| n@).to_set().contains(name@));
                return true;
            }
            i += 1;
        }
        assert(!self.names@.map_values(|n: Vec<u8>| n@).to_set().contains(name@)) by {
            let ns = self.names@.map_values(|n: Vec<u8>| n@);
            if ns.to_set().contains(name@) {
                let w = choose|j: int| 0 <= j < ns.len() && #[trigger] ns[j] == name@;
                assert(self.names@[w]@ == name@);
            }
        }
        proof {
            crate::environment::lemma_lookup_in_exists(self.imports@, name@);
        }
        let mut k: usize = 0;
        while k < self.imports.len()
            invariant
                k <= self.imports@.len(),
                forall|j: int| 0 <= j < k ==> !(#[trigger] self.imports@[j].lookup(name@) is Some),
            decreases self.imports.len() - k,
        {
            if self.imports[k].contains(name) {
                assert(self.imports@[k as int].lookup(name@) is Some);
                proof {
                    crate::environment::lemma_lookup_in_exists(self.imports@, name@);
                }
                return true;
            }
            k += 1;
        }
        false
    }

    fn insert(&mut self, name: &[u8])
        ensures
            final(self).wf() == old(self).wf(),
            final(self).view() == insert_names(old(self).view(), seq![name@]),
    {
        if self.trackable {
            let ghost before = self.names@;
            self.names.push(copy_range(name, 0, name.len()));
            assert(name@.subrange(0, name@.len() as int) =~= name@);
            assert(self.names@.map_values(|n: Vec<u8>| n@) =~= before.map_values(|n: Vec<u8>| n@).push(name@));
            proof {
                let ns = before.map_values(|n: Vec<u8>| n@);
                ns.lemma_push_to_set_commute(name@);
                assert(seq![name@].to_set() =~= set![name@]) by {
                    assert(seq![name@][0] == name@);
                }
                assert(ns.to_set().insert(name@) =~= ns.to_set() + seq![name@].to_set());
            }
        }
    }

    fn import(&mut self, other: &Arc<VariableScope>)
        requires
            old(self).wf(),
            other.wf(),
        ensures
            final(self).wf(),
            final(self).view() == match old(self).view() {
                None => None,
                Some(k) => Some((k.0, k.1.push(*other))),
            },
    {
        if self.trackable {
            let ghost before = self.imports@;
            self.imports.push(Arc::clone(other));
            assert(self.imports@ =~= before.push(*other));
            assert forall|i: int| 0 <= i < self.imports@.len() implies #[trigger] self.imports@[i].wf() by {
                if i < before.len() {
                    assert(self.imports@[i] == before[i]);
                }
            }
        }
    }

    fn set_untrackable(&mut self)
        ensures
            final(self).imports == old(self).imports,
            final(self).view() is None,
    {
        self.trackable = false;
    }
}


proof fn lemma_undefined_concat(a: Seq<(Seq<u8>, Span)>, b: Seq<(Seq<u8>, Span)>, t: Tracker)
    ensures
        undefined_uses(a + b, t) == undefined_uses(a, t) + undefined_uses(b, t),
    decreases a.len(),
{
    if a.len() == 0 {
        assert(a + b =~= b);
        assert(Seq::<(Seq<u8>, Span)>::empty() + undefined_uses(b, t) =~= undefined_uses(b, t));
    } else {
        lemma_undefined_concat(a.drop_first(), b, t);
        assert((a + b).drop_first() =~= a.drop_first() + b);
        assert((a + b)[0] == a[0]);
        let h = if may_contain(t, a[0].0) {
            Seq::<(Seq<u8>, Span)>::empty()
        } else {
            seq![a[0]]
        };
        assert(h + (undefined_uses(a.drop_first(), t) + undefined_uses(b, t)) =~= (h + undefined_uses(
            a.drop_first(),
            t,
        )) + undefined_uses(b, t));
    }
}

/// Appends the uses of names `t` does not know.
fn report_undefined(uses: &Vec<(Vec<u8>, Span)>, t: &VariablesTracker, out: &mut Vec<(Vec<u8>, Span)>)
    requires
        t.wf(),
    ensures
        includes_view(final(out)@) == includes_view(old(out)@) + undefined_uses(includes_view(uses@), t.view()),
{
    let n = uses.len();
    let ghost all = includes_view(uses@);
    let ghost start = includes_view(out@);
    let mut i: usize = 0;
    assert(all.skip(0) =~= all);
    while i < n
        invariant
            n == uses@.len(),
            all == includes_view(uses@),
            i <= n,
            t.wf(),
            start + undefined_uses(all, t.view()) == includes_view(out@) + undefined_uses(all.skip(i as int), t.view()),
        decreases n - i,
    {
        let ghost rest = all.skip(i as int);
        assert(rest[0] == all[i as int]);
        assert(rest.drop_first() =~= all.skip(i + 1));
        let ghost before = includes_view(out@);
        if !t.may_contain(uses[i].0.as_slice()) {
            let c = copy_range(uses[i].0.as_slice(), 0, uses[i].0.len());
            assert(c@ =~= uses@[i as int].0@);
            out.push((c, uses[i].1));
            assert(includes_view(out@) =~= before.push(rest[0]));
            assert(before + undefined_uses(rest, t.view()) =~= includes_view(out@) + undefined_uses(
                rest.drop_first(),
                t.view(),
            ));
        } else {
            assert(before + undefined_uses(rest, t.view()) =~= includes_view(out@) + undefined_uses(
                rest.drop_first(),
                t.view(),
            ));
        }
        i += 1;
    }
    assert(all.skip(n as int) =~= Seq::<(Seq<u8>, Span)>::empty());
    assert(includes_view(out@) + Seq::<(Seq<u8>, Span)>::empty() =~= includes_view(out@));
}

fn report_chain(c: &AnalyzedCondition, t: &VariablesTracker, out: &mut Vec<(Vec<u8>, Span)>)
    requires
        t.wf(),
    ensures
        includes_view(final(out)@) == includes_view(old(out)@) + undefined_uses(chain_uses(*c), t.view()),
    decreases *c,
{
    let ghost start = includes_view(out@);
    report_undefined(&c.uses, t, out);
    let ghost mid = includes_view(out@);
    match &c.else_block {
        Some(AnalyzedElse::Condition(n)) => {
            report_chain(n, t, out);
            proof {
                lemma_undefined_concat(includes_view(c.uses@), chain_uses(**n), t.view());
            }
            assert(includes_view(out@) =~= start + undefined_uses(chain_uses(*c), t.view()));
        },
        _ => {
            assert(includes_view(c.uses@) + Seq::<(Seq<u8>, Span)>::empty() =~= includes_view(c.uses@));
            assert(chain_uses(*c) =~= includes_view(c.uses@));
        },
    }
}

fn report_statement(st: &AnalyzedStatement, t: &VariablesTracker, out: &mut Vec<(Vec<u8>, Span)>)
    requires
        t.wf(),
    ensures
        includes_view(final(out)@) == includes_view(old(out)@) + undefined_uses(statement_uses(*st), t.view()),
{
    match st {
        AnalyzedStatement::Assignment(a) => report_undefined(&a.uses, t, out),
        AnalyzedStatement::Conditions(c) => report_chain(c, t, out),
        AnalyzedStatement::Foreach(f) => report_undefined(&f.uses, t, out),
        AnalyzedStatement::ForwardVariablesFrom(f) => report_undefined(&f.uses, t, out),
        AnalyzedStatement::Target(x) => report_undefined(&x.uses, t, out),
        AnalyzedStatement::Template(x) => report_undefined(&x.uses, t, out),
        AnalyzedStatement::GenericCall(g) => report_undefined(&g.uses, t, out),
        _ => {
            assert(includes_view(out@) + Seq::<(Seq<u8>, Span)>::empty() =~= includes_view(out@));
        },
    }
}

fn track_exec(st: &AnalyzedStatement, t: &mut VariablesTracker)
    requires
        old(t).wf(),
    ensures
        final(t).wf(),
        final(t).view() == track(old(t).view(), *st),
{
    match st {
        AnalyzedStatement::Assignment(a) => {
            if a.defines {
                t.insert(a.name.as_slice());
            }
        },
        AnalyzedStatement::Foreach(f) => {
            t.insert(f.loop_variable.as_slice());
        },
        AnalyzedStatement::ForwardVariablesFrom(f) => match &f.simple_includes {
            Some(names) => {
                let ghost start = t.view();
                let ghost all = names@.map_values(|x: Vec<u8>| x@);
                let mut i: usize = 0;
                assert(all.take(0).to_set() =~= Set::<Seq<u8>>::empty());
                proof {
                    match start {
                        Some(k) => {
                            assert(k.0 + Set::<Seq<u8>>::empty() =~= k.0);
                        },
                        None => {},
                    }
                }
                while i < names.len()
                    invariant
                        i <= names@.len(),
                        all == names@.map_values(|x: Vec<u8>| x@),
                        t.wf(),
                        t.view() == insert_names(start, all.take(i as int)),
                    decreases names.len() - i,
                {
                    t.insert(names[i].as_slice());
                    proof {
                        assert(all.take(i + 1) =~= all.take(i as int).push(all[i as int]));
                        all.take(i as int).lemma_push_to_set_commute(all[i as int]);
                        match start {
                            Some(k) => {
                                assert(seq![all[i as int]].to_set() =~= set![all[i as int]]) by {
                                    assert(seq![all[i as int]][0] == all[i as int]);
                                }
                                assert((k.0 + all.take(i as int).to_set()) + seq![all[i as int]].to_set() =~= k.0
                                    + all.take(i + 1).to_set());
                            },
                            None => {},
                        }
                    }
                    i += 1;
                }
                assert(all.take(names@.len() as int) =~= all);
            },
            None => t.set_untrackable(),
        },
        AnalyzedStatement::Import(i) => t.import(i.file.variables()),
        AnalyzedStatement::SyntheticImport(i) => t.import(i.file.variables()),
        _ => {},
    }
}

fn diag_walk_exec(sts: &Vec<AnalyzedStatement>, t: &mut VariablesTracker, out: &mut Vec<(Vec<u8>, Span)>)
    requires
        old(t).wf(),
    ensures
        final(t).wf(),
        includes_view(final(out)@) == includes_view(old(out)@) + diag_walk(sts@, old(t).view()).0,
        final(t).view() == diag_walk(sts@, old(t).view()).1,
    decreases sts@, 1nat,
{
    let n = sts.len();
    let mut i: usize = 0;
    let ghost start = includes_view(out@);
    let ghost t0 = t.view();
    assert(sts@.subrange(0, n as int) =~= sts@);
    while i < n
        invariant
            n == sts@.len(),
            i <= n,
            t.wf(),
            start + diag_walk(sts@, t0).0 == includes_view(out@) + diag_walk(sts@.subrange(i as int, n as int), t.view()).0,
            diag_walk(sts@, t0).1 == diag_walk(sts@.subrange(i as int, n as int), t.view()).1,
        decreases n - i,
    {
        let ghost rest = sts@.subrange(i as int, n as int);
        assert(rest[0] == sts@[i as int]);
        assert(rest.subrange(1, rest.len() as int) =~= sts@.subrange(i + 1, n as int));
        proof {
            assert(decreases_to!(sts@ => sts@[i as int]));
        }
        let ghost tb = t.view();
        let ghost ob = includes_view(out@);
        let st = &sts[i];
        report_statement(st, t, out);
        diag_sub_exec(st, t, out);
        track_exec(st, t);
        diag_inner_exec(st, t, out);
        proof {
            let d1 = undefined_uses(statement_uses(rest[0]), tb) + diag_sub(rest[0], tb);
            let inner = diag_inner(rest[0], track(tb, rest[0]));
            let r2 = diag_walk(rest.subrange(1, rest.len() as int), inner.1);
            assert(diag_walk(rest, tb).0 == d1 + inner.0 + r2.0);
            assert(ob + (d1 + inner.0 + r2.0) =~= includes_view(out@) + r2.0);
        }
        i += 1;
    }
    assert(sts@.subrange(n as int, n as int) =~= Seq::<AnalyzedStatement>::empty());
    assert(includes_view(out@) + Seq::<(Seq<u8>, Span)>::empty() =~= includes_view(out@));
}

fn diag_inner_exec(st: &AnalyzedStatement, t: &mut VariablesTracker, out: &mut Vec<(Vec<u8>, Span)>)
    requires
        old(t).wf(),
    ensures
        final(t).wf(),
        includes_view(final(out)@) == includes_view(old(out)@) + diag_inner(*st, old(t).view()).0,
        final(t).view() == diag_inner(*st, old(t).view()).1,
    decreases *st, 0nat,
{
    match st {
        AnalyzedStatement::Conditions(c) => diag_cond_exec(c, t, out),
        AnalyzedStatement::DeclareArgs(d) => diag_walk_exec(&d.body_block.statements, t, out),
        AnalyzedStatement::Foreach(f) => diag_walk_exec(&f.body_block.statements, t, out),
        _ => {
            assert(includes_view(out@) + Seq::<(Seq<u8>, Span)>::empty() =~= includes_view(out@));
        },
    }
}

fn diag_cond_exec(c: &AnalyzedCondition, t: &mut VariablesTracker, out: &mut Vec<(Vec<u8>, Span)>)
    requires
        old(t).wf(),
    ensures
        final(t).wf(),
        includes_view(final(out)@) == includes_view(old(out)@) + diag_cond(*c, old(t).view()).0,
        final(t).view() == diag_cond(*c, old(t).view()).1,
    decreases *c, 0nat,
{
    let ghost start = includes_view(out@);
    diag_walk_exec(&c.then_block.statements, t, out);
    match &c.else_block {
        None => {},
        Some(AnalyzedElse::Condition(n)) => {
            diag_cond_exec(n, t, out);
            assert(includes_view(out@) =~= start + diag_cond(*c, old(t).view()).0);
        },
        Some(AnalyzedElse::Block(b)) => {
            diag_walk_exec(&b.statements, t, out);
            assert(includes_view(out@) =~= start + diag_cond(*c, old(t).view()).0);
        },
    }
}

fn diag_block_exec(b: &AnalyzedBlock, t: &VariablesTracker, out: &mut Vec<(Vec<u8>, Span)>)
    requires
        t.wf(),
    ensures
        includes_view(final(out)@) == includes_view(old(out)@) + diag_block(*b, t.view()),
    decreases *b, 2nat,
{
    let mut inner = t.copy();
    diag_walk_exec(&b.statements, &mut inner, out);
}

fn diag_blocks_exec(bs: &Vec<AnalyzedBlock>, t: &VariablesTracker, out: &mut Vec<(Vec<u8>, Span)>)
    requires
        t.wf(),
    ensures
        includes_view(final(out)@) == includes_view(old(out)@) + diag_blocks(bs@, t.view()),
    decreases bs@, 1nat,
{
    let n = bs.len();
    let mut i: usize = 0;
    let ghost start = includes_view(out@);
    assert(bs@.subrange(0, n as int) =~= bs@);
    while i < n
        invariant
            n == bs@.len(),
            i <= n,
            t.wf(),
            start + diag_blocks(bs@, t.view()) == includes_view(out@) + diag_blocks(bs@.subrange(i as int, n as int), t.view()),
        decreases n - i,
    {
        let ghost rest = bs@.subrange(i as int, n as int);
        assert(rest[0] == bs@[i as int]);
        assert(rest.subrange(1, rest.len() as int) =~= bs@.subrange(i + 1, n as int));
        proof {
            assert(decreases_to!(bs@ => bs@[i as int]));
        }
        let ghost ob = includes_view(out@);
        diag_block_exec(&bs[i], t, out);
        assert(ob + diag_blocks(rest, t.view()) =~= includes_view(out@) + diag_blocks(rest.subrange(1, rest.len() as int), t.view()));
        i += 1;
    }
    assert(bs@.subrange(n as int, n as int) =~= Seq::<AnalyzedBlock>::empty());
    assert(includes_view(out@) + Seq::<(Seq<u8>, Span)>::empty() =~= includes_view(out@));
}

fn diag_cond_exprs_exec(c: &AnalyzedCondition, t: &VariablesTracker, out: &mut Vec<(Vec<u8>, Span)>)
    requires
        t.wf(),
    ensures
        includes_view(final(out)@) == includes_view(old(out)@) + diag_cond_exprs(*c, t.view()),
    decreases *c, 1nat,
{
    let ghost start = includes_view(out@);
    diag_blocks_exec(&c.expr_scopes, t, out);
    match &c.else_block {
        Some(AnalyzedElse::Condition(n)) => {
            diag_cond_exprs_exec(n, t, out);
        },
        _ => {},
    }
    assert(includes_view(out@) =~= start + diag_cond_exprs(*c, t.view()));
}

fn diag_sub_exec(st: &AnalyzedStatement, t: &VariablesTracker, out: &mut Vec<(Vec<u8>, Span)>)
    requires
        t.wf(),
    ensures
        includes_view(final(out)@) == includes_view(old(out)@) + diag_sub(*st, t.view()),
    decreases *st, 1nat,
{
    let ghost start = includes_view(out@);
    match st {
        AnalyzedStatement::Assignment(a) => diag_blocks_exec(&a.expr_scopes, t, out),
        AnalyzedStatement::Conditions(c) => diag_cond_exprs_exec(c, t, out),
        AnalyzedStatement::Foreach(f) => diag_blocks_exec(&f.expr_scopes, t, out),
        AnalyzedStatement::ForwardVariablesFrom(f) => diag_blocks_exec(&f.expr_scopes, t, out),
        AnalyzedStatement::Target(x) => {
            diag_block_exec(&x.body_block, t, out);
            diag_blocks_exec(&x.expr_scopes, t, out);
        },
        AnalyzedStatement::Template(x) => {
            diag_block_exec(&x.body_block, t, out);
            diag_blocks_exec(&x.expr_scopes, t, out);
        },
        AnalyzedStatement::GenericCall(g) => {
            match &g.body_block {
                Some(b) => diag_block_exec(b, t, out),
                None => {},
            }
            diag_blocks_exec(&g.expr_scopes, t, out);
        },
        _ => {},
    }
    assert(includes_view(out@) =~= start + diag_sub(*st, t.view()));
}

/// `true` and `false`
pub open spec fn true_name() -> Seq<u8> {
    seq![116u8, 114u8, 117u8, 101u8]
}

pub open spec fn false_name() -> Seq<u8> {
    seq![102u8, 97u8, 108u8, 115u8, 101u8]
}

/// The names GN itself defines: `true`, `false`, and every builtin symbol.
pub open spec fn builtin_names(symbols: Seq<crate::builtins::BuiltinSymbol>) -> Set<Seq<u8>> {
    set![true_name(), false_name()] + symbols.map_values(|s: crate::builtins::BuiltinSymbol| s.name.spec_bytes()).to_set()
}

/// The scope of the names GN itself defines.
pub fn builtin_scope(symbols: &BuiltinSymbols) -> (r: VariableScope)
    ensures
        r.wf(),
        r.locals_map().dom() == builtin_names(symbols.spec_all()),
        r.imported_arcs().len() == 0,
{
    let mut scope = VariableScope::new();
    let t: &[u8] = &[116u8, 114u8, 117u8, 101u8];
    let f: &[u8] = &[102u8, 97u8, 108u8, 115u8, 101u8];
    assert(t@ =~= true_name());
    assert(f@ =~= false_name());
    scope.insert(t, Variable::new(false));
    scope.insert(f, Variable::new(false));
    let all = symbols.all();
    let ghost syms = symbols.spec_all();
    let ghost names = syms.map_values(|s: crate::builtins::BuiltinSymbol| s.name.spec_bytes());
    let mut i: usize = 0;
    assert(scope.locals_map().dom() =~= set![true_name(), false_name()] + names.take(0).to_set());
    while i < all.len()
        invariant
            i <= all@.len(),
            crate::ast::derefs(all@) == syms,
            names == syms.map_values(|s: crate::builtins::BuiltinSymbol| s.name.spec_bytes()),
            scope.wf(),
            scope.imported_arcs().len() == 0,
            scope.locals_map().dom() == set![true_name(), false_name()] + names.take(i as int).to_set(),
        decreases all.len() - i,
    {
        let name = all[i].name.as_bytes();
        assert(all@[i as int] == syms[i as int]);
        scope.insert(name, Variable::new(false));
        proof {
            assert(names.take(i + 1) =~= names.take(i as int).push(names[i as int]));
            names.take(i as int).lemma_push_to_set_commute(names[i as int]);
            assert(scope.locals_map().dom() =~= set![true_name(), false_name()] + names.take(i + 1).to_set());
        }
        i += 1;
    }
    assert(names.take(all@.len() as int) =~= names);
    scope
}

/// The identifiers of `block`, the analyzed root of the file being edited,
/// read where nothing defines them: not GN itself (`builtins`), not an
/// earlier statement, not an imported file.
pub fn undefined_identifiers(block: &AnalyzedBlock, builtins: &Arc<VariableScope>) -> (r: Vec<(Vec<u8>, Span)>)
    requires
        builtins.wf(),
    ensures
        includes_view(r@) == diag_block(*block, Some((Set::<Seq<u8>>::empty(), seq![*builtins]))),
{
    let tracker = VariablesTracker::new(builtins);
    let mut out: Vec<(Vec<u8>, Span)> = Vec::new();
    assert(includes_view(out@) =~= Seq::<(Seq<u8>, Span)>::empty());
    diag_block_exec(block, &tracker, &mut out);
    assert(Seq::<(Seq<u8>, Span)>::empty() + diag_block(*block, tracker.view()) =~= diag_block(*block, tracker.view()));
    out
}

/// `a` knows every name `b` knows.
pub open spec fn knows_more(a: Tracker, b: Tracker) -> bool {
    forall|n: Seq<u8>| may_contain(b, n) ==> #[trigger] may_contain(a, n)
}

/// No name reported in `found` is known to `t`.
pub open spec fn all_unknown(found: Seq<(Seq<u8>, Span)>, t: Tracker) -> bool {
    forall|i: int| 0 <= i < found.len() ==> !may_contain(t, #[trigger] found[i].0)
}

proof fn lemma_unknown_cat(a: Seq<(Seq<u8>, Span)>, b: Seq<(Seq<u8>, Span)>, t: Tracker)
    requires
        all_unknown(a, t),
        all_unknown(b, t),
    ensures
        all_unknown(a + b, t),
{
    assert forall|i: int| 0 <= i < (a + b).len() implies !may_contain(t, #[trigger] (a + b)[i].0) by {
        if i < a.len() {
            assert((a + b)[i] == a[i]);
        } else {
            assert((a + b)[i] == b[i - a.len()]);
        }
    }
}

proof fn lemma_unknown_weaken(a: Seq<(Seq<u8>, Span)>, t2: Tracker, t: Tracker)
    requires
        all_unknown(a, t2),
        knows_more(t2, t),
    ensures
        all_unknown(a, t),
{
    assert forall|i: int| 0 <= i < a.len() implies !may_contain(t, #[trigger] a[i].0) by {
        if may_contain(t, a[i].0) {
            assert(may_contain(t2, a[i].0));
        }
    }
}

proof fn lemma_undefined_unknown(uses: Seq<(Seq<u8>, Span)>, t: Tracker)
    ensures
        all_unknown(undefined_uses(uses, t), t),
    decreases uses.len(),
{
    if uses.len() > 0 {
        lemma_undefined_unknown(uses.drop_first(), t);
        let head: Seq<(Seq<u8>, Span)> = if may_contain(t, uses[0].0) {
            seq![]
        } else {
            seq![uses[0]]
        };
        assert(all_unknown(head, t));
        lemma_unknown_cat(head, undefined_uses(uses.drop_first(), t), t);
    }
}

proof fn lemma_track_more(t: Tracker, st: AnalyzedStatement)
    ensures
        knows_more(track(t, st), t),
{
    assert forall|n: Seq<u8>| may_contain(t, n) implies #[trigger] may_contain(track(t, st), n) by {
        if let Some(k) = t {
            if let AnalyzedStatement::Import(i) = st {
                crate::environment::lemma_lookup_in_exists(k.1, n);
                crate::environment::lemma_lookup_in_exists(k.1.push(i.file.spec_variables()), n);
                if lookup_in(k.1, n) is Some {
                    let w = choose|j: int| 0 <= j < k.1.len() && #[trigger] k.1[j].lookup(n) is Some;
                    assert(k.1.push(i.file.spec_variables())[w] == k.1[w]);
                }
            }
            if let AnalyzedStatement::SyntheticImport(i) = st {
                crate::environment::lemma_lookup_in_exists(k.1, n);
                crate::environment::lemma_lookup_in_exists(k.1.push(i.file.spec_variables()), n);
                if lookup_in(k.1, n) is Some {
                    let w = choose|j: int| 0 <= j < k.1.len() && #[trigger] k.1[j].lookup(n) is Some;
                    assert(k.1.push(i.file.spec_variables())[w] == k.1[w]);
                }
            }
        }
    }
}

proof fn lemma_walk_unknown(sts: Seq<AnalyzedStatement>, t: Tracker)
    ensures
        all_unknown(diag_walk(sts, t).0, t),
        knows_more(diag_walk(sts, t).1, t),
    decreases sts, 1nat,
{
    if sts.len() > 0 {
        let st = sts[0];
        let t1 = track(t, st);
        let rest_sts = sts.subrange(1, sts.len() as int);
        let inner = diag_inner(st, t1);
        lemma_track_more(t, st);
        lemma_undefined_unknown(statement_uses(st), t);
        lemma_sub_unknown(st, t);
        lemma_inner_unknown(st, t1);
        lemma_walk_unknown(rest_sts, inner.1);
        let rest = diag_walk(rest_sts, inner.1);
        lemma_unknown_cat(undefined_uses(statement_uses(st), t), diag_sub(st, t), t);
        lemma_unknown_weaken(inner.0, t1, t);
        assert(knows_more(inner.1, t));
        lemma_unknown_weaken(rest.0, inner.1, t);
        lemma_unknown_cat(undefined_uses(statement_uses(st), t) + diag_sub(st, t), inner.0, t);
        lemma_unknown_cat(undefined_uses(statement_uses(st), t) + diag_sub(st, t) + inner.0, rest.0, t);
    } else {
        assert(all_unknown(Seq::<(Seq<u8>, Span)>::empty(), t));
    }
}

proof fn lemma_inner_unknown(st: AnalyzedStatement, t: Tracker)
    ensures
        all_unknown(diag_inner(st, t).0, t),
        knows_more(diag_inner(st, t).1, t),
    decreases st, 0nat,
{
    match st {
        AnalyzedStatement::Conditions(c) => lemma_cond_unknown(*c, t),
        AnalyzedStatement::DeclareArgs(d) => lemma_walk_unknown(d.body_block.statements@, t),
        AnalyzedStatement::Foreach(f) => lemma_walk_unknown(f.body_block.statements@, t),
        _ => {
            assert(all_unknown(Seq::<(Seq<u8>, Span)>::empty(), t));
        },
    }
}

proof fn lemma_cond_unknown(c: AnalyzedCondition, t: Tracker)
    ensures
        all_unknown(diag_cond(c, t).0, t),
        knows_more(diag_cond(c, t).1, t),
    decreases c, 0nat,
{
    lemma_walk_unknown(c.then_block.statements@, t);
    let a = diag_walk(c.then_block.statements@, t);
    match c.else_block {
        None => {},
        Some(AnalyzedElse::Condition(n)) => {
            lemma_cond_unknown(*n, a.1);
            let b = diag_cond(*n, a.1);
            lemma_unknown_weaken(b.0, a.1, t);
            lemma_unknown_cat(a.0, b.0, t);
        },
        Some(AnalyzedElse::Block(b)) => {
            lemma_walk_unknown(b.statements@, a.1);
            let x = diag_walk(b.statements@, a.1);
            lemma_unknown_weaken(x.0, a.1, t);
            lemma_unknown_cat(a.0, x.0, t);
        },
    }
}

proof fn lemma_block_unknown(b: AnalyzedBlock, t: Tracker)
    ensures
        all_unknown(diag_block(b, t), t),
    decreases b, 2nat,
{
    lemma_walk_unknown(b.statements@, t);
}

proof fn lemma_blocks_unknown(bs: Seq<AnalyzedBlock>, t: Tracker)
    ensures
        all_unknown(diag_blocks(bs, t), t),
    decreases bs, 1nat,
{
    if bs.len() > 0 {
        lemma_block_unknown(bs[0], t);
        lemma_blocks_unknown(bs.subrange(1, bs.len() as int), t);
        lemma_unknown_cat(diag_block(bs[0], t), diag_blocks(bs.subrange(1, bs.len() as int), t), t);
    } else {
        assert(all_unknown(Seq::<(Seq<u8>, Span)>::empty(), t));
    }
}

proof fn lemma_cond_exprs_unknown(c: AnalyzedCondition, t: Tracker)
    ensures
        all_unknown(diag_cond_exprs(c, t), t),
    decreases c, 1nat,
{
    lemma_blocks_unknown(c.expr_scopes@, t);
    match c.else_block {
        Some(AnalyzedElse::Condition(n)) => {
            lemma_cond_exprs_unknown(*n, t);
            lemma_unknown_cat(diag_blocks(c.expr_scopes@, t), diag_cond_exprs(*n, t), t);
        },
        _ => {
            assert(diag_cond_exprs(c, t) =~= diag_blocks(c.expr_scopes@, t) + Seq::<(Seq<u8>, Span)>::empty());
            lemma_unknown_cat(diag_blocks(c.expr_scopes@, t), Seq::<(Seq<u8>, Span)>::empty(), t);
        },
    }
}

proof fn lemma_sub_unknown(st: AnalyzedStatement, t: Tracker)
    ensures
        all_unknown(diag_sub(st, t), t),
    decreases st, 1nat,
{
    match st {
        AnalyzedStatement::Assignment(a) => lemma_blocks_unknown(a.expr_scopes@, t),
        AnalyzedStatement::Conditions(c) => lemma_cond_exprs_unknown(*c, t),
        AnalyzedStatement::Foreach(f) => lemma_blocks_unknown(f.expr_scopes@, t),
        AnalyzedStatement::ForwardVariablesFrom(f) => lemma_blocks_unknown(f.expr_scopes@, t),
        AnalyzedStatement::Target(x) => {
            lemma_block_unknown(x.body_block, t);
            lemma_blocks_unknown(x.expr_scopes@, t);
            lemma_unknown_cat(diag_block(x.body_block, t), diag_blocks(x.expr_scopes@, t), t);
        },
        AnalyzedStatement::Template(x) => {
            lemma_block_unknown(x.body_block, t);
            lemma_blocks_unknown(x.expr_scopes@, t);
            lemma_unknown_cat(diag_block(x.body_block, t), diag_blocks(x.expr_scopes@, t), t);
        },
        AnalyzedStatement::GenericCall(g) => match g.body_block {
            Some(b) => {
                lemma_block_unknown(b, t);
                lemma_blocks_unknown(g.expr_scopes@, t);
                lemma_unknown_cat(diag_block(b, t), diag_blocks(g.expr_scopes@, t), t);
            },
            None => lemma_blocks_unknown(g.expr_scopes@, t),
        },
        _ => {
            assert(all_unknown(Seq::<(Seq<u8>, Span)>::empty(), t));
        },
    }
}

/// A name GN itself defines is never reported as undefined: no identifier
/// that `undefined_identifiers` finds with the builtin scope `builtins` is a
/// name of that scope.
pub proof fn lemma_builtins_never_reported(block: AnalyzedBlock, builtins: Arc<VariableScope>)
    ensures
        forall|i: int|
            0 <= i < diag_block(block, Some((Set::<Seq<u8>>::empty(), seq![builtins]))).len() ==> lookup_in(
                seq![builtins],
                #[trigger] diag_block(block, Some((Set::<Seq<u8>>::empty(), seq![builtins])))[i].0,
            ) is None,
{
    lemma_block_unknown(block, Some((Set::<Seq<u8>>::empty(), seq![builtins])));
}

/// What is known before the statement at `i` of `sts`, starting from `t`.
pub open spec fn tracker_before(sts: Seq<AnalyzedStatement>, t: Tracker, i: int) -> Tracker {
    diag_walk(sts.take(i), t).1
}

/// The body of a call with a block: a target, a template, or another call
/// with a block.
pub open spec fn call_body(st: AnalyzedStatement) -> Option<AnalyzedBlock> {
    match st {
        AnalyzedStatement::Target(x) => Some(x.body_block),
        AnalyzedStatement::Template(x) => Some(x.body_block),
        AnalyzedStatement::GenericCall(g) => g.body_block,
        _ => None,
    }
}

proof fn lemma_contains_cat(a: Seq<(Seq<u8>, Span)>, b: Seq<(Seq<u8>, Span)>, u: (Seq<u8>, Span))
    requires
        a.contains(u) || b.contains(u),
    ensures
        (a + b).contains(u),
{
    if a.contains(u) {
        let k = choose|k: int| 0 <= k < a.len() && a[k] == u;
        assert((a + b)[k] == u);
    } else {
        let k = choose|k: int| 0 <= k < b.len() && b[k] == u;
        assert((a + b)[a.len() + k] == u);
    }
}

proof fn lemma_undefined_contains(uses: Seq<(Seq<u8>, Span)>, t: Tracker, u: (Seq<u8>, Span))
    requires
        uses.contains(u),
        !may_contain(t, u.0),
    ensures
        undefined_uses(uses, t).contains(u),
    decreases uses.len(),
{
    let head: Seq<(Seq<u8>, Span)> = if may_contain(t, uses[0].0) {
        seq![]
    } else {
        seq![uses[0]]
    };
    if uses[0] == u {
        assert(head[0] == u);
        lemma_contains_cat(head, undefined_uses(uses.drop_first(), t), u);
    } else {
        let k = choose|k: int| 0 <= k < uses.len() && uses[k] == u;
        assert(uses.drop_first()[k - 1] == u);
        lemma_undefined_contains(uses.drop_first(), t, u);
        lemma_contains_cat(head, undefined_uses(uses.drop_first(), t), u);
    }
}

proof fn lemma_walk_split(sts: Seq<AnalyzedStatement>, t: Tracker, i: int)
    requires
        0 <= i <= sts.len(),
    ensures
        diag_walk(sts, t).0 == diag_walk(sts.take(i), t).0 + diag_walk(sts.skip(i), tracker_before(sts, t, i)).0,
    decreases i,
{
    if i == 0 {
        assert(sts.take(0) =~= Seq::<AnalyzedStatement>::empty());
        assert(sts.skip(0) =~= sts);
        assert(diag_walk(sts, t).0 =~= Seq::<(Seq<u8>, Span)>::empty() + diag_walk(sts, t).0);
    } else {
        let st = sts[0];
        let inner = diag_inner(st, track(t, st));
        let tail = sts.subrange(1, sts.len() as int);
        lemma_walk_split(tail, inner.1, i - 1);
        let pre = sts.take(i);
        assert(pre[0] == st);
        assert(pre.subrange(1, pre.len() as int) =~= tail.take(i - 1));
        assert(tail.skip(i - 1) =~= sts.skip(i));
        let d1 = undefined_uses(statement_uses(st), t) + diag_sub(st, t);
        let a = diag_walk(tail.take(i - 1), inner.1).0;
        let b = diag_walk(sts.skip(i), tracker_before(sts, t, i)).0;
        assert(d1 + inner.0 + (a + b) =~= (d1 + inner.0 + a) + b);
    }
}

proof fn lemma_walk_reports(sts: Seq<AnalyzedStatement>, t: Tracker, i: int, u: (Seq<u8>, Span))
    requires
        0 <= i < sts.len(),
        (undefined_uses(statement_uses(sts[i]), tracker_before(sts, t, i)) + diag_sub(
            sts[i],
            tracker_before(sts, t, i),
        )).contains(u),
    ensures
        diag_walk(sts, t).0.contains(u),
{
    lemma_walk_split(sts, t, i);
    let s = sts.skip(i);
    let ti = tracker_before(sts, t, i);
    assert(s[0] == sts[i]);
    let d1 = undefined_uses(statement_uses(s[0]), ti) + diag_sub(s[0], ti);
    let inner = diag_inner(s[0], track(ti, s[0]));
    let rest = diag_walk(s.subrange(1, s.len() as int), inner.1);
    lemma_contains_cat(d1, inner.0, u);
    lemma_contains_cat(d1 + inner.0, rest.0, u);
    lemma_contains_cat(diag_walk(sts.take(i), t).0, diag_walk(s, ti).0, u);
}

/// Every name read by a statement of a block is reported when it is not
/// known there: not builtin, not imported, and not defined by an earlier
/// statement of the block.
pub proof fn lemma_statement_uses_reported(b: AnalyzedBlock, t: Tracker, i: int, u: (Seq<u8>, Span))
    requires
        0 <= i < b.statements@.len(),
        statement_uses(b.statements@[i]).contains(u),
        !may_contain(tracker_before(b.statements@, t, i), u.0),
    ensures
        diag_block(b, t).contains(u),
{
    let sts = b.statements@;
    let ti = tracker_before(sts, t, i);
    lemma_undefined_contains(statement_uses(sts[i]), ti, u);
    lemma_contains_cat(undefined_uses(statement_uses(sts[i]), ti), diag_sub(sts[i], ti), u);
    lemma_walk_reports(sts, t, i, u);
}

/// The body of a target, a template or another call with a block is
/// checked too: a name read by a statement of that body is reported when it
/// is known neither before the call nor by an earlier statement of the body.
pub proof fn lemma_call_body_uses_reported(b: AnalyzedBlock, t: Tracker, i: int, j: int, u: (Seq<u8>, Span))
    requires
        0 <= i < b.statements@.len(),
        call_body(b.statements@[i]) is Some,
        0 <= j < call_body(b.statements@[i])->Some_0.statements@.len(),
        statement_uses(call_body(b.statements@[i])->Some_0.statements@[j]).contains(u),
        !may_contain(
            tracker_before(
                call_body(b.statements@[i])->Some_0.statements@,
                tracker_before(b.statements@, t, i),
                j,
            ),
            u.0,
        ),
    ensures
        diag_block(b, t).contains(u),
{
    let sts = b.statements@;
    let ti = tracker_before(sts, t, i);
    let st = sts[i];
    let body = call_body(st)->Some_0;
    lemma_statement_uses_reported(body, ti, j, u);
    let rest = match st {
        AnalyzedStatement::Target(x) => diag_blocks(x.expr_scopes@, ti),
        AnalyzedStatement::Template(x) => diag_blocks(x.expr_scopes@, ti),
        AnalyzedStatement::GenericCall(g) => diag_blocks(g.expr_scopes@, ti),
        _ => seq![],
    };
    lemma_contains_cat(diag_block(body, ti), rest, u);
    assert(diag_sub(st, ti) == diag_block(body, ti) + rest);
    lemma_contains_cat(undefined_uses(statement_uses(st), ti), diag_sub(st, ti), u);
    lemma_walk_reports(sts, t, i, u);
}

/// The block that follows what a statement defines: the body of a
/// `declare_args` or a `foreach`, or the first branch of a condition chain.
pub open spec fn inner_body(st: AnalyzedStatement) -> Option<AnalyzedBlock> {
    match st {
        AnalyzedStatement::DeclareArgs(d) => Some(d.body_block),
        AnalyzedStatement::Foreach(f) => Some(f.body_block),
        AnalyzedStatement::Conditions(c) => Some(c.then_block),
        _ => None,
    }
}

proof fn lemma_walk_reports_inner(sts: Seq<AnalyzedStatement>, t: Tracker, i: int, u: (Seq<u8>, Span))
    requires
        0 <= i < sts.len(),
        diag_inner(sts[i], track(tracker_before(sts, t, i), sts[i])).0.contains(u),
    ensures
        diag_walk(sts, t).0.contains(u),
{
    lemma_walk_split(sts, t, i);
    let s = sts.skip(i);
    let ti = tracker_before(sts, t, i);
    assert(s[0] == sts[i]);
    let d1 = undefined_uses(statement_uses(s[0]), ti) + diag_sub(s[0], ti);
    let inner = diag_inner(s[0], track(ti, s[0]));
    let rest = diag_walk(s.subrange(1, s.len() as int), inner.1);
    lemma_contains_cat(d1, inner.0, u);
    lemma_contains_cat(d1 + inner.0, rest.0, u);
    lemma_contains_cat(diag_walk(sts.take(i), t).0, diag_walk(s, ti).0, u);
}

/// The body of a `declare_args` or a `foreach`, and the first branch of a
/// condition chain, are checked too: a name read by a statement there is
/// reported when it is known neither after the statement itself (a
/// `foreach` defines its loop variable) nor by an earlier statement of that
/// block.
pub proof fn lemma_inner_body_uses_reported(b: AnalyzedBlock, t: Tracker, i: int, j: int, u: (Seq<u8>, Span))
    requires
        0 <= i < b.statements@.len(),
        inner_body(b.statements@[i]) is Some,
        0 <= j < inner_body(b.statements@[i])->Some_0.statements@.len(),
        statement_uses(inner_body(b.statements@[i])->Some_0.statements@[j]).contains(u),
        !may_contain(
            tracker_before(
                inner_body(b.statements@[i])->Some_0.statements@,
                track(tracker_before(b.statements@, t, i), b.statements@[i]),
                j,
            ),
            u.0,
        ),
    ensures
        diag_block(b, t).contains(u),
{
    let sts = b.statements@;
    let st = sts[i];
    let t1 = track(tracker_before(sts, t, i), st);
    let body = inner_body(st)->Some_0;
    lemma_statement_uses_reported(body, t1, j, u);
    match st {
        AnalyzedStatement::Conditions(c) => {
            let a = diag_walk(c.then_block.statements@, t1);
            let more = match c.else_block {
                None => Seq::<(Seq<u8>, Span)>::empty(),
                Some(AnalyzedElse::Condition(n)) => diag_cond(*n, a.1).0,
                Some(AnalyzedElse::Block(x)) => diag_walk(x.statements@, a.1).0,
            };
            assert(diag_cond(*c, t1).0 =~= a.0 + more);
            lemma_contains_cat(a.0, more, u);
        },
        _ => {},
    }
    lemma_walk_reports_inner(sts, t, i, u);
}

} // verus!
