//! What an analysis finds a file to define: variables with the places that
//! assign them, templates, and targets.

use std::sync::Arc;

use vstd::prelude::*;

use crate::ast::{AssignOp, Comments, Span};
use crate::environment::Environment;
use crate::workspace::copy_range;

verus! {

/// Comment lines as byte strings.
pub open spec fn lines_view(v: Seq<Vec<u8>>) -> Seq<Seq<u8>> {
    v.map_values(|l: Vec<u8>| l@)
}

/// A copy of comment lines.
pub fn copy_lines(c: &Comments) -> (r: Vec<Vec<u8>>)
    ensures
        lines_view(r@) == lines_view(c.lines@),
{
    let mut out: Vec<Vec<u8>> = Vec::new();
    let mut i: usize = 0;
    while i < c.lines.len()
        invariant
            i <= c.lines@.len(),
            out@.len() == i,
            lines_view(out@) == lines_view(c.lines@.take(i as int)),
        decreases c.lines.len() - i,
    {
        let line = crate::workspace::copy_range(c.lines[i].as_slice(), 0, c.lines[i].len());
        assert(line@ =~= c.lines@[i as int]@);
        let ghost before = out@;
        out.push(line);
        proof {
            let a = lines_view(out@);
            let b = lines_view(c.lines@.take(i + 1));
            assert(a.len() == b.len());
            assert forall|j: int| 0 <= j < a.len() implies a[j] == b[j] by {
                if j < i {
                    assert(out@[j] == before[j]);
                    assert(lines_view(before)[j] == lines_view(c.lines@.take(i as int))[j]);
                }
            }
            assert(a =~= b);
        }
        i += 1;
    }
    assert(c.lines@.take(c.lines@.len() as int) =~= c.lines@);
    out
}

/// A copy of comment lines.
pub fn copy_vec_lines(lines: &Vec<Vec<u8>>) -> (r: Vec<Vec<u8>>)
    ensures
        lines_view(r@) == lines_view(lines@),
{
    let mut out: Vec<Vec<u8>> = Vec::new();
    let mut i: usize = 0;
    while i < lines.len()
        invariant
            i <= lines@.len(),
            out@.len() == i,
            lines_view(out@) == lines_view(lines@.take(i as int)),
        decreases lines.len() - i,
    {
        let line = copy_range(lines[i].as_slice(), 0, lines[i].len());
        assert(line@ =~= lines@[i as int]@);
        let ghost before = out@;
        out.push(line);
        proof {
            let a = lines_view(out@);
            let b = lines_view(lines@.take(i + 1));
            assert forall|j: int| 0 <= j < a.len() implies a[j] == b[j] by {
                if j < i {
                    assert(out@[j] == before[j]);
                    assert(lines_view(before)[j] == lines_view(lines@.take(i as int))[j]);
                }
            }
            assert(a =~= b);
        }
        i += 1;
    }
    assert(lines@.take(lines@.len() as int) =~= lines@);
    out
}


/// What sets a variable: an assignment statement (with the spans of its
/// target and value, and its operator), a `forward_variables_from` call, or
/// a `foreach` call.
#[derive(Clone, Copy, Debug, PartialEq, Eq, Structural)]
pub enum AssignmentSite {
    Assignment { lvalue: Span, op: AssignOp, rvalue: Span },
    Forward,
    Foreach,
}

/// A place that sets a variable: the file, the statement, the identifier
/// (or string) naming the variable, and the comments before the statement.
#[derive(Clone, Debug)]
pub struct VariableAssignment {
    pub path: Vec<u8>,
    pub site: AssignmentSite,
    pub statement_span: Span,
    pub primary_variable: Span,
    pub comments: Vec<Vec<u8>>,
}

pub type AssignmentView = (Seq<u8>, AssignmentSite, Span, Span, Seq<Seq<u8>>);

impl View for VariableAssignment {
    type V = AssignmentView;

    open spec fn view(&self) -> AssignmentView {
        (self.path@, self.site, self.statement_span, self.primary_variable, lines_view(self.comments@))
    }
}

/// A variable: the places that set it (one per file and identifier), and
/// whether it was first set inside `declare_args`.
#[derive(Clone, Debug)]
pub struct Variable {
    pub assignments: Vec<VariableAssignment>,
    pub is_args: bool,
}

pub type VariableView = (Seq<AssignmentView>, bool);

pub open spec fn assignments_view(s: Seq<VariableAssignment>) -> Seq<AssignmentView> {
    s.map_values(|a: VariableAssignment| a@)
}

impl View for Variable {
    type V = VariableView;

    open spec fn view(&self) -> VariableView {
        (assignments_view(self.assignments@), self.is_args)
    }
}

impl VariableAssignment {
    /// A copy.
    pub fn copy(&self) -> (r: VariableAssignment)
        ensures
            r@ == self@,
    {
        VariableAssignment {
            path: crate::workspace::copy_range(self.path.as_slice(), 0, self.path.len()),
            site: self.site,
            statement_span: self.statement_span,
            primary_variable: self.primary_variable,
            comments: copy_vec_lines(&self.comments),
        }
    }
}

impl Variable {
    /// A copy.
    pub fn copy(&self) -> (r: Variable)
        ensures
            r@ == self@,
    {
        let mut assignments: Vec<VariableAssignment> = Vec::new();
        let mut i: usize = 0;
        while i < self.assignments.len()
            invariant
                i <= self.assignments@.len(),
                assignments@.len() == i,
                forall|j: int| 0 <= j < i ==> (#[trigger] assignments@[j])@ == self.assignments@[j]@,
            decreases self.assignments.len() - i,
        {
            assignments.push(self.assignments[i].copy());
            i += 1;
        }
        let r = Variable { assignments, is_args: self.is_args };
        assert(assignments_view(r.assignments@) =~= assignments_view(self.assignments@));
        r
    }

    pub fn new(is_args: bool) -> (r: Variable)
        ensures
            r@ == (Seq::<AssignmentView>::empty(), is_args),
    {
        let r = Variable { assignments: Vec::new(), is_args };
        assert(assignments_view(r.assignments@) =~= Seq::<AssignmentView>::empty());
        r
    }
}

/// Two assignments are kept apart by their file and identifier.
pub open spec fn same_place(a: AssignmentView, b: AssignmentView) -> bool {
    a.0 == b.0 && a.3 == b.3
}

/// `s` with `a` recorded: it replaces the first assignment at the same
/// place, or comes last.
pub open spec fn add_assignment(s: Seq<AssignmentView>, a: AssignmentView) -> Seq<AssignmentView>
    decreases s.len(),
{
    if s.len() == 0 {
        seq![a]
    } else if same_place(s[0], a) {
        s.update(0, a)
    } else {
        seq![s[0]] + add_assignment(s.drop_first(), a)
    }
}

proof fn lemma_add_assignment_at(s: Seq<AssignmentView>, a: AssignmentView, k: int)
    requires
        0 <= k < s.len(),
        same_place(s[k], a),
        forall|j: int| 0 <= j < k ==> !same_place(#[trigger] s[j], a),
    ensures
        add_assignment(s, a) == s.update(k, a),
    decreases s.len(),
{
    if k > 0 {
        let t = s.drop_first();
        assert forall|j: int| 0 <= j < k - 1 implies !same_place(#[trigger] t[j], a) by {
            assert(t[j] == s[j + 1]);
        }
        lemma_add_assignment_at(t, a, k - 1);
        assert(seq![s[0]] + t.update(k - 1, a) =~= s.update(k, a));
    }
}

proof fn lemma_add_assignment_none(s: Seq<AssignmentView>, a: AssignmentView)
    requires
        forall|j: int| 0 <= j < s.len() ==> !same_place(#[trigger] s[j], a),
    ensures
        add_assignment(s, a) == s.push(a),
    decreases s.len(),
{
    if s.len() > 0 {
        let t = s.drop_first();
        assert forall|j: int| 0 <= j < t.len() implies !same_place(#[trigger] t[j], a) by {
            assert(t[j] == s[j + 1]);
        }
        lemma_add_assignment_none(t, a);
        assert(seq![s[0]] + t.push(a) =~= s.push(a));
    }
}

impl Variable {
    /// Records `a` among the places that set this variable.
    pub fn add(&mut self, a: VariableAssignment)
        ensures
            final(self).is_args == old(self).is_args,
            final(self)@.0 == add_assignment(old(self)@.0, a@),
    {
        let n = self.assignments.len();
        let mut k: usize = 0;
        while k < n
            invariant
                n == self.assignments@.len(),
                k <= n,
                self.assignments@ == old(self).assignments@,
                self.is_args == old(self).is_args,
                forall|j: int| 0 <= j < k ==> !same_place(#[trigger] assignments_view(self.assignments@)[j], a@),
            decreases n - k,
        {
            let same = crate::storage::bytes_eq(self.assignments[k].path.as_slice(), a.path.as_slice())
                && self.assignments[k].primary_variable == a.primary_variable;
            if same {
                proof {
                    lemma_add_assignment_at(assignments_view(self.assignments@), a@, k as int);
                }
                let ghost before = self.assignments@;
                self.assignments.set(k, a);
                assert(assignments_view(self.assignments@) =~= assignments_view(before).update(k as int, a@));
                return;
            }
            k += 1;
        }
        proof {
            lemma_add_assignment_none(assignments_view(self.assignments@), a@);
        }
        let ghost before = self.assignments@;
        self.assignments.push(a);
        assert(assignments_view(self.assignments@) =~= assignments_view(before).push(a@));
    }
}

/// A template definition: the file, the `template(...)` call, the name, the
/// comments before the call, and the `template` identifier that starts it.
#[derive(Clone, Debug)]
pub struct Template {
    pub path: Vec<u8>,
    pub call_span: Span,
    pub name: Vec<u8>,
    pub comments: Vec<Vec<u8>>,
    pub header: Span,
}

pub type TemplateView = (Seq<u8>, Span, Seq<u8>, Seq<Seq<u8>>, Span);

impl View for Template {
    type V = TemplateView;

    open spec fn view(&self) -> TemplateView {
        (self.path@, self.call_span, self.name@, lines_view(self.comments@), self.header)
    }
}

/// A target definition: the file, the call, and the name.
#[derive(Clone, Debug)]
pub struct Target {
    pub path: Vec<u8>,
    pub call_span: Span,
    pub name: Vec<u8>,
}

pub type TargetView = (Seq<u8>, Span, Seq<u8>);

impl View for Target {
    type V = TargetView;

    open spec fn view(&self) -> TargetView {
        (self.path@, self.call_span, self.name@)
    }
}

pub type VariableScope = Environment<Variable>;

pub type TemplateScope = Environment<Template>;

pub type TargetScope = Environment<Target>;

/// The local items of a scope, by their views.
pub open spec fn scope_view<T: View>(m: Map<Seq<u8>, T>) -> Map<Seq<u8>, T::V> {
    m.map_values(|t: T| t@)
}

/// What a file exports: its variables, templates and targets, each scope
/// importing those of the files the file imports.
pub struct FileEnvironment {
    pub(crate) variables: Arc<VariableScope>,
    pub(crate) templates: Arc<TemplateScope>,
    pub(crate) targets: Arc<TargetScope>,
}

impl FileEnvironment {
    pub closed spec fn spec_variables(&self) -> Arc<VariableScope> {
        self.variables
    }

    pub closed spec fn spec_templates(&self) -> Arc<TemplateScope> {
        self.templates
    }

    pub closed spec fn spec_targets(&self) -> Arc<TargetScope> {
        self.targets
    }

    /// The scopes are well formed.
    pub open spec fn wf(&self) -> bool {
        self.spec_variables().wf() && self.spec_templates().wf() && self.spec_targets().wf()
    }

    #[verifier::type_invariant]
    pub(crate) closed spec fn scopes_wf(self) -> bool {
        self.variables.wf() && self.templates.wf() && self.targets.wf()
    }

    pub fn variables(&self) -> (r: &Arc<VariableScope>)
        ensures
            r == self.spec_variables(),
            self.wf(),
    {
        proof {
            use_type_invariant(self);
        }
        &self.variables
    }

    pub fn templates(&self) -> (r: &Arc<TemplateScope>)
        ensures
            r == self.spec_templates(),
            self.wf(),
    {
        proof {
            use_type_invariant(self);
        }
        &self.templates
    }

    pub fn targets(&self) -> (r: &Arc<TargetScope>)
        ensures
            r == self.spec_targets(),
            self.wf(),
    {
        proof {
            use_type_invariant(self);
        }
        &self.targets
    }

    /// The file environment with the given scopes.
    pub fn from_scopes(variables: VariableScope, templates: TemplateScope, targets: TargetScope) -> (r:
        FileEnvironment)
        requires
            variables.wf(),
            templates.wf(),
            targets.wf(),
        ensures
            r.wf(),
            *r.spec_variables() == variables,
            *r.spec_templates() == templates,
            *r.spec_targets() == targets,
    {
        FileEnvironment {
            variables: Arc::new(variables),
            templates: Arc::new(templates),
            targets: Arc::new(targets),
        }
    }

    /// The file environment with the given shared scopes.
    pub fn from_arcs(variables: Arc<VariableScope>, templates: Arc<TemplateScope>, targets: Arc<TargetScope>) -> (r:
        FileEnvironment)
        requires
            variables.wf(),
            templates.wf(),
            targets.wf(),
        ensures
            r.wf(),
            r.spec_variables() == variables,
            r.spec_templates() == templates,
            r.spec_targets() == targets,
    {
        FileEnvironment { variables, templates, targets }
    }

    /// A file environment with nothing in it.
    pub fn new() -> (r: FileEnvironment)
        ensures
            r.wf(),
            scope_view(r.spec_variables().locals_map()) == Map::<Seq<u8>, VariableView>::empty(),
            scope_view(r.spec_templates().locals_map()) == Map::<Seq<u8>, TemplateView>::empty(),
            scope_view(r.spec_targets().locals_map()) == Map::<Seq<u8>, TargetView>::empty(),
            r.spec_variables().imported_arcs() == Seq::<Arc<VariableScope>>::empty(),
            r.spec_templates().imported_arcs() == Seq::<Arc<TemplateScope>>::empty(),
            r.spec_targets().imported_arcs() == Seq::<Arc<TargetScope>>::empty(),
    {
        let v = VariableScope::new();
        let t = TemplateScope::new();
        let g = TargetScope::new();
        let r = FileEnvironment { variables: Arc::new(v), templates: Arc::new(t), targets: Arc::new(g) };
        assert(scope_view(r.spec_variables().locals_map()) =~= Map::<Seq<u8>, VariableView>::empty());
        assert(scope_view(r.spec_templates().locals_map()) =~= Map::<Seq<u8>, TemplateView>::empty());
        assert(scope_view(r.spec_targets().locals_map()) =~= Map::<Seq<u8>, TargetView>::empty());
        r
    }
}

} // verus!
