//! Where definitions are shown: the ranges, in the files that hold them, of
//! a variable's assignments and of a template's call.

use vstd::prelude::*;

use crate::items::{AssignmentView, Template, TemplateView, Variable};
use crate::line_index::Range;
use crate::storage::{bytes_eq, Document};
use crate::workspace::copy_range;
use crate::workspace_symbol::range_of;

verus! {

/// A place a definition is shown: the file, the range of the whole
/// definition, and the range of its name.
pub struct DefinitionTarget {
    pub path: Vec<u8>,
    pub range: Range,
    pub selection: Range,
}

pub type DefinitionTargetView = (Seq<u8>, Range, Range);

impl View for DefinitionTarget {
    type V = DefinitionTargetView;

    open spec fn view(&self) -> DefinitionTargetView {
        (self.path@, self.range, self.selection)
    }
}

pub open spec fn targets_view(s: Seq<DefinitionTarget>) -> Seq<DefinitionTargetView> {
    s.map_values(|t: DefinitionTarget| t@)
}

/// The index of the first of `docs` with path `path`.
pub open spec fn doc_index(docs: Seq<Document>, path: Seq<u8>) -> Option<int>
    decreases docs.len(),
{
    if docs.len() == 0 {
        None
    } else if docs[0].path@ == path {
        Some(0)
    } else {
        match doc_index(docs.drop_first(), path) {
            Some(k) => Some(k + 1),
            None => None,
        }
    }
}

/// The places of the assignments `assigns` whose file is among `docs`: the
/// statement and the name, as ranges of that file.
pub open spec fn assignment_targets(assigns: Seq<AssignmentView>, docs: Seq<Document>) -> Seq<DefinitionTargetView>
    decreases assigns.len(),
{
    if assigns.len() == 0 {
        seq![]
    } else {
        let rest = assignment_targets(assigns.drop_last(), docs);
        let a = assigns.last();
        match doc_index(docs, a.0) {
            Some(k) => rest.push((a.0, range_of(docs[k].line_index@, a.2), range_of(docs[k].line_index@, a.3))),
            None => rest,
        }
    }
}

/// Some document of `docs` has the path `path`.
pub open spec fn has_document(docs: Seq<Document>, path: Seq<u8>) -> bool {
    exists|d: int| 0 <= d < docs.len() && docs[d].path@ == path
}

/// The assignments of `assigns` whose file is among `docs`, in order.
pub open spec fn assignments_among(assigns: Seq<AssignmentView>, docs: Seq<Document>) -> Seq<AssignmentView> {
    assigns.filter(|a: AssignmentView| has_document(docs, a.0))
}

/// The first document of a path is the one `doc_index` picks; no document
/// has a path it does not find.
pub proof fn lemma_doc_index(docs: Seq<Document>, path: Seq<u8>)
    ensures
        doc_index(docs, path) matches Some(d) ==> 0 <= d < docs.len() && docs[d].path@ == path && forall|e: int|
            0 <= e < d ==> docs[e].path@ != path,
        doc_index(docs, path) is None <==> !has_document(docs, path),
    decreases docs.len(),
{
    if docs.len() > 0 {
        let t = docs.drop_first();
        lemma_doc_index(t, path);
        if docs[0].path@ != path {
            match doc_index(t, path) {
                Some(d) => {
                    assert forall|e: int| 0 <= e < d + 1 implies docs[e].path@ != path by {
                        if e > 0 {
                            assert(docs[e] == t[e - 1]);
                        }
                    }
                    assert(docs[d + 1] == t[d]);
                },
                None => {
                    assert forall|d: int| 0 <= d < docs.len() implies docs[d].path@ != path by {
                        if d > 0 {
                            assert(docs[d] == t[d - 1]);
                        }
                    }
                },
            }
        }
    }
}

/// Every assignment whose file is among the documents gives one place, in
/// order, and no other does: the places are as many as those assignments,
/// each has the assignment's file and takes its ranges from the first
/// document of that file. When every file is among the documents, each
/// assignment gives a place.
pub proof fn lemma_assignment_targets_complete(assigns: Seq<AssignmentView>, docs: Seq<Document>)
    ensures
        assignment_targets(assigns, docs).len() == assignments_among(assigns, docs).len(),
        forall|j: int|
            #![trigger assignment_targets(assigns, docs)[j]]
            0 <= j < assignment_targets(assigns, docs).len() ==> exists|d: int|
                0 <= d < docs.len() && #[trigger] docs[d].path@ == assignments_among(assigns, docs)[j].0 && (forall|
                    e: int,
                | 0 <= e < d ==> docs[e].path@ != assignments_among(assigns, docs)[j].0) && assignment_targets(
                    assigns,
                    docs,
                )[j] == (
                    assignments_among(assigns, docs)[j].0,
                    range_of(docs[d].line_index@, assignments_among(assigns, docs)[j].2),
                    range_of(docs[d].line_index@, assignments_among(assigns, docs)[j].3),
                ),
        (forall|k: int| 0 <= k < assigns.len() ==> has_document(docs, #[trigger] assigns[k].0)) ==> assignment_targets(
            assigns,
            docs,
        ).len() == assigns.len(),
    decreases assigns.len(),
{
    reveal(Seq::filter);
    let pred = |a: AssignmentView| has_document(docs, a.0);
    let r = assignment_targets(assigns, docs);
    let kept = assignments_among(assigns, docs);
    if assigns.len() == 0 {
        assert(kept =~= assigns);
    } else {
        let rest = assigns.drop_last();
        lemma_assignment_targets_complete(rest, docs);
        let rr = assignment_targets(rest, docs);
        let kr = assignments_among(rest, docs);
        let a = assigns.last();
        lemma_doc_index(docs, a.0);
        assert(kept == if pred(a) { kr.push(a) } else { kr });
        assert forall|j: int|
            #![trigger r[j]]
            0 <= j < r.len() implies exists|d: int|
                0 <= d < docs.len() && #[trigger] docs[d].path@ == kept[j].0 && (forall|e: int|
                    0 <= e < d ==> docs[e].path@ != kept[j].0) && r[j] == (
                    kept[j].0,
                    range_of(docs[d].line_index@, kept[j].2),
                    range_of(docs[d].line_index@, kept[j].3),
                ) by {
            if j < rr.len() {
                assert(r[j] == rr[j]);
                assert(kept[j] == kr[j]);
            } else {
                let d = doc_index(docs, a.0).unwrap();
                assert(docs[d].path@ == kept[j].0);
            }
        }
        if forall|k: int| 0 <= k < assigns.len() ==> has_document(docs, #[trigger] assigns[k].0) {
            assert forall|k: int| 0 <= k < rest.len() implies has_document(docs, #[trigger] rest[k].0) by {
                assert(rest[k] == assigns[k]);
            }
            assert(has_document(docs, assigns[assigns.len() - 1].0));
        }
    }
}

/// The place of the template `t` when its file is among `docs`: the call,
/// and the `template` identifier.
pub open spec fn template_target(t: TemplateView, docs: Seq<Document>) -> Option<DefinitionTargetView> {
    match doc_index(docs, t.0) {
        Some(k) => Some((t.0, range_of(docs[k].line_index@, t.1), range_of(docs[k].line_index@, t.4))),
        None => None,
    }
}

fn find_document(docs: &Vec<Document>, path: &[u8]) -> (r: Option<usize>)
    ensures
        match doc_index(docs@, path@) {
            Some(k) => r == Some(k as usize),
            None => r is None,
        },
        r matches Some(k) ==> k < docs@.len() && doc_index(docs@, path@) == Some(k as int),
{
    let mut i: usize = 0;
    assert(docs@.skip(0) =~= docs@);
    while i < docs.len()
        invariant
            i <= docs@.len(),
            doc_index(docs@, path@) == match doc_index(docs@.skip(i as int), path@) {
                Some(k) => Some(k + i),
                None => None,
            },
        decreases docs.len() - i,
    {
        assert(docs@.skip(i as int)[0] == docs@[i as int]);
        assert(docs@.skip(i as int).drop_first() =~= docs@.skip(i + 1));
        if bytes_eq(docs[i].path.as_slice(), path) {
            return Some(i);
        }
        i += 1;
    }
    assert(docs@.skip(i as int) =~= Seq::<Document>::empty());
    None
}

/// The places of `variable`'s assignments, in order, each in the first of
/// `documents` that has its file; assignments of files not among them are
/// left out.
pub fn variable_definitions(variable: &Variable, documents: &Vec<Document>) -> (r: Vec<DefinitionTarget>)
    ensures
        targets_view(r@) == assignment_targets(variable@.0, documents@),
{
    let ghost all = variable@.0;
    let mut out: Vec<DefinitionTarget> = Vec::new();
    let mut i: usize = 0;
    assert(all.take(0) =~= Seq::<AssignmentView>::empty());
    assert(targets_view(out@) =~= assignment_targets(all.take(0), documents@));
    while i < variable.assignments.len()
        invariant
            i <= variable.assignments@.len(),
            all == variable@.0,
            all.len() == variable.assignments@.len(),
            targets_view(out@) == assignment_targets(all.take(i as int), documents@),
        decreases variable.assignments.len() - i,
    {
        assert(all.take(i + 1).drop_last() =~= all.take(i as int));
        assert(all.take(i + 1).last() == variable.assignments@[i as int]@);
        let a = &variable.assignments[i];
        match find_document(documents, a.path.as_slice()) {
            Some(k) => {
                let d = &documents[k];
                let t = DefinitionTarget {
                    path: copy_range(a.path.as_slice(), 0, a.path.len()),
                    range: d.line_index.range(a.statement_span),
                    selection: d.line_index.range(a.primary_variable),
                };
                assert(a.path@.subrange(0, a.path@.len() as int) =~= a.path@);
                assert(t.range == range_of(documents@[k as int].line_index@, a.statement_span));
                assert(t.selection == range_of(documents@[k as int].line_index@, a.primary_variable));
                assert(doc_index(documents@, all.take(i + 1).last().0) == Some(k as int));
                let ghost before = out@;
                out.push(t);
                assert(targets_view(out@) =~= targets_view(before).push(t@));
            },
            None => {},
        }
        i += 1;
    }
    assert(all.take(all.len() as int) =~= all);
    out
}

/// The place of `template`'s call and name, in the first of `documents`
/// that has its file; nothing when none does.
pub fn template_definition(template: &Template, documents: &Vec<Document>) -> (r: Option<DefinitionTarget>)
    ensures
        match r {
            Some(t) => template_target(template@, documents@) == Some(t@),
            None => template_target(template@, documents@) is None,
        },
{
    match find_document(documents, template.path.as_slice()) {
        Some(k) => {
            let d = &documents[k];
            let t = DefinitionTarget {
                path: copy_range(template.path.as_slice(), 0, template.path.len()),
                range: d.line_index.range(template.call_span),
                selection: d.line_index.range(template.header),
            };
            assert(template.path@.subrange(0, template.path@.len() as int) =~= template.path@);
            assert(t.range == range_of(documents@[k as int].line_index@, template.call_span));
            assert(t.selection == range_of(documents@[k as int].line_index@, template.header));
            Some(t)
        },
        None => None,
    }
}

} // verus!
