//! The diagnostics reported for the file being edited: its syntax errors
//! and, when asked for, the identifiers read where nothing defines them.

use std::sync::Arc;

use vstd::prelude::*;

use crate::ast::{SyntaxError, Span};
use crate::diagnostics::{diag_block, undefined_identifiers};
use crate::analyzed::includes_view;
use crate::file::AnalyzedFile;
use crate::items::VariableScope;
use crate::line_index::Range;
use crate::walk::found_in_block;
use crate::workspace::append_bytes;
use crate::workspace_symbol::range_of;

verus! {

/// A diagnostic: where, and what.
pub struct FileDiagnostic {
    pub range: Range,
    pub message: Vec<u8>,
}

pub type FileDiagnosticView = (Range, Seq<u8>);

pub open spec fn diagnostics_view(s: Seq<FileDiagnostic>) -> Seq<FileDiagnosticView> {
    s.map_values(|d: FileDiagnostic| (d.range, d.message@))
}

/// `Syntax error`
pub open spec fn syntax_error_text() -> Seq<u8> {
    seq![83u8, 121u8, 110u8, 116u8, 97u8, 120u8, 32u8, 101u8, 114u8, 114u8, 111u8, 114u8]
}

/// `<name> not defined`
pub open spec fn undefined_text(name: Seq<u8>) -> Seq<u8> {
    name + seq![32u8, 110u8, 111u8, 116u8, 32u8, 100u8, 101u8, 102u8, 105u8, 110u8, 101u8, 100u8]
}

/// One diagnostic per syntax error, in order.
pub open spec fn syntax_diagnostics(errors: Seq<SyntaxError>, index: Seq<u8>) -> Seq<FileDiagnosticView> {
    errors.map_values(|e: SyntaxError| (range_of(index, e.span), syntax_error_text()))
}

/// One diagnostic per undefined identifier, in order.
pub open spec fn undefined_diagnostics(found: Seq<(Seq<u8>, Span)>, index: Seq<u8>) -> Seq<FileDiagnosticView> {
    found.map_values(|u: (Seq<u8>, Span)| (range_of(index, u.1), undefined_text(u.0)))
}

/// The diagnostics of `file`: its syntax errors, then, when
/// `report_undefined`, the identifiers of its analyzed root read where
/// nothing defines them (GN's own names are `builtins`).
pub fn compute_diagnostics(file: &AnalyzedFile, builtins: &Arc<VariableScope>, report_undefined: bool) -> (r: Vec<
    FileDiagnostic,
>)
    requires
        builtins.wf(),
    ensures
        diagnostics_view(r@) == syntax_diagnostics(found_in_block(file.ast).2, file.document.line_index@) + if report_undefined {
            undefined_diagnostics(
                diag_block(file.analyzed_root, Some((Set::<Seq<u8>>::empty(), seq![*builtins]))),
                file.document.line_index@,
            )
        } else {
            seq![]
        },
{
    let index = &file.document.line_index;
    let errors = file.ast.errors();
    let syntax: &[u8] = &[83u8, 121u8, 110u8, 116u8, 97u8, 120u8, 32u8, 101u8, 114u8, 114u8, 111u8, 114u8];
    assert(syntax@ =~= syntax_error_text());
    let mut out: Vec<FileDiagnostic> = Vec::new();
    let mut i: usize = 0;
    while i < errors.len()
        invariant
            i <= errors@.len(),
            syntax@ == syntax_error_text(),
            diagnostics_view(out@) == syntax_diagnostics(errors@.take(i as int), index@),
        decreases errors.len() - i,
    {
        let mut message: Vec<u8> = Vec::new();
        append_bytes(&mut message, syntax);
        let d = FileDiagnostic { range: index.range(errors[i].span), message };
        let ghost before = out@;
        out.push(d);
        assert(errors@.take(i + 1) =~= errors@.take(i as int).push(errors@[i as int]));
        assert(diagnostics_view(out@) =~= diagnostics_view(before).push((d.range, d.message@)));
        assert(syntax_diagnostics(errors@.take(i + 1), index@) =~= syntax_diagnostics(errors@.take(i as int), index@).push(
            (range_of(index@, errors@[i as int].span), syntax_error_text()),
        ));
        i += 1;
    }
    assert(errors@.take(errors@.len() as int) =~= errors@);
    if !report_undefined {
        assert(diagnostics_view(out@) =~= syntax_diagnostics(errors@, index@) + Seq::<FileDiagnosticView>::empty());
        return out;
    }
    let found = undefined_identifiers(&file.analyzed_root, builtins);
    let ghost base = diagnostics_view(out@);
    let suffix: &[u8] = &[32u8, 110u8, 111u8, 116u8, 32u8, 100u8, 101u8, 102u8, 105u8, 110u8, 101u8, 100u8];
    let mut j: usize = 0;
    assert(diagnostics_view(out@) =~= base + undefined_diagnostics(includes_view(found@).take(0), index@));
    while j < found.len()
        invariant
            j <= found@.len(),
            suffix@ == seq![32u8, 110u8, 111u8, 116u8, 32u8, 100u8, 101u8, 102u8, 105u8, 110u8, 101u8, 100u8],
            diagnostics_view(out@) == base + undefined_diagnostics(includes_view(found@).take(j as int), index@),
        decreases found.len() - j,
    {
        let mut message: Vec<u8> = Vec::new();
        append_bytes(&mut message, found[j].0.as_slice());
        append_bytes(&mut message, suffix);
        let d = FileDiagnostic { range: index.range(found[j].1), message };
        let ghost before = out@;
        out.push(d);
        let ghost all = includes_view(found@);
        assert(all.take(j + 1) =~= all.take(j as int).push(all[j as int]));
        assert(diagnostics_view(out@) =~= diagnostics_view(before).push((d.range, d.message@)));
        assert(undefined_diagnostics(all.take(j + 1), index@) =~= undefined_diagnostics(all.take(j as int), index@).push(
            (range_of(index@, all[j as int].1), undefined_text(all[j as int].0)),
        ));
        j += 1;
    }
    assert(includes_view(found@).take(found@.len() as int) =~= includes_view(found@));
    out
}

} // verus!
