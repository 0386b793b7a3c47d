//! Workspace symbols: the variables and templates that analyzed files
//! define, matched against a query.

use vstd::prelude::*;

use crate::ast::Span;
use crate::items::{Template, Variable};
use crate::line_index::{spec_position, LineIndex, Range};
use crate::shallow_analyzer::ShallowFile;
use crate::workspace::copy_range;

verus! {

/// What a workspace symbol is.
#[derive(Clone, Copy, Debug, PartialEq, Eq, Structural)]
pub enum WorkspaceSymbolKind {
    /// A variable first set outside `declare_args`.
    Variable,
    /// A build argument: a variable first set inside `declare_args`.
    Constant,
    /// A template.
    Function,
}

/// A symbol: its name, kind, file, and where in the file it is defined.
pub struct WorkspaceSymbol {
    pub name: Vec<u8>,
    pub kind: WorkspaceSymbolKind,
    pub path: Vec<u8>,
    pub range: Range,
}

pub type WorkspaceSymbolView = (Seq<u8>, WorkspaceSymbolKind, Seq<u8>, Range);

impl View for WorkspaceSymbol {
    type V = WorkspaceSymbolView;

    open spec fn view(&self) -> WorkspaceSymbolView {
        (self.name@, self.kind, self.path@, self.range)
    }
}

pub open spec fn symbols_view(s: Seq<WorkspaceSymbol>) -> Seq<WorkspaceSymbolView> {
    s.map_values(|x: WorkspaceSymbol| x@)
}

/// What `str::to_lowercase` makes of the UTF-8 text `s` (Unicode lower
/// case mapping).
pub uninterp spec fn lowercase_text(s: Seq<u8>) -> Seq<u8>;

/// `str::to_lowercase` of the text `s` (read as UTF-8); the mapping is
/// Unicode's, named rather than spelled out.
#[verifier::external_body]
fn lowercase(s: &[u8]) -> (r: Vec<u8>)
    ensures
        r@ == lowercase_text(s@),
{
    String::from_utf8_lossy(s).to_lowercase().into_bytes()
}

/// Whether `needle` occurs in `hay`.
pub open spec fn contains_seq(hay: Seq<u8>, needle: Seq<u8>) -> bool {
    exists|i: int| 0 <= i && i + needle.len() <= hay.len() && #[trigger] hay.subrange(i, i + needle.len()) == needle
}

fn contains_exec(hay: &[u8], needle: &[u8]) -> (r: bool)
    ensures
        r == contains_seq(hay@, needle@),
{
    let n = needle.len();
    if n > hay.len() {
        return false;
    }
    let mut i: usize = 0;
    while i <= hay.len() - n
        invariant
            n == needle@.len(),
            n <= hay@.len(),
            i <= hay@.len() - n + 1,
            forall|k: int| 0 <= k < i ==> #[trigger] hay@.subrange(k, k + n) != needle@,
        decreases hay.len() - i,
    {
        let mut j: usize = 0;
        let mut same = true;
        while j < n
            invariant
                n == needle@.len(),
                i + n <= hay@.len(),
                j <= n,
                i + n <= usize::MAX,
                same == (forall|m: int| 0 <= m < j ==> hay@[i + m] == needle@[m]),
            decreases n - j,
        {
            let k = i + j;
            if hay[k] != needle[j] {
                same = false;
            }
            j += 1;
        }
        if same {
            assert(hay@.subrange(i as int, i + n) =~= needle@);
            return true;
        }
        proof {
            let m = choose|m: int| 0 <= m < n && hay@[i + m] != needle@[m];
            assert(hay@.subrange(i as int, i + n)[m] != needle@[m]);
        }
        i += 1;
    }
    proof {
        assert forall|k: int| 0 <= k && k + n <= hay@.len() implies #[trigger] hay@.subrange(k, k + n) != needle@ by {
            assert(k < i);
        }
    }
    false
}

/// The range of `span` in the text of `index`.
pub open spec fn range_of(index: Seq<u8>, span: Span) -> Range {
    Range { start: spec_position(index, span.start as int), end: spec_position(index, span.end as int) }
}

/// The symbols of the variables among `locals` (of the file at `path`, with
/// line index text `index`) whose lower-cased name contains `query`: each at
/// the first place that sets it.
pub open spec fn variable_symbols(locals: Seq<(Vec<u8>, Variable)>, query: Seq<u8>, path: Seq<u8>, index: Seq<u8>) -> Seq<
    WorkspaceSymbolView,
>
    decreases locals.len(),
{
    if locals.len() == 0 {
        seq![]
    } else {
        let rest = variable_symbols(locals.drop_last(), query, path, index);
        let item = locals.last();
        let v = item.1;
        if contains_seq(lowercase_text(item.0@), query) && v.assignments@.len() > 0 {
            let kind = if v.is_args {
                WorkspaceSymbolKind::Constant
            } else {
                WorkspaceSymbolKind::Variable
            };
            rest.push((item.0@, kind, path, range_of(index, v.assignments@[0].statement_span)))
        } else {
            rest
        }
    }
}

/// A needle occurs in a text as soon as it is the run of the text at some
/// position; in particular every text holds each of its prefixes.
pub proof fn lemma_occurrence_contains(hay: Seq<u8>, i: int, n: int)
    requires
        0 <= i,
        0 <= n,
        i + n <= hay.len(),
    ensures
        contains_seq(hay, hay.subrange(i, i + n)),
        contains_seq(hay, hay.subrange(0, n)),
{
    let needle = hay.subrange(i, i + n);
    assert(hay.subrange(i, i + needle.len()) == needle);
    let p = hay.subrange(0, n);
    let z: int = 0;
    assert(hay.subrange(z, z + p.len()) == p);
}

/// Whatever contains a needle holds it as a run at some position.
pub proof fn lemma_contains_occurrence(hay: Seq<u8>, needle: Seq<u8>)
    requires
        contains_seq(hay, needle),
    ensures
        exists|i: int| 0 <= i && i + needle.len() <= hay.len() && #[trigger] hay.subrange(i, i + needle.len()) == needle,
{
}

/// The query `query` occurs at position `i` of the lower-cased name `name`.
pub open spec fn occurs_at(name: Seq<u8>, query: Seq<u8>, i: int) -> bool {
    0 <= i && i + query.len() <= lowercase_text(name).len() && lowercase_text(name).subrange(i, i + query.len()) == query
}

/// `s` is the symbol of a variable of `locals` that is set somewhere and
/// whose lower-cased name holds the query at some position: named as the
/// variable, a build argument when it is one, in the file `path`, at the
/// range of its first assignment.
pub open spec fn is_variable_symbol(
    locals: Seq<(Vec<u8>, Variable)>,
    query: Seq<u8>,
    path: Seq<u8>,
    index: Seq<u8>,
    s: WorkspaceSymbolView,
) -> bool {
    exists|k: int, i: int|
        0 <= k < locals.len() && locals[k].0@ == s.0 && locals[k].1.assignments@.len() > 0 && #[trigger] occurs_at(
            locals[k].0@,
            query,
            i,
        ) && s.1 == (if locals[k].1.is_args {
            WorkspaceSymbolKind::Constant
        } else {
            WorkspaceSymbolKind::Variable
        }) && s.2 == path && s.3 == range_of(index, locals[k].1.assignments@[0].statement_span)
}

/// `s` is the symbol of a template of `locals` whose lower-cased name holds
/// the query at some position: named as the template, in the file `path`,
/// at the range of its call.
pub open spec fn is_template_symbol(
    locals: Seq<(Vec<u8>, Template)>,
    query: Seq<u8>,
    path: Seq<u8>,
    index: Seq<u8>,
    s: WorkspaceSymbolView,
) -> bool {
    exists|k: int, i: int|
        0 <= k < locals.len() && locals[k].0@ == s.0 && #[trigger] occurs_at(locals[k].0@, query, i) && s.1
            == WorkspaceSymbolKind::Function && s.2 == path && s.3 == range_of(index, locals[k].1.call_span)
}

proof fn variable_symbol_source(
    locals: Seq<(Vec<u8>, Variable)>,
    query: Seq<u8>,
    path: Seq<u8>,
    index: Seq<u8>,
    j: int,
) -> (w: (int, int))
    requires
        0 <= j < variable_symbols(locals, query, path, index).len(),
    ensures
        0 <= w.0 < locals.len(),
        locals[w.0].0@ == variable_symbols(locals, query, path, index)[j].0,
        locals[w.0].1.assignments@.len() > 0,
        occurs_at(locals[w.0].0@, query, w.1),
        variable_symbols(locals, query, path, index)[j].1 == (if locals[w.0].1.is_args {
            WorkspaceSymbolKind::Constant
        } else {
            WorkspaceSymbolKind::Variable
        }),
        variable_symbols(locals, query, path, index)[j].2 == path,
        variable_symbols(locals, query, path, index)[j].3 == range_of(index, locals[w.0].1.assignments@[0].statement_span),
    decreases locals.len(),
{
    let rest = locals.drop_last();
    let rr = variable_symbols(rest, query, path, index);
    let last = locals.last();
    if j < rr.len() {
        let w = variable_symbol_source(rest, query, path, index, j);
        assert(locals[w.0] == rest[w.0]);
        w
    } else {
        lemma_contains_occurrence(lowercase_text(last.0@), query);
        let i = choose|i: int|
            0 <= i && i + query.len() <= lowercase_text(last.0@).len() && #[trigger] lowercase_text(last.0@).subrange(
                i,
                i + query.len(),
            ) == query;
        assert(locals[locals.len() - 1] == last);
        (locals.len() - 1, i)
    }
}

proof fn variable_symbol_place(
    locals: Seq<(Vec<u8>, Variable)>,
    query: Seq<u8>,
    path: Seq<u8>,
    index: Seq<u8>,
    k: int,
    i: int,
) -> (j: int)
    requires
        0 <= k < locals.len(),
        locals[k].1.assignments@.len() > 0,
        occurs_at(locals[k].0@, query, i),
    ensures
        0 <= j < variable_symbols(locals, query, path, index).len(),
        variable_symbols(locals, query, path, index)[j].0 == locals[k].0@,
    decreases locals.len(),
{
    let rest = locals.drop_last();
    let rr = variable_symbols(rest, query, path, index);
    let last = locals.last();
    if k < locals.len() - 1 {
        assert(locals[k] == rest[k]);
        variable_symbol_place(rest, query, path, index, k, i)
    } else {
        lemma_occurrence_contains(lowercase_text(last.0@), i, query.len() as int);
        rr.len() as int
    }
}

/// A variable is listed exactly when it is set somewhere and the query occurs
/// at some position of its lower-cased name: every symbol is the symbol of
/// such a variable (its kind, file and first assignment), and every such
/// variable gives a symbol of its name.
pub proof fn lemma_variable_symbols_match(
    locals: Seq<(Vec<u8>, Variable)>,
    query: Seq<u8>,
    path: Seq<u8>,
    index: Seq<u8>,
)
    ensures
        forall|j: int|
            0 <= j < variable_symbols(locals, query, path, index).len() ==> is_variable_symbol(
                locals,
                query,
                path,
                index,
                #[trigger] variable_symbols(locals, query, path, index)[j],
            ),
        forall|k: int, i: int|
            0 <= k < locals.len() && locals[k].1.assignments@.len() > 0 && #[trigger] occurs_at(locals[k].0@, query, i)
                ==> exists|j: int|
                0 <= j < variable_symbols(locals, query, path, index).len() && (#[trigger] variable_symbols(
                    locals,
                    query,
                    path,
                    index,
                )[j]).0 == locals[k].0@,
{
    assert forall|j: int| 0 <= j < variable_symbols(locals, query, path, index).len() implies is_variable_symbol(
        locals,
        query,
        path,
        index,
        #[trigger] variable_symbols(locals, query, path, index)[j],
    ) by {
        let w = variable_symbol_source(locals, query, path, index, j);
        assert(occurs_at(locals[w.0].0@, query, w.1));
    }
    assert forall|k: int, i: int|
        0 <= k < locals.len() && locals[k].1.assignments@.len() > 0 && #[trigger] occurs_at(locals[k].0@, query, i)
            implies exists|j: int| 0 <= j < variable_symbols(locals, query, path, index).len() && (#[trigger] variable_symbols(locals, query, path, index)[j]).0 == locals[k].0@ by {
        let j = variable_symbol_place(locals, query, path, index, k, i);
        assert(variable_symbols(locals, query, path, index)[j].0 == locals[k].0@);
    }
}

/// The symbols of the templates among `locals` whose lower-cased name
/// contains `query`.
pub open spec fn template_symbols(locals: Seq<(Vec<u8>, Template)>, query: Seq<u8>, path: Seq<u8>, index: Seq<u8>) -> Seq<
    WorkspaceSymbolView,
>
    decreases locals.len(),
{
    if locals.len() == 0 {
        seq![]
    } else {
        let rest = template_symbols(locals.drop_last(), query, path, index);
        let item = locals.last();
        if contains_seq(lowercase_text(item.0@), query) {
            rest.push((item.0@, WorkspaceSymbolKind::Function, path, range_of(index, item.1.call_span)))
        } else {
            rest
        }
    }
}

proof fn template_symbol_source(
    locals: Seq<(Vec<u8>, Template)>,
    query: Seq<u8>,
    path: Seq<u8>,
    index: Seq<u8>,
    j: int,
) -> (w: (int, int))
    requires
        0 <= j < template_symbols(locals, query, path, index).len(),
    ensures
        0 <= w.0 < locals.len(),
        locals[w.0].0@ == template_symbols(locals, query, path, index)[j].0,
        occurs_at(locals[w.0].0@, query, w.1),
        template_symbols(locals, query, path, index)[j].1 == WorkspaceSymbolKind::Function,
        template_symbols(locals, query, path, index)[j].2 == path,
        template_symbols(locals, query, path, index)[j].3 == range_of(index, locals[w.0].1.call_span),
    decreases locals.len(),
{
    let rest = locals.drop_last();
    let rr = template_symbols(rest, query, path, index);
    let last = locals.last();
    if j < rr.len() {
        let w = template_symbol_source(rest, query, path, index, j);
        assert(locals[w.0] == rest[w.0]);
        w
    } else {
        lemma_contains_occurrence(lowercase_text(last.0@), query);
        let i = choose|i: int|
            0 <= i && i + query.len() <= lowercase_text(last.0@).len() && #[trigger] lowercase_text(last.0@).subrange(
                i,
                i + query.len(),
            ) == query;
        assert(locals[locals.len() - 1] == last);
        (locals.len() - 1, i)
    }
}

proof fn template_symbol_place(
    locals: Seq<(Vec<u8>, Template)>,
    query: Seq<u8>,
    path: Seq<u8>,
    index: Seq<u8>,
    k: int,
    i: int,
) -> (j: int)
    requires
        0 <= k < locals.len(),
        occurs_at(locals[k].0@, query, i),
    ensures
        0 <= j < template_symbols(locals, query, path, index).len(),
        template_symbols(locals, query, path, index)[j].0 == locals[k].0@,
    decreases locals.len(),
{
    let rest = locals.drop_last();
    let rr = template_symbols(rest, query, path, index);
    let last = locals.last();
    if k < locals.len() - 1 {
        assert(locals[k] == rest[k]);
        template_symbol_place(rest, query, path, index, k, i)
    } else {
        lemma_occurrence_contains(lowercase_text(last.0@), i, query.len() as int);
        rr.len() as int
    }
}

/// A template is listed exactly when the query occurs at some position of
/// its lower-cased name: every symbol is the symbol of such a template (its
/// file and call), and every such template gives a symbol of its name.
pub proof fn lemma_template_symbols_match(
    locals: Seq<(Vec<u8>, Template)>,
    query: Seq<u8>,
    path: Seq<u8>,
    index: Seq<u8>,
)
    ensures
        forall|j: int|
            0 <= j < template_symbols(locals, query, path, index).len() ==> is_template_symbol(
                locals,
                query,
                path,
                index,
                #[trigger] template_symbols(locals, query, path, index)[j],
            ),
        forall|k: int, i: int|
            0 <= k < locals.len() && #[trigger] occurs_at(locals[k].0@, query, i) ==> exists|j: int|
                0 <= j < template_symbols(locals, query, path, index).len() && (#[trigger] template_symbols(
                    locals,
                    query,
                    path,
                    index,
                )[j]).0 == locals[k].0@,
{
    assert forall|j: int| 0 <= j < template_symbols(locals, query, path, index).len() implies is_template_symbol(
        locals,
        query,
        path,
        index,
        #[trigger] template_symbols(locals, query, path, index)[j],
    ) by {
        let w = template_symbol_source(locals, query, path, index, j);
        assert(occurs_at(locals[w.0].0@, query, w.1));
    }
    assert forall|k: int, i: int| 0 <= k < locals.len() && #[trigger] occurs_at(locals[k].0@, query, i) implies exists|
        j: int,
    | 0 <= j < template_symbols(locals, query, path, index).len() && (#[trigger] template_symbols(locals, query, path, index)[j]).0 == locals[k].0@ by {
        let j = template_symbol_place(locals, query, path, index, k, i);
        assert(template_symbols(locals, query, path, index)[j].0 == locals[k].0@);
    }
}

fn push_variable_symbols(
    out: &mut Vec<WorkspaceSymbol>,
    locals: &Vec<(Vec<u8>, Variable)>,
    query: &[u8],
    path: &[u8],
    index: &LineIndex,
)
    ensures
        symbols_view(final(out)@) == symbols_view(old(out)@) + variable_symbols(locals@, query@, path@, index@),
{
    let ghost start = symbols_view(out@);
    let mut i: usize = 0;
    assert(locals@.take(0) =~= Seq::<(Vec<u8>, Variable)>::empty());
    assert(symbols_view(out@) =~= start + variable_symbols(locals@.take(0), query@, path@, index@));
    while i < locals.len()
        invariant
            i <= locals@.len(),
            symbols_view(out@) == start + variable_symbols(locals@.take(i as int), query@, path@, index@),
        decreases locals.len() - i,
    {
        assert(locals@.take(i + 1).drop_last() =~= locals@.take(i as int));
        assert(locals@.take(i + 1).last() == locals@[i as int]);
        let name = &locals[i].0;
        let v = &locals[i].1;
        let lower = lowercase(name.as_slice());
        if contains_exec(lower.as_slice(), query) && v.assignments.len() > 0 {
            let kind = if v.is_args {
                WorkspaceSymbolKind::Constant
            } else {
                WorkspaceSymbolKind::Variable
            };
            let sym = WorkspaceSymbol {
                name: copy_range(name.as_slice(), 0, name.len()),
                kind,
                path: copy_range(path, 0, path.len()),
                range: index.range(v.assignments[0].statement_span),
            };
            assert(name@.subrange(0, name@.len() as int) =~= name@);
            assert(path@.subrange(0, path@.len() as int) =~= path@);
            let ghost before = out@;
            out.push(sym);
            assert(symbols_view(out@) =~= symbols_view(before).push(sym@));
        }
        i += 1;
    }
    assert(locals@.take(locals@.len() as int) =~= locals@);
}

fn push_template_symbols(
    out: &mut Vec<WorkspaceSymbol>,
    locals: &Vec<(Vec<u8>, Template)>,
    query: &[u8],
    path: &[u8],
    index: &LineIndex,
)
    ensures
        symbols_view(final(out)@) == symbols_view(old(out)@) + template_symbols(locals@, query@, path@, index@),
{
    let ghost start = symbols_view(out@);
    let mut i: usize = 0;
    assert(locals@.take(0) =~= Seq::<(Vec<u8>, Template)>::empty());
    assert(symbols_view(out@) =~= start + template_symbols(locals@.take(0), query@, path@, index@));
    while i < locals.len()
        invariant
            i <= locals@.len(),
            symbols_view(out@) == start + template_symbols(locals@.take(i as int), query@, path@, index@),
        decreases locals.len() - i,
    {
        assert(locals@.take(i + 1).drop_last() =~= locals@.take(i as int));
        assert(locals@.take(i + 1).last() == locals@[i as int]);
        let name = &locals[i].0;
        let lower = lowercase(name.as_slice());
        if contains_exec(lower.as_slice(), query) {
            let sym = WorkspaceSymbol {
                name: copy_range(name.as_slice(), 0, name.len()),
                kind: WorkspaceSymbolKind::Function,
                path: copy_range(path, 0, path.len()),
                range: index.range(locals[i].1.call_span),
            };
            assert(name@.subrange(0, name@.len() as int) =~= name@);
            assert(path@.subrange(0, path@.len() as int) =~= path@);
            let ghost before = out@;
            out.push(sym);
            assert(symbols_view(out@) =~= symbols_view(before).push(sym@));
        }
        i += 1;
    }
    assert(locals@.take(locals@.len() as int) =~= locals@);
}

/// The symbols a file defines whose lower-cased name contains `query`
/// (already lower-cased): its variables, then its templates.
pub open spec fn file_symbols(file: ShallowFile, query: Seq<u8>) -> Seq<WorkspaceSymbolView> {
    variable_symbols(file.environment.spec_variables().own(), query, file.path@, file.document.line_index@)
        + template_symbols(file.environment.spec_templates().own(), query, file.path@, file.document.line_index@)
}

/// The symbols of a file whose lower-cased name contains `query`, as
/// `extract_symbols` lists them.
pub fn extract_symbols(file: &ShallowFile, query: &[u8]) -> (r: Vec<WorkspaceSymbol>)
    ensures
        symbols_view(r@) == file_symbols(*file, query@),
{
    let mut out: Vec<WorkspaceSymbol> = Vec::new();
    assert(symbols_view(out@) =~= Seq::<WorkspaceSymbolView>::empty());
    let vars = file.environment.variables();
    push_variable_symbols(&mut out, vars.locals(), query, file.path.as_slice(), &file.document.line_index);
    let tmpls = file.environment.templates();
    push_template_symbols(&mut out, tmpls.locals(), query, file.path.as_slice(), &file.document.line_index);
    assert(symbols_view(out@) =~= file_symbols(*file, query@));
    out
}

/// The symbols of `files` in order.
pub open spec fn files_symbols(files: Seq<ShallowFile>, query: Seq<u8>) -> Seq<WorkspaceSymbolView>
    decreases files.len(),
{
    if files.len() == 0 {
        seq![]
    } else {
        files_symbols(files.drop_last(), query) + file_symbols(files.last(), query)
    }
}

/// The symbols of `files` that match `query`, compared in lower case.
pub fn workspace_symbols(files: &Vec<ShallowFile>, query: &[u8]) -> (r: Vec<WorkspaceSymbol>)
    ensures
        symbols_view(r@) == files_symbols(files@, lowercase_text(query@)),
{
    let q = lowercase(query);
    let mut out: Vec<WorkspaceSymbol> = Vec::new();
    let mut i: usize = 0;
    assert(files@.take(0) =~= Seq::<ShallowFile>::empty());
    assert(symbols_view(out@) =~= Seq::<WorkspaceSymbolView>::empty());
    while i < files.len()
        invariant
            i <= files@.len(),
            q@ == lowercase_text(query@),
            symbols_view(out@) == files_symbols(files@.take(i as int), q@),
        decreases files.len() - i,
    {
        assert(files@.take(i + 1).drop_last() =~= files@.take(i as int));
        assert(files@.take(i + 1).last() == files@[i as int]);
        let mut found = extract_symbols(&files[i], q.as_slice());
        let ghost before = symbols_view(out@);
        let ghost extra = symbols_view(found@);
        out.append(&mut found);
        assert(symbols_view(out@) =~= before + extra);
        i += 1;
    }
    assert(files@.take(files@.len() as int) =~= files@);
    out
}

/// Whether some symbol of `all` is a build argument named `name`.
pub open spec fn is_arg_name(all: Seq<WorkspaceSymbolView>, name: Seq<u8>) -> bool {
    exists|j: int| 0 <= j < all.len() && (#[trigger] all[j]).1 == WorkspaceSymbolKind::Constant && all[j].0 == name
}

/// The symbols of `s` kept among `all`: build arguments, and the others
/// unless a build argument has their name.
pub open spec fn kept_symbols(all: Seq<WorkspaceSymbolView>, s: Seq<WorkspaceSymbolView>) -> Seq<WorkspaceSymbolView>
    decreases s.len(),
{
    if s.len() == 0 {
        seq![]
    } else {
        let rest = kept_symbols(all, s.drop_last());
        let x = s.last();
        if x.1 == WorkspaceSymbolKind::Constant || !is_arg_name(all, x.0) {
            rest.push(x)
        } else {
            rest
        }
    }
}

fn is_arg_name_exec(all: &Vec<WorkspaceSymbol>, name: &[u8]) -> (r: bool)
    ensures
        r == is_arg_name(symbols_view(all@), name@),
{
    let ghost v = symbols_view(all@);
    let mut j: usize = 0;
    while j < all.len()
        invariant
            j <= all@.len(),
            v == symbols_view(all@),
            forall|k: int| 0 <= k < j ==> !((#[trigger] v[k]).1 == WorkspaceSymbolKind::Constant && v[k].0 == name@),
        decreases all.len() - j,
    {
        assert(v[j as int] == all@[j as int]@);
        if all[j].kind == WorkspaceSymbolKind::Constant && crate::storage::bytes_eq(all[j].name.as_slice(), name) {
            return true;
        }
        j += 1;
    }
    false
}

/// When a name is a build argument somewhere, drops the other symbols of that
/// name.
pub fn drop_shadowed(symbols: &Vec<WorkspaceSymbol>) -> (r: Vec<WorkspaceSymbol>)
    ensures
        symbols_view(r@) == kept_symbols(symbols_view(symbols@), symbols_view(symbols@)),
{
    let ghost all = symbols_view(symbols@);
    let mut out: Vec<WorkspaceSymbol> = Vec::new();
    let mut i: usize = 0;
    assert(all.take(0) =~= Seq::<WorkspaceSymbolView>::empty());
    assert(symbols_view(out@) =~= kept_symbols(all, all.take(0)));
    while i < symbols.len()
        invariant
            i <= symbols@.len(),
            all == symbols_view(symbols@),
            symbols_view(out@) == kept_symbols(all, all.take(i as int)),
        decreases symbols.len() - i,
    {
        assert(all.take(i + 1).drop_last() =~= all.take(i as int));
        assert(all.take(i + 1).last() == symbols@[i as int]@);
        let s = &symbols[i];
        if s.kind == WorkspaceSymbolKind::Constant || !is_arg_name_exec(symbols, s.name.as_slice()) {
            let copy = WorkspaceSymbol {
                name: copy_range(s.name.as_slice(), 0, s.name.len()),
                kind: s.kind,
                path: copy_range(s.path.as_slice(), 0, s.path.len()),
                range: s.range,
            };
            assert(s.name@.subrange(0, s.name@.len() as int) =~= s.name@);
            assert(s.path@.subrange(0, s.path@.len() as int) =~= s.path@);
            let ghost before = out@;
            out.push(copy);
            assert(symbols_view(out@) =~= symbols_view(before).push(copy@));
        }
        i += 1;
    }
    assert(all.take(all.len() as int) =~= all);
    out
}

/// Where a name is a build argument, its other symbols are dropped: every
/// symbol kept is a build argument or bears no build argument's name, and
/// every build argument is kept.
pub proof fn lemma_args_shadow_others(all: Seq<WorkspaceSymbolView>, s: Seq<WorkspaceSymbolView>)
    ensures
        forall|i: int|
            0 <= i < kept_symbols(all, s).len() ==> (#[trigger] kept_symbols(all, s)[i]).1
                == WorkspaceSymbolKind::Constant || !is_arg_name(all, kept_symbols(all, s)[i].0),
        forall|j: int|
            0 <= j < s.len() && (#[trigger] s[j]).1 == WorkspaceSymbolKind::Constant ==> kept_symbols(all, s).contains(
                s[j],
            ),
    decreases s.len(),
{
    if s.len() > 0 {
        let rest = s.drop_last();
        lemma_args_shadow_others(all, rest);
        let k = kept_symbols(all, s);
        let kr = kept_symbols(all, rest);
        assert forall|j: int| 0 <= j < s.len() && (#[trigger] s[j]).1 == WorkspaceSymbolKind::Constant implies k.contains(
            s[j],
        ) by {
            if j < s.len() - 1 {
                assert(rest[j] == s[j]);
                let w = choose|m: int| 0 <= m < kr.len() && kr[m] == s[j];
                if k != kr {
                    assert(k[w] == kr[w]);
                }
            } else {
                assert(k.last() == s[j]);
            }
        }
    }
}

} // verus!
