//! The full analysis of the file being edited, and what the editor asks of
//! it: the identifier under the cursor, what it refers to, and what may be
//! written there.

use std::sync::Arc;

use vstd::prelude::*;
use vstd::string::StringSliceAdditionalSpecFns;

use crate::analyzed::{rel_statements, AnalysisContext, AnalyzedBlock, AnalyzedStatement, ImportTable, SyntheticImport};
use crate::ast::{derefs, Block, Identifier, Span, StringLiteral};
use crate::builtins::{BuiltinSymbol, BuiltinSymbols};
use crate::cache::{AnalysisNode, CHECK_INTERVAL};
use crate::environment::{cloned_map, local_map, distinct_names};
use crate::items::{FileEnvironment, Template, TemplateScope, Variable, VariableScope};
use crate::line_index::{spec_offset, Position};
use crate::links::{collect_links, links_of, AnalyzedLink};
use crate::parser::{parse, wf_block};
use crate::scopes::{tmpls_at, vars_at};
use crate::storage::Document;
use crate::symbols::{collect_symbols, rel_statements_syms, DocumentSymbol};
use crate::util::{is_boundary, spec_is_after_dot, SLASH, COLON};
use crate::walk::found_in_block;
use crate::workspace::{copy_range, spec_parent, WorkspaceContext};

verus! {

/// A file analyzed in full.
pub struct AnalyzedFile {
    pub document: Document,
    pub workspace_root: Vec<u8>,
    pub ast: Block,
    pub analyzed_root: AnalyzedBlock,
    pub links: Vec<AnalyzedLink>,
    pub symbols: Vec<DocumentSymbol>,
    pub node: AnalysisNode,
}

impl AnalyzedFile {
    /// The line index is that of the text.
    pub open spec fn wf(&self) -> bool {
        self.document.line_index@ == self.document.bytes()
    }

    /// Analyzes `document` of the workspace `context`: parses it, analyzes
    /// every block (imports taken from `imports`), puts first an import of
    /// the build configuration file, and collects links and the outline.
    pub fn analyze(
        document: Document,
        context: &WorkspaceContext,
        imports: ImportTable,
        build_config: Arc<FileEnvironment>,
        deps: Vec<AnalysisNode>,
        request_time: u64,
    ) -> (r: AnalyzedFile)
        requires
            document.line_index@ == document.bytes(),
            spec_parent(document.path@) is Some,
            request_time + CHECK_INTERVAL <= u64::MAX,
        ensures
            r.wf(),
            r.document == document,
            r.workspace_root@ == context.root@,
            wf_block(r.ast, document.bytes()),
            r.ast.span == (Span { start: 0, end: document.bytes().len() as usize }),
            crate::shape::block_shape(r.ast) == crate::parser::parsed(document.bytes()),
            r.analyzed_root.span == r.ast.span,
            r.analyzed_root.statements@.len() > 0,
            r.analyzed_root.statements@[0] matches AnalyzedStatement::SyntheticImport(s) && s.file == build_config
                && s.span == (Span { start: 0, end: 0 }),
            rel_statements(
                r.analyzed_root.statements@.drop_first(),
                r.ast.statements@,
                (context.root@, spec_parent(document.path@).unwrap(), imports.entries@),
            ),
            rel_statements_syms(r.symbols@, r.ast.statements@, document.bytes()),
            links_of(r.links@, r.ast, document.path@, context.root@),
            r.node.path@ == document.path@,
            r.node.version == document.version,
            r.node.deps == deps,
    {
        let ast = parse(document.data.as_str());
        let dir = match crate::workspace::parent(document.path.as_slice()) {
            Some(d) => d,
            None => Vec::new(),
        };
        let cx = AnalysisContext { root: copy_range(context.root.as_slice(), 0, context.root.len()), dir, imports };
        assert(context.root@.subrange(0, context.root@.len() as int) =~= context.root@);
        let mut analyzed_root = cx.analyze_block(&ast);
        let ghost analyzed = analyzed_root.statements@;
        analyzed_root.statements.insert(
            0,
            AnalyzedStatement::SyntheticImport(Box::new(SyntheticImport { file: build_config, span: Span { start: 0, end: 0 } })),
        );
        assert(analyzed_root.statements@.drop_first() =~= analyzed);
        let links = collect_links(&ast, document.path.as_slice(), context);
        let symbols = collect_symbols(&ast.statements, document.data.as_str().as_bytes());
        let path = copy_range(document.path.as_slice(), 0, document.path.len());
        assert(path@ =~= document.path@);
        let node = AnalysisNode::new(path, document.version, deps, request_time);
        let workspace_root = copy_range(context.root.as_slice(), 0, context.root.len());
        AnalyzedFile { document, workspace_root, ast, analyzed_root, links, symbols, node }
    }

    /// The variables visible at `pos`.
    pub fn variables_at(&self, pos: usize) -> (r: VariableScope)
        ensures
            r.wf(),
            (crate::items::scope_view(r.locals_map()), r.imported_arcs()) == vars_at(self.analyzed_root, pos, self.document.path@),
    {
        self.analyzed_root.variables_at(pos, self.document.path.as_slice())
    }

    /// The templates visible at `pos`.
    pub fn templates_at(&self, pos: usize) -> (r: TemplateScope)
        ensures
            r.wf(),
            (crate::items::scope_view(r.locals_map()), r.imported_arcs()) == tmpls_at(self.analyzed_root, pos, self.document.path@),
    {
        self.analyzed_root.templates_at(pos, self.document.path.as_slice())
    }
}

/// The index of the first identifier of `ids` whose span holds `offset`
/// (its ends included).
pub open spec fn first_at(ids: Seq<Identifier>, offset: int) -> Option<int>
    decreases ids.len(),
{
    if ids.len() == 0 {
        None
    } else if ids[0].span.start <= offset <= ids[0].span.end {
        Some(0)
    } else {
        match first_at(ids.drop_first(), offset) {
            Some(i) => Some(i + 1),
            None => None,
        }
    }
}

/// The identifier of `ast` under byte `offset`: the first, in pre-order,
/// whose span holds it.
pub fn identifier_at(ast: &Block, offset: usize) -> (r: Option<&Identifier>)
    ensures
        match first_at(found_in_block(*ast).0, offset as int) {
            Some(i) => r matches Some(x) && *x == found_in_block(*ast).0[i],
            None => r is None,
        },
{
    let ids = ast.identifiers();
    let ghost all = found_in_block(*ast).0;
    let n = ids.len();
    let mut i: usize = 0;
    assert(all.skip(0) =~= all);
    while i < n
        invariant
            n == ids@.len(),
            derefs(ids@) == all,
            all == found_in_block(*ast).0,
            i <= n,
            first_at(all, offset as int) == match first_at(all.skip(i as int), offset as int) {
                Some(j) => Some(j + i),
                None => None,
            },
        decreases n - i,
    {
        let ghost rest = all.skip(i as int);
        assert(rest[0] == all[i as int]);
        assert(rest.drop_first() =~= all.skip(i + 1));
        let id = ids[i];
        assert(*id == all[i as int]);
        if id.span.start <= offset && offset <= id.span.end {
            assert(first_at(rest, offset as int) == Some(0int));
            return Some(id);
        }
        assert(first_at(rest, offset as int) == match first_at(rest.drop_first(), offset as int) {
            Some(j) => Some(j + 1),
            None => None::<int>,
        });
        i += 1;
    }
    assert(all.skip(n as int) =~= Seq::<Identifier>::empty());
    None
}

/// The first builtin symbol named `name`.
pub open spec fn first_builtin(syms: Seq<BuiltinSymbol>, name: Seq<u8>) -> Option<int>
    decreases syms.len(),
{
    if syms.len() == 0 {
        None
    } else if syms[0].name.spec_bytes() == name {
        Some(0)
    } else {
        match first_builtin(syms.drop_first(), name) {
            Some(i) => Some(i + 1),
            None => None,
        }
    }
}

fn find_builtin<'a>(all: &Vec<&'a BuiltinSymbol>, name: &[u8]) -> (r: Option<&'a BuiltinSymbol>)
    ensures
        match first_builtin(derefs(all@), name@) {
            Some(i) => r matches Some(x) && *x == derefs(all@)[i],
            None => r is None,
        },
{
    let ghost syms = derefs(all@);
    let n = all.len();
    let mut i: usize = 0;
    assert(syms.skip(0) =~= syms);
    while i < n
        invariant
            n == all@.len(),
            syms == derefs(all@),
            i <= n,
            first_builtin(syms, name@) == match first_builtin(syms.skip(i as int), name@) {
                Some(j) => Some(j + i),
                None => None,
            },
        decreases n - i,
    {
        let ghost rest = syms.skip(i as int);
        assert(rest[0] == syms[i as int]);
        assert(rest.drop_first() =~= syms.skip(i + 1));
        assert(*all@[i as int] == syms[i as int]);
        if crate::storage::bytes_eq(all[i].name.as_bytes(), name) {
            assert(first_builtin(rest, name@) == Some(0int));
            return Some(all[i]);
        }
        assert(first_builtin(rest, name@) == match first_builtin(rest.drop_first(), name@) {
            Some(j) => Some(j + 1),
            None => None::<int>,
        });
        i += 1;
    }
    assert(syms.skip(n as int) =~= Seq::<BuiltinSymbol>::empty());
    None
}

/// What a hover shows: the identifier's span, the template and the variable
/// it names there, and the help of the builtin symbol of that name.
pub struct HoverInfo<'a> {
    pub span: Span,
    pub template: Option<Template>,
    pub variable: Option<Variable>,
    pub builtin: Option<&'a BuiltinSymbol>,
}

impl Template {
    /// A copy.
    pub fn copy(&self) -> (r: Template)
        ensures
            r@ == self@,
    {
        Template {
            path: copy_range(self.path.as_slice(), 0, self.path.len()),
            call_span: self.call_span,
            name: copy_range(self.name.as_slice(), 0, self.name.len()),
            comments: crate::items::copy_vec_lines(&self.comments),
            header: self.header,
        }
    }
}


/// What `get` finds for `name` in a scope with local items (by view)
/// `scope.0` and imports `scope.1`, by view.
pub open spec fn lookup_view<T: View>(scope: (Map<Seq<u8>, T::V>, Seq<Arc<crate::environment::Environment<T>>>), name: Seq<u8>) -> Option<T::V> {
    match scope.0.get(name) {
        Some(v) => Some(v),
        None => match crate::environment::lookup_in(scope.1, name) {
            Some(t) => Some(t@),
            None => None,
        },
    }
}

/// What `get` returns, by view.
fn get_copy_template(scope: &TemplateScope, name: &[u8]) -> (r: Option<Template>)
    ensures
        match r {
            Some(t) => lookup_view::<Template>((crate::items::scope_view(scope.locals_map()), scope.imported_arcs()), name@) == Some(t@),
            None => lookup_view::<Template>((crate::items::scope_view(scope.locals_map()), scope.imported_arcs()), name@) is None,
        },
{
    proof {
        crate::environment::lemma_lookup_local(*scope, name@);
    }
    match scope.get(name) {
        Some(t) => Some(t.copy()),
        None => None,
    }
}

fn get_copy_variable(scope: &VariableScope, name: &[u8]) -> (r: Option<Variable>)
    ensures
        match r {
            Some(v) => lookup_view::<Variable>((crate::items::scope_view(scope.locals_map()), scope.imported_arcs()), name@) == Some(v@),
            None => lookup_view::<Variable>((crate::items::scope_view(scope.locals_map()), scope.imported_arcs()), name@) is None,
        },
{
    proof {
        crate::environment::lemma_lookup_local(*scope, name@);
    }
    match scope.get(name) {
        Some(v) => Some(v.copy()),
        None => None,
    }
}

pub open spec fn opt_template_view(t: Option<Template>) -> Option<crate::items::TemplateView> {
    match t {
        Some(x) => Some(x@),
        None => None,
    }
}

pub open spec fn opt_variable_view(v: Option<Variable>) -> Option<crate::items::VariableView> {
    match v {
        Some(x) => Some(x@),
        None => None,
    }
}

impl AnalyzedFile {
    /// What a hover at `position` shows: for the identifier there, the
    /// template and the variable of its name visible at its start, and the
    /// builtin symbol of its name; nothing when there is no identifier or
    /// none of the three.
    pub fn hover_at<'a>(&self, position: Position, builtins: &'a BuiltinSymbols) -> (r: Option<HoverInfo<'a>>)
        requires
            self.wf(),
        ensures
            match spec_offset(self.document.bytes(), position) {
                None => r is None,
                Some(o) => match first_at(found_in_block(self.ast).0, o) {
                    None => r is None,
                    Some(i) => {
                        let id = found_in_block(self.ast).0[i];
                        let t = lookup_view::<Template>(tmpls_at(self.analyzed_root, id.span.start, self.document.path@), id.name@);
                        let v = lookup_view::<Variable>(vars_at(self.analyzed_root, id.span.start, self.document.path@), id.name@);
                        let b = first_builtin(builtins.spec_all(), id.name@);
                        if t is None && v is None && b is None {
                            r is None
                        } else {
                            r matches Some(h) && h.span == id.span && opt_template_view(h.template) == t
                                && opt_variable_view(h.variable) == v && match b {
                                Some(k) => h.builtin matches Some(x) && *x == builtins.spec_all()[k],
                                None => h.builtin is None,
                            }
                        }
                    },
                },
            },
    {
        let offset = match self.document.line_index.offset(position) {
            Some(o) => o,
            None => return None,
        };
        let ident = match identifier_at(&self.ast, offset) {
            Some(i) => i,
            None => return None,
        };
        let templates = self.templates_at(ident.span.start);
        let template = get_copy_template(&templates, ident.name.as_slice());
        let variables = self.variables_at(ident.span.start);
        let variable = get_copy_variable(&variables, ident.name.as_slice());
        let all = builtins.all();
        let builtin = find_builtin(&all, ident.name.as_slice());
        if template.is_none() && variable.is_none() && builtin.is_none() {
            return None;
        }
        Some(HoverInfo { span: ident.span, template, variable, builtin })
    }
}


/// The index of the first string of `strs` strictly around `offset`.
pub open spec fn first_string_within(strs: Seq<StringLiteral>, offset: int) -> Option<int>
    decreases strs.len(),
{
    if strs.len() == 0 {
        None
    } else if strs[0].span.start < offset < strs[0].span.end {
        Some(0)
    } else {
        match first_string_within(strs.drop_first(), offset) {
            Some(i) => Some(i + 1),
            None => None,
        }
    }
}

fn string_within<'a>(strs: &Vec<&'a StringLiteral>, offset: usize) -> (r: Option<&'a StringLiteral>)
    ensures
        match first_string_within(derefs(strs@), offset as int) {
            Some(i) => r matches Some(x) && *x == derefs(strs@)[i],
            None => r is None,
        },
        r matches Some(x) ==> x.span.start < offset < x.span.end,
{
    let ghost all = derefs(strs@);
    let n = strs.len();
    let mut i: usize = 0;
    assert(all.skip(0) =~= all);
    while i < n
        invariant
            n == strs@.len(),
            all == derefs(strs@),
            i <= n,
            first_string_within(all, offset as int) == match first_string_within(all.skip(i as int), offset as int) {
                Some(j) => Some(j + i),
                None => None,
            },
        decreases n - i,
    {
        let ghost rest = all.skip(i as int);
        assert(rest[0] == all[i as int]);
        assert(rest.drop_first() =~= all.skip(i + 1));
        let s = strs[i];
        assert(*s == all[i as int]);
        if s.span.start < offset && offset < s.span.end {
            assert(first_string_within(rest, offset as int) == Some(0int));
            return Some(s);
        }
        assert(first_string_within(rest, offset as int) == match first_string_within(rest.drop_first(), offset as int) {
            Some(j) => Some(j + 1),
            None => None::<int>,
        });
        i += 1;
    }
    assert(all.skip(n as int) =~= Seq::<StringLiteral>::empty());
    None
}

/// What may be written at a position.
pub enum Completion<'a> {
    /// Nothing to offer.
    Nothing,
    /// File names starting with `prefix`, relative to the file's directory.
    Files { prefix: Vec<u8> },
    /// Identifiers: the variables and templates visible there, by name, GN's
    /// functions and target types, GN's variables, and the keywords.
    Items {
        variables: Vec<(Vec<u8>, Variable)>,
        templates: Vec<(Vec<u8>, Template)>,
        functions: Vec<&'a BuiltinSymbol>,
        builtin_variables: Vec<&'a BuiltinSymbol>,
        keywords: Vec<Vec<u8>>,
    },
}

/// The keywords offered: `true`, `false`, `if`, `else`.
pub open spec fn keyword_names() -> Seq<Seq<u8>> {
    seq![
        seq![116u8, 114u8, 117u8, 101u8],
        seq![102u8, 97u8, 108u8, 115u8, 101u8],
        seq![105u8, 102u8],
        seq![101u8, 108u8, 115u8, 101u8],
    ]
}

fn keywords() -> (r: Vec<Vec<u8>>)
    ensures
        crate::items::lines_view(r@) == keyword_names(),
{
    let mut r: Vec<Vec<u8>> = Vec::new();
    r.push(vec![116u8, 114u8, 117u8, 101u8]);
    r.push(vec![102u8, 97u8, 108u8, 115u8, 101u8]);
    r.push(vec![105u8, 102u8]);
    r.push(vec![101u8, 108u8, 115u8, 101u8]);
    assert(crate::items::lines_view(r@) =~= keyword_names());
    r
}

/// The names a scope with local items `locals` and imports `arcs` holds,
/// imported ones included.
pub open spec fn scope_names<T>(locals: Set<Seq<u8>>, arcs: Seq<Arc<crate::environment::Environment<T>>>) -> Set<Seq<u8>> {
    crate::environment::items_of(arcs).dom().union(locals)
}

fn is_boundary_exec(data: &[u8], offset: usize) -> (r: bool)
    ensures
        r == is_boundary(data@, offset as int),
{
    offset <= data.len() && (offset == data.len() || !(0x80 <= data[offset] && data[offset] < 0xC0))
}

fn refs_of<'a>(a: &'a Vec<BuiltinSymbol>, b: &'a Vec<BuiltinSymbol>) -> (r: Vec<&'a BuiltinSymbol>)
    ensures
        derefs(r@) == a@ + b@,
{
    let mut r: Vec<&BuiltinSymbol> = Vec::new();
    let mut i: usize = 0;
    while i < a.len()
        invariant
            i <= a@.len(),
            derefs(r@) == a@.take(i as int),
        decreases a.len() - i,
    {
        let ghost before = r@;
        r.push(&a[i]);
        assert(derefs(r@) =~= derefs(before).push(a@[i as int]));
        assert(a@.take(i + 1) =~= a@.take(i as int).push(a@[i as int]));
        i += 1;
    }
    let mut j: usize = 0;
    assert(a@.take(a@.len() as int) =~= a@);
    while j < b.len()
        invariant
            j <= b@.len(),
            derefs(r@) == a@ + b@.take(j as int),
        decreases b.len() - j,
    {
        let ghost before = r@;
        r.push(&b[j]);
        assert(derefs(r@) =~= derefs(before).push(b@[j as int]));
        assert(b@.take(j + 1) =~= b@.take(j as int).push(b@[j as int]));
        j += 1;
    }
    assert(b@.take(b@.len() as int) =~= b@);
    r
}

/// Where a definition is.
pub enum Definition {
    /// Nothing there.
    Nothing,
    /// The link (an index into the file's links) under the position.
    Link(usize),
    /// The identifier's span, and the template and the variable of its name
    /// visible at its start.
    Symbols { origin: Span, template: Option<Template>, variable: Option<Variable> },
}

/// The index of the first link whose span holds `offset` (its ends included).
pub open spec fn first_link_at(links: Seq<AnalyzedLink>, offset: int) -> Option<int>
    decreases links.len(),
{
    if links.len() == 0 {
        None
    } else if links[0].spec_span().start <= offset <= links[0].spec_span().end {
        Some(0)
    } else {
        match first_link_at(links.drop_first(), offset) {
            Some(i) => Some(i + 1),
            None => None,
        }
    }
}

/// The longest prefix of `name`, of at most `len` bytes and at least one,
/// that is a key of `m`.
pub open spec fn longest_key_prefix<V>(m: Map<Seq<u8>, V>, name: Seq<u8>, len: int) -> Option<int>
    decreases len,
{
    if len <= 0 {
        None
    } else if m.contains_key(name.take(len)) {
        Some(len)
    } else {
        longest_key_prefix(m, name, len - 1)
    }
}

/// The target named by `name` or, failing that, by its longest prefix
/// among the targets a file declares itself.
pub fn find_target(targets: &crate::items::TargetScope, name: &[u8]) -> (r: Option<crate::items::Target>)
    ensures
        match longest_key_prefix(crate::items::scope_view(targets.locals_map()), name@, name@.len() as int) {
            Some(l) => r matches Some(t) && t@ == crate::items::scope_view(targets.locals_map())[name@.take(l)],
            None => r is None,
        },
{
    let ghost m = crate::items::scope_view(targets.locals_map());
    let mut len = name.len();
    while len > 0
        invariant
            len <= name@.len(),
            m == crate::items::scope_view(targets.locals_map()),
            longest_key_prefix(m, name@, name@.len() as int) == longest_key_prefix(m, name@, len as int),
        decreases len,
    {
        let prefix = copy_range(name, 0, len);
        assert(prefix@ =~= name@.take(len as int));
        match targets.get_local(prefix.as_slice()) {
            Some(t) => {
                let c = crate::items::Target {
                    path: copy_range(t.path.as_slice(), 0, t.path.len()),
                    call_span: t.call_span,
                    name: copy_range(t.name.as_slice(), 0, t.name.len()),
                };
                assert(c.path@ =~= t.path@);
                assert(c.name@ =~= t.name@);
                return Some(c);
            },
            None => {},
        }
        len -= 1;
    }
    None
}

impl AnalyzedFile {
    /// What may be written at `position`: inside a string, file names
    /// (unless the text before the cursor starts with `/` or `:`); right
    /// after `.` and an identifier, nothing; elsewhere, the identifiers
    /// visible there and GN's own.
    pub fn completion_at<'a>(&self, position: Position, builtins: &'a BuiltinSymbols) -> (r: Completion<'a>)
        requires
            self.wf(),
        ensures
            ({
                let o = match spec_offset(self.document.bytes(), position) {
                    Some(o) => o,
                    None => 0,
                };
                match first_string_within(found_in_block(self.ast).1, o) {
                    Some(i) => {
                        let s = found_in_block(self.ast).1[i];
                        let k = o - s.span.start - 1;
                        if k > s.raw_value@.len() {
                            r is Nothing
                        } else {
                            let p = s.raw_value@.take(k);
                            if p.len() > 0 && (p[0] == SLASH || p[0] == COLON) {
                                r is Nothing
                            } else {
                                r matches Completion::Files { prefix } && prefix@ == p
                            }
                        }
                    },
                    None => if is_boundary(self.document.bytes(), o) && spec_is_after_dot(self.document.bytes(), o) {
                        r is Nothing
                    } else {
                        r matches Completion::Items { variables, templates, functions, builtin_variables, keywords } && {
                            let vs = vars_at(self.analyzed_root, o as usize, self.document.path@);
                            let ts = tmpls_at(self.analyzed_root, o as usize, self.document.path@);
                            &&& distinct_names(variables@)
                            &&& local_map(variables@).dom() == scope_names(vs.0.dom(), vs.1)
                            &&& distinct_names(templates@)
                            &&& local_map(templates@).dom() == scope_names(ts.0.dom(), ts.1)
                            &&& derefs(functions@) == builtins.functions@ + builtins.targets@
                            &&& derefs(builtin_variables@) == builtins.predefined_variables@ + builtins.target_variables@
                            &&& crate::items::lines_view(keywords@) == keyword_names()
                        }
                    },
                }
            }),
    {
        let offset = match self.document.line_index.offset(position) {
            Some(o) => o,
            None => 0,
        };
        let strings = self.ast.strings();
        match string_within(&strings, offset) {
            Some(s) => {
                let k = offset - s.span.start - 1;
                if k > s.raw_value.len() {
                    return Completion::Nothing;
                }
                let prefix = copy_range(s.raw_value.as_slice(), 0, k);
                assert(prefix@ =~= s.raw_value@.take(k as int));
                if prefix.len() > 0 && (prefix[0] == SLASH || prefix[0] == COLON) {
                    return Completion::Nothing;
                }
                return Completion::Files { prefix };
            },
            None => {},
        }
        let data = self.document.data.as_str().as_bytes();
        if is_boundary_exec(data, offset) && crate::util::is_after_dot(data, offset) {
            return Completion::Nothing;
        }
        let vars = self.variables_at(offset);
        let tmpls = self.templates_at(offset);
        let variables = vars.all_items();
        let templates = tmpls.all_items();
        proof {
            crate::environment::lemma_items_parts(vars);
            crate::environment::lemma_items_parts(tmpls);
            assert(vars.locals_map().dom() =~= crate::items::scope_view(vars.locals_map()).dom());
            assert(tmpls.locals_map().dom() =~= crate::items::scope_view(tmpls.locals_map()).dom());
            assert(local_map(variables@).dom() =~= scope_names(crate::items::scope_view(vars.locals_map()).dom(), vars.imported_arcs()));
            assert(local_map(templates@).dom() =~= scope_names(crate::items::scope_view(tmpls.locals_map()).dom(), tmpls.imported_arcs()));
        }
        Completion::Items {
            variables,
            templates,
            functions: refs_of(&builtins.functions, &builtins.targets),
            builtin_variables: refs_of(&builtins.predefined_variables, &builtins.target_variables),
            keywords: keywords(),
        }
    }

    /// Where what is at `position` is defined: the link there, else the
    /// template and variable named by the identifier there.
    pub fn definition_at(&self, position: Position) -> (r: Definition)
        requires
            self.wf(),
        ensures
            match spec_offset(self.document.bytes(), position) {
                None => r is Nothing,
                Some(o) => match first_link_at(self.links@, o) {
                    Some(k) => r matches Definition::Link(x) && x == k,
                    None => match first_at(found_in_block(self.ast).0, o) {
                        None => r is Nothing,
                        Some(i) => {
                            let id = found_in_block(self.ast).0[i];
                            r matches Definition::Symbols { origin, template, variable } && origin == id.span
                                && opt_template_view(template) == lookup_view::<Template>(
                                tmpls_at(self.analyzed_root, id.span.start, self.document.path@),
                                id.name@,
                            ) && opt_variable_view(variable) == lookup_view::<Variable>(
                                vars_at(self.analyzed_root, id.span.start, self.document.path@),
                                id.name@,
                            )
                        },
                    },
                },
            },
    {
        let offset = match self.document.line_index.offset(position) {
            Some(o) => o,
            None => return Definition::Nothing,
        };
        let n = self.links.len();
        let mut k: usize = 0;
        let ghost all = self.links@;
        assert(all.skip(0) =~= all);
        while k < n
            invariant
                n == self.links@.len(),
                all == self.links@,
                k <= n,
                spec_offset(self.document.bytes(), position) == Some(offset as int),
                first_link_at(all, offset as int) == match first_link_at(all.skip(k as int), offset as int) {
                    Some(j) => Some(j + k),
                    None => None,
                },
            decreases n - k,
        {
            let ghost rest = all.skip(k as int);
            assert(rest[0] == all[k as int]);
            assert(rest.drop_first() =~= all.skip(k + 1));
            let sp = self.links[k].span();
            if sp.start <= offset && offset <= sp.end {
                assert(first_link_at(rest, offset as int) == Some(0int));
                return Definition::Link(k);
            }
            assert(first_link_at(rest, offset as int) == match first_link_at(rest.drop_first(), offset as int) {
                Some(j) => Some(j + 1),
                None => None::<int>,
            });
            k += 1;
        }
        assert(all.skip(n as int) =~= Seq::<AnalyzedLink>::empty());
        let ident = match identifier_at(&self.ast, offset) {
            Some(i) => i,
            None => return Definition::Nothing,
        };
        let templates = self.templates_at(ident.span.start);
        let template = get_copy_template(&templates, ident.name.as_slice());
        let variables = self.variables_at(ident.span.start);
        let variable = get_copy_variable(&variables, ident.name.as_slice());
        Definition::Symbols { origin: ident.span, template, variable }
    }
}

} // verus!
