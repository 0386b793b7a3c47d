//! Shallow analysis of imported files, one step at a time: each step either
//! reads a file and starts on it, takes an import already analyzed, or
//! finishes a file whose imports are all done. Results are kept between
//! requests while their files do not change; an import cycle makes an empty
//! environment.

use vstd::prelude::*;

use crate::ast::Block;
use crate::cache::{AnalysisNode, CHECK_INTERVAL};
use crate::error::{Error, IoErrorKind};
use crate::items::{scope_view, FileEnvironment, TargetView, TemplateView, VariableView};
use crate::parser::{parse, parsed, wf_block};
use crate::shallow::{shallow_analysis, shallow_environment, shallow_imports};
use crate::shape::block_shape;
use crate::storage::{bytes_eq, Document, DocumentStorage, DocumentVersion};
use crate::workspace::{copy_range, parent, resolve_path, spec_parent, spec_resolve_path, WorkspaceContext};

verus! {

impl FileEnvironment {
    /// Another handle on the same scopes.
    pub fn share(&self) -> (r: FileEnvironment)
        ensures
            r.spec_variables() == self.spec_variables(),
            r.spec_templates() == self.spec_templates(),
            r.spec_targets() == self.spec_targets(),
            r.wf(),
    {
        let v = self.variables();
        let t = self.templates();
        let g = self.targets();
        FileEnvironment::from_arcs(v.clone(), t.clone(), g.clone())
    }
}

impl AnalysisNode {
    /// A copy.
    pub fn copy(&self) -> (r: AnalysisNode)
        ensures
            r.path@ == self.path@,
            r.version == self.version,
            r.state == self.state,
            r.deps@.len() == self.deps@.len(),
            forall|j: int| 0 <= j < self.deps@.len() ==> (#[trigger] r.deps@[j]).path@ == self.deps@[j].path@,
        decreases *self,
    {
        let mut deps: Vec<AnalysisNode> = Vec::new();
        let mut i: usize = 0;
        while i < self.deps.len()
            invariant
                i <= self.deps@.len(),
                deps@.len() == i,
                forall|j: int| 0 <= j < i ==> (#[trigger] deps@[j]).path@ == self.deps@[j].path@,
            decreases self.deps.len() - i,
        {
            proof {
                assert(decreases_to!(*self => self.deps));
                assert(decreases_to!(self.deps => self.deps@));
                assert(decreases_to!(self.deps@ => self.deps@[i as int]));
            }
            deps.push(self.deps[i].copy());
            i += 1;
        }
        let path = copy_range(self.path.as_slice(), 0, self.path.len());
        assert(path@ =~= self.path@);
        AnalysisNode { path, version: self.version, deps, state: self.state }
    }
}

/// `ast` is the tree that `text` parses to.
pub open spec fn parses_to(ast: Block, text: Seq<u8>) -> bool {
    wf_block(ast, text) && block_shape(ast) == parsed(text)
}

/// The directory of the file at `path`, which its imports are resolved
/// from.
pub open spec fn dir_of(path: Seq<u8>) -> Seq<u8> {
    match spec_parent(path) {
        Some(d) => d,
        None => seq![],
    }
}

/// The paths of the files imported as `names` by the file at `path`.
pub open spec fn import_paths(names: Seq<Seq<u8>>, root: Seq<u8>, path: Seq<u8>) -> Seq<Seq<u8>> {
    names.map_values(|n: Seq<u8>| spec_resolve_path(n, root, dir_of(path)))
}

/// The environment of nothing: no names, no imports (what an import cycle
/// gives).
pub open spec fn is_empty_environment(e: FileEnvironment) -> bool {
    &&& scope_view(e.spec_variables().locals_map()) == Map::<Seq<u8>, VariableView>::empty()
    &&& scope_view(e.spec_templates().locals_map()) == Map::<Seq<u8>, TemplateView>::empty()
    &&& scope_view(e.spec_targets().locals_map()) == Map::<Seq<u8>, TargetView>::empty()
    &&& e.spec_variables().imported_arcs().len() == 0
    &&& e.spec_templates().imported_arcs().len() == 0
    &&& e.spec_targets().imported_arcs().len() == 0
}

/// `env` is the shallow analysis of the file at `path` with syntax tree
/// `ast`, given the environments `envs` of its imports, in order: its own
/// variables, templates and targets, each scope importing those of `envs`.
pub open spec fn analysis_of(env: FileEnvironment, ast: Block, path: Seq<u8>, envs: Seq<FileEnvironment>) -> bool {
    let a = shallow_analysis(ast, path);
    &&& env.wf()
    &&& envs.len() == a.4.len()
    &&& scope_view(env.spec_variables().locals_map()) == a.0
    &&& scope_view(env.spec_templates().locals_map()) == a.1
    &&& scope_view(env.spec_targets().locals_map()) == a.2
    &&& env.spec_variables().imported_arcs() == envs.map_values(|f: FileEnvironment| f.spec_variables())
    &&& env.spec_templates().imported_arcs() == envs.map_values(|f: FileEnvironment| f.spec_templates())
    &&& env.spec_targets().imported_arcs() == envs.map_values(|f: FileEnvironment| f.spec_targets())
}

/// `env` is the shallow analysis of some text of the file at `path`.
pub open spec fn analyzed(env: FileEnvironment, path: Seq<u8>) -> bool {
    exists|text: Seq<u8>, ast: Block, envs: Seq<FileEnvironment>|
        #[trigger] parses_to(ast, text) && #[trigger] analysis_of(env, ast, path, envs)
}

/// What an import resolved to `path` contributes: the empty environment
/// (an import cycle), or a shallow analysis of that file.
pub open spec fn import_result(env: FileEnvironment, path: Seq<u8>) -> bool {
    env.wf() && (is_empty_environment(env) || analyzed(env, path))
}

/// Another handle on an analyzed environment is analyzed.
proof fn lemma_analyzed_same(a: FileEnvironment, b: FileEnvironment, path: Seq<u8>)
    requires
        same_environment(a, b),
        a.wf(),
        analyzed(b, path),
    ensures
        analyzed(a, path),
{
    let (text, ast, envs) = choose|text: Seq<u8>, ast: Block, envs: Seq<FileEnvironment>|
        #[trigger] parses_to(ast, text) && #[trigger] analysis_of(b, ast, path, envs);
    assert(analysis_of(a, ast, path, envs));
}

/// A kept analysis of the workspace at `root`: its environment is the
/// shallow analysis of its document, the environments of its imports are
/// those of the files it imports (resolved from `root` and its directory,
/// in order), and its node depends on theirs, in the same order.
pub open spec fn kept_ok(f: ShallowFile, root: Seq<u8>) -> bool {
    &&& f.environment.wf()
    &&& f.node.path@ == f.path@
    &&& exists|ast: Block, envs: Seq<FileEnvironment>|
        #[trigger] analysis_of(f.environment, ast, f.path@, envs) && parses_to(ast, f.document.bytes())
            && f.node.deps@.len() == envs.len() && forall|j: int|
            0 <= j < envs.len() ==> {
                let p = import_paths(shallow_analysis(ast, f.path@).4, root, f.path@)[j];
                &&& import_result(#[trigger] envs[j], p)
                &&& f.node.deps@[j].path@ == p
            }
}

/// Two handles on the same scopes.
pub open spec fn same_environment(a: FileEnvironment, b: FileEnvironment) -> bool {
    &&& a.spec_variables() == b.spec_variables()
    &&& a.spec_templates() == b.spec_templates()
    &&& a.spec_targets() == b.spec_targets()
}

/// `k` is the first of `files` kept for `path`.
pub open spec fn first_kept(files: Seq<ShallowFile>, path: Seq<u8>, k: int) -> bool {
    &&& 0 <= k < files.len()
    &&& files[k].path@ == path
    &&& forall|j: int| 0 <= j < k ==> #[trigger] files[j].path@ != path
}

/// None of `files` is kept for `path`.
pub open spec fn none_kept(files: Seq<ShallowFile>, path: Seq<u8>) -> bool {
    forall|j: int| 0 <= j < files.len() ==> #[trigger] files[j].path@ != path
}

/// A shallow analysis kept between requests, with the document it was made
/// of.
pub struct ShallowFile {
    pub path: Vec<u8>,
    pub document: Document,
    pub environment: FileEnvironment,
    pub node: AnalysisNode,
}

/// A file being analyzed: its syntax tree, the paths of its imports, and the
/// environments and nodes of those done so far.
struct Frame {
    path: Vec<u8>,
    document: Document,
    ast: Block,
    imports: Vec<Vec<u8>>,
    envs: Vec<FileEnvironment>,
    deps: Vec<AnalysisNode>,
}

impl Frame {
    spec fn wf(&self) -> bool {
        &&& self.imports@.len() == shallow_analysis(self.ast, self.path@).4.len()
        &&& self.envs@.len() <= self.imports@.len()
        &&& self.deps@.len() == self.envs@.len()
        &&& parses_to(self.ast, self.document.bytes())
        &&& forall|j: int|
            0 <= j < self.envs@.len() ==> (#[trigger] self.envs@[j]).wf() && import_result(
                self.envs@[j],
                self.imports@[j]@,
            ) && self.deps@[j].path@ == self.imports@[j]@
    }

    /// Its imports are resolved from `root` and its directory.
    spec fn resolved_under(&self, root: Seq<u8>) -> bool {
        forall|j: int|
            0 <= j < self.imports@.len() ==> (#[trigger] self.imports@[j])@ == import_paths(
                shallow_analysis(self.ast, self.path@).4,
                root,
                self.path@,
            )[j]
    }
}

/// One request's shallow analyses: the files being analyzed (innermost
/// last), the results found during the request, and the result asked for.
pub struct ShallowRun {
    stack: Vec<Frame>,
    snapshot: Vec<(Vec<u8>, FileEnvironment, AnalysisNode)>,
    result: Option<FileEnvironment>,
    request_time: u64,
    /// The root of the workspace whose files are being analyzed.
    root: Ghost<Seq<u8>>,
}

impl ShallowRun {
    pub closed spec fn wf(&self) -> bool {
        &&& forall|i: int| 0 <= i < self.stack@.len() ==> (#[trigger] self.stack@[i]).wf()
        &&& self.request_time + CHECK_INTERVAL <= u64::MAX
        &&& self.result matches Some(e) ==> e.wf()
        &&& self.result is Some ==> self.stack@.len() == 0
        &&& forall|i: int, j: int| 0 <= i < j < self.stack@.len() ==> #[trigger] self.stack@[i].path@ != #[trigger] self.stack@[j].path@
        &&& forall|i: int|
            0 <= i < self.stack@.len() - 1 ==> (#[trigger] self.stack@[i]).envs@.len() < self.stack@[i].imports@.len()
                && self.stack@[i + 1].path@ == self.stack@[i].imports@[self.stack@[i].envs@.len() as int]@
        &&& forall|k: int|
            0 <= k < self.snapshot@.len() ==> (#[trigger] self.snapshot@[k]).1.wf() && analyzed(
                self.snapshot@[k].1,
                self.snapshot@[k].0@,
            ) && self.snapshot@[k].2.path@ == self.snapshot@[k].0@
        &&& forall|i: int| 0 <= i < self.stack@.len() ==> (#[trigger] self.stack@[i]).resolved_under(self.root@)
    }

    /// The root of the workspace whose files the run analyzes.
    pub closed spec fn spec_root(&self) -> Seq<u8> {
        self.root@
    }

    /// The path of the next import of the innermost file, when it has one
    /// left.
    pub closed spec fn next_import(&self) -> Option<Seq<u8>> {
        if self.result is None && self.stack@.len() > 0 && self.stack@.last().envs@.len()
            < self.stack@.last().imports@.len() {
            Some(self.stack@.last().imports@[self.stack@.last().envs@.len() as int]@)
        } else {
            None
        }
    }

    /// What the innermost file's last import done came to.
    pub closed spec fn last_answer(&self) -> Option<FileEnvironment> {
        if self.stack@.len() > 0 && self.stack@.last().envs@.len() > 0 {
            Some(self.stack@.last().envs@.last())
        } else {
            None
        }
    }

    /// `p` is one of the files being analyzed.
    pub open spec fn in_progress(&self, p: Seq<u8>) -> bool {
        exists|i: int| 0 <= i < self.depth() && #[trigger] self.path_at(i) == p
    }

    /// No file is being analyzed twice: an import cycle does not recurse.
    pub open spec fn paths_distinct(&self) -> bool {
        forall|i: int, j: int| 0 <= i < j < self.depth() ==> #[trigger] self.path_at(i) != #[trigger] self.path_at(j)
    }

    /// The path of the `i`-th file being analyzed (the first is the one
    /// asked for).
    pub closed spec fn path_at(&self, i: int) -> Seq<u8> {
        self.stack@[i].path@
    }

    /// How many files are being analyzed.
    pub closed spec fn depth(&self) -> nat {
        self.stack@.len()
    }

    /// The result, once the analysis asked for is done.
    pub closed spec fn spec_result(&self) -> Option<FileEnvironment> {
        self.result
    }

    /// The time of the request the run is for.
    pub closed spec fn spec_request_time(&self) -> u64 {
        self.request_time
    }

    /// The paths of the results found during the request, in the order they
    /// were found.
    pub closed spec fn found_paths(&self) -> Seq<Seq<u8>> {
        self.snapshot@.map_values(|e: (Vec<u8>, FileEnvironment, AnalysisNode)| e.0@)
    }

    /// A run for a request made at `request_time`.
    pub fn new(request_time: u64) -> (r: ShallowRun)
        requires
            request_time + CHECK_INTERVAL <= u64::MAX,
        ensures
            r.wf(),
            r.spec_result() is None,
            r.depth() == 0,
            r.found_paths() == Seq::<Seq<u8>>::empty(),
            r.spec_request_time() == request_time,
    {
        let root: Ghost<Seq<u8>> = Ghost(Seq::empty());
        ShallowRun { stack: Vec::new(), snapshot: Vec::new(), result: None, request_time, root }
    }

    /// The result, once the analysis asked for is done.
    pub fn result(&self) -> (r: Option<&FileEnvironment>)
        ensures
            crate::ast::opt_deref(r) == self.spec_result(),
    {
        match &self.result {
            Some(e) => Some(e),
            None => None,
        }
    }

    /// Whether `path` is one of the files being analyzed.
    fn in_stack(&self, path: &[u8]) -> (r: bool)
        ensures
            r == exists|i: int| 0 <= i < self.stack@.len() && #[trigger] self.stack@[i].path@ == path@,
    {
        let mut i: usize = 0;
        while i < self.stack.len()
            invariant
                i <= self.stack@.len(),
                forall|j: int| 0 <= j < i ==> #[trigger] self.stack@[j].path@ != path@,
            decreases self.stack.len() - i,
        {
            if bytes_eq(self.stack[i].path.as_slice(), path) {
                return true;
            }
            i += 1;
        }
        false
    }

    /// The first result found during the request for `path`: its
    /// environment and a copy of its node.
    fn snapshot_get(&self, path: &[u8]) -> (r: Option<(FileEnvironment, AnalysisNode)>)
        ensures
            r matches Some(x) ==> x.0.wf(),
            r is None <==> forall|i: int| 0 <= i < self.snapshot@.len() ==> #[trigger] self.snapshot@[i].0@ != path@,
            r matches Some(x) ==> exists|i: int|
                0 <= i < self.snapshot@.len() && #[trigger] self.snapshot@[i].0@ == path@ && (forall|j: int|
                    0 <= j < i ==> self.snapshot@[j].0@ != path@) && same_environment(x.0, self.snapshot@[i].1)
                    && x.1.path@ == self.snapshot@[i].2.path@ && x.1.version == self.snapshot@[i].2.version
                    && x.1.state == self.snapshot@[i].2.state,
    {
        let mut i: usize = 0;
        while i < self.snapshot.len()
            invariant
                i <= self.snapshot@.len(),
                forall|j: int| 0 <= j < i ==> #[trigger] self.snapshot@[j].0@ != path@,
            decreases self.snapshot.len() - i,
        {
            if bytes_eq(self.snapshot[i].0.as_slice(), path) {
                return Some((self.snapshot[i].1.share(), self.snapshot[i].2.copy()));
            }
            i += 1;
        }
        None
    }
}

/// Shallow analyses kept between requests, for one workspace.
pub struct ShallowAnalyzer {
    context: WorkspaceContext,
    cache: Vec<ShallowFile>,
}

impl ShallowAnalyzer {
    /// Every analysis kept is one of the workspace's files.
    #[verifier::type_invariant]
    spec fn cache_ok(self) -> bool {
        forall|k: int| 0 <= k < self.cache@.len() ==> kept_ok(#[trigger] self.cache@[k], self.context.root@)
    }
}

/// The document of `path`: the editor's or the disk's; a file that cannot be
/// read is empty, `Missing` when it does not exist.
fn read_document(storage: &DocumentStorage, path: &[u8]) -> (r: Document)
    ensures
        r.path@ == path@,
        r.line_index@ == r.bytes(),
{
    match storage.read(path) {
        Ok(d) => d,
        Err(e) => {
            let version = if e.is_not_found() {
                DocumentVersion::Missing
            } else {
                DocumentVersion::IoError
            };
            proof {
                reveal_strlit("");
            }
            Document::new(path, "", version)
        },
    }
}

impl ShallowAnalyzer {
    pub closed spec fn spec_context(&self) -> WorkspaceContext {
        self.context
    }

    /// The analyses kept so far.
    pub closed spec fn spec_files(&self) -> Seq<ShallowFile> {
        self.cache@
    }

    /// How many files have been analyzed.
    pub open spec fn cache_len(&self) -> nat {
        self.spec_files().len()
    }

    pub fn new(context: WorkspaceContext) -> (r: ShallowAnalyzer)
        ensures
            r.spec_context() == context,
            r.cache_len() == 0,
    {
        ShallowAnalyzer { context, cache: Vec::new() }
    }

    pub fn context(&self) -> (r: &WorkspaceContext)
        ensures
            *r == self.spec_context(),
    {
        &self.context
    }

    /// Whether the analyses kept are still those of the workspace whose
    /// `.gn` file is at version `dot_gn_version`.
    pub fn serves(&self, dot_gn_version: DocumentVersion) -> (r: bool)
        ensures
            r == (self.spec_context().dot_gn_version == dot_gn_version),
    {
        self.context.dot_gn_version == dot_gn_version
    }

    /// The files analyzed so far.
    pub fn files(&self) -> (r: &Vec<ShallowFile>)
        ensures
            r@ == self.spec_files(),
    {
        &self.cache
    }

    /// The cached analysis of `path`, when it is still good at `request_time`.
    fn cached(&mut self, path: &[u8], request_time: u64, storage: &DocumentStorage) -> (r: Option<(FileEnvironment, AnalysisNode)>)
        requires
            request_time + CHECK_INTERVAL <= u64::MAX,
        ensures
            r matches Some(x) ==> x.0.wf() && analyzed(x.0, path@) && x.1.path@ == path@,
            final(self).context == old(self).context,
            none_kept(old(self).cache@, path@) ==> r is None && final(self).cache@ == old(self).cache@,
            forall|k: int| #[trigger] first_kept(old(self).cache@, path@, k) ==> {
                &&& final(self).cache@.len() == old(self).cache@.len()
                &&& forall|j: int| 0 <= j < old(self).cache@.len() && j != k ==> #[trigger] final(self).cache@[j] == old(self).cache@[j]
                &&& final(self).cache@[k].path == old(self).cache@[k].path
                &&& final(self).cache@[k].document == old(self).cache@[k].document
                &&& final(self).cache@[k].environment == old(self).cache@[k].environment
                &&& final(self).cache@[k].node.path == old(self).cache@[k].node.path
                &&& final(self).cache@[k].node.version == old(self).cache@[k].node.version
                &&& (r is Some <==> final(self).cache@[k].node.state is Fresh)
                &&& !(final(self).cache@[k].node.state is Fresh) ==> final(self).cache@[k].node.state is Stale
                &&& old(self).cache@[k].node.state is Stale ==> r is None
                &&& r matches Some(x) ==> same_environment(x.0, old(self).cache@[k].environment)
                    && x.1.path@ == old(self).cache@[k].node.path@ && x.1.version == old(self).cache@[k].node.version
            },
    {
        proof {
            use_type_invariant(&*self);
        }
        let ghost root = self.context.root@;
        let mut cache: Vec<ShallowFile> = Vec::new();
        std::mem::swap(&mut cache, &mut self.cache);
        let n = cache.len();
        let mut i: usize = 0;
        while i < n
            invariant
                n == cache@.len(),
                i <= n,
                self.context == old(self).context,
                root == self.context.root@,
                cache@ == old(self).cache@,
                self.cache@.len() == 0,
                request_time + CHECK_INTERVAL <= u64::MAX,
                forall|k: int| 0 <= k < cache@.len() ==> kept_ok(#[trigger] cache@[k], root),
                forall|j: int| 0 <= j < i ==> #[trigger] cache@[j].path@ != path@,
            decreases n - i,
        {
            if bytes_eq(cache[i].path.as_slice(), path) {
                let ghost before = cache@;
                let ok = cache[i].node.verify(request_time, storage);
                proof {
                    assert forall|k: int| #[trigger] first_kept(before, path@, k) implies k == i by {
                        if k < i {
                            assert(before[k].path@ != path@);
                        } else if k > i {
                            assert(before[i as int].path@ != path@);
                        }
                    }
                    let f = cache@[i as int];
                    let g = before[i as int];
                    assert(kept_ok(g, root));
                    let (ast, envs) = choose|ast: Block, envs: Seq<FileEnvironment>|
                        #[trigger] analysis_of(g.environment, ast, g.path@, envs) && parses_to(ast, g.document.bytes())
                            && g.node.deps@.len() == envs.len() && forall|j: int|
                            0 <= j < envs.len() ==> {
                                let p = import_paths(shallow_analysis(ast, g.path@).4, root, g.path@)[j];
                                &&& import_result(#[trigger] envs[j], p)
                                &&& g.node.deps@[j].path@ == p
                            };
                    assert(analysis_of(f.environment, ast, f.path@, envs));
                    assert forall|j: int| 0 <= j < envs.len() implies {
                        let p = import_paths(shallow_analysis(ast, f.path@).4, root, f.path@)[j];
                        &&& import_result(#[trigger] envs[j], p)
                        &&& f.node.deps@[j].path@ == p
                    } by {
                        assert(f.node.deps@[j].path == g.node.deps@[j].path);
                    }
                    assert(kept_ok(f, root));
                    assert(analyzed(f.environment, path@));
                    assert forall|k: int| 0 <= k < cache@.len() implies kept_ok(#[trigger] cache@[k], root) by {
                        if k != i {
                            assert(cache@[k] == before[k]);
                        }
                    }
                }
                let r = if ok {
                    let e = cache[i].environment.share();
                    proof {
                        lemma_analyzed_same(e, cache@[i as int].environment, path@);
                    }
                    Some((e, cache[i].node.copy()))
                } else {
                    None
                };
                self.cache = cache;
                return r;
            }
            i += 1;
        }
        self.cache = cache;
        None
    }

    /// Keeps the analysis of `file.path`, replacing an older one.
    fn keep(&mut self, file: ShallowFile)
        requires
            kept_ok(file, old(self).context.root@),
        ensures
            final(self).context == old(self).context,
            forall|k: int| #[trigger] first_kept(old(self).cache@, file.path@, k) ==> final(self).cache@ == old(
                self,
            ).cache@.update(k, file),
            none_kept(old(self).cache@, file.path@) ==> final(self).cache@ == old(self).cache@.push(file),
    {
        proof {
            use_type_invariant(&*self);
        }
        let ghost root = self.context.root@;
        let mut cache: Vec<ShallowFile> = Vec::new();
        std::mem::swap(&mut cache, &mut self.cache);
        let n = cache.len();
        let mut i: usize = 0;
        while i < n
            invariant
                n == cache@.len(),
                i <= n,
                self.context == old(self).context,
                root == self.context.root@,
                cache@ == old(self).cache@,
                self.cache@.len() == 0,
                kept_ok(file, root),
                forall|k: int| 0 <= k < cache@.len() ==> kept_ok(#[trigger] cache@[k], root),
                forall|j: int| 0 <= j < i ==> #[trigger] cache@[j].path@ != file.path@,
            decreases n - i,
        {
            if bytes_eq(cache[i].path.as_slice(), file.path.as_slice()) {
                let ghost before = cache@;
                proof {
                    assert forall|k: int| #[trigger] first_kept(before, file.path@, k) implies k == i by {
                        if k < i {
                            assert(before[k].path@ != file.path@);
                        } else if k > i {
                            assert(before[i as int].path@ != file.path@);
                        }
                    }
                }
                cache.set(i, file);
                assert forall|k: int| 0 <= k < cache@.len() implies kept_ok(#[trigger] cache@[k], root) by {
                    if k != i {
                        assert(cache@[k] == before[k]);
                    }
                }
                self.cache = cache;
                return;
            }
            i += 1;
        }
        let ghost before = cache@;
        cache.push(file);
        assert forall|k: int| 0 <= k < cache@.len() implies kept_ok(#[trigger] cache@[k], root) by {
            if k < before.len() {
                assert(cache@[k] == before[k]);
            }
        }
        self.cache = cache;
    }

    /// A frame for the file at `path`, read from `storage`.
    fn open(&self, path: &[u8], storage: &DocumentStorage) -> (r: Frame)
        ensures
            r.wf(),
            r.resolved_under(self.context.root@),
            r.envs@.len() == 0,
            r.path@ == path@,
    {
        let document = read_document(storage, path);
        let ast = parse(document.data.as_str());
        let names = shallow_imports(&ast, path);
        let ghost a4 = shallow_analysis(ast, path@).4;
        let dir = match parent(path) {
            Some(d) => d,
            None => Vec::new(),
        };
        assert(dir@ == dir_of(path@)) by {
            if spec_parent(path@) is None {
                assert(dir@ =~= Seq::<u8>::empty());
            }
        }
        let mut imports: Vec<Vec<u8>> = Vec::new();
        let mut i: usize = 0;
        while i < names.len()
            invariant
                i <= names@.len(),
                imports@.len() == i,
                names@.map_values(|v: Vec<u8>| v@) == a4,
                dir@ == dir_of(path@),
                forall|j: int| 0 <= j < i ==> (#[trigger] imports@[j])@ == import_paths(a4, self.context.root@, path@)[j],
            decreases names.len() - i,
        {
            assert(names@[i as int]@ == a4[i as int]);
            imports.push(resolve_path(names[i].as_slice(), self.context.root.as_slice(), dir.as_slice()));
            i += 1;
        }
        assert(names@.map_values(|v: Vec<u8>| v@).len() == names@.len());
        let p = copy_range(path, 0, path.len());
        assert(p@ =~= path@);
        Frame { path: p, document, ast, imports, envs: Vec::new(), deps: Vec::new() }
    }

    /// Starts the shallow analysis of `path` in `run`: taken from the run's
    /// results or the cache when they hold it, else the file is read.
    pub fn begin(&mut self, run: &mut ShallowRun, path: &[u8], storage: &DocumentStorage)
        requires
            old(run).wf(),
        ensures
            final(run).wf(),
            final(self).spec_context() == old(self).spec_context(),
            final(run).spec_root() == final(self).spec_context().root@,
            final(run).depth() <= 1,
            final(run).spec_result() is Some || (final(run).depth() == 1 && final(run).path_at(0) == path@),
            final(run).spec_result() matches Some(e) ==> analyzed(e, path@),
    {
        run.result = None;
        run.stack = Vec::new();
        let root: Ghost<Seq<u8>> = Ghost(self.context.root@);
        run.root = root;
        if let Some((env, _)) = run.snapshot_get(path) {
            proof {
                let i = choose|i: int|
                    0 <= i < run.snapshot@.len() && #[trigger] run.snapshot@[i].0@ == path@ && (forall|j: int|
                        0 <= j < i ==> run.snapshot@[j].0@ != path@) && same_environment(env, run.snapshot@[i].1);
                assert(analyzed(run.snapshot@[i].1, run.snapshot@[i].0@));
                lemma_analyzed_same(env, run.snapshot@[i].1, path@);
            }
            run.result = Some(env);
            return;
        }
        if let Some((env, node)) = self.cached(path, run.request_time, storage) {
            let p = copy_range(path, 0, path.len());
            assert(p@ =~= path@);
            let e2 = env.share();
            proof {
                lemma_analyzed_same(e2, env, path@);
            }
            let ghost before = run.snapshot@;
            run.snapshot.push((p, e2, node));
            assert forall|k: int| 0 <= k < run.snapshot@.len() implies (#[trigger] run.snapshot@[k]).1.wf() && analyzed(
                run.snapshot@[k].1,
                run.snapshot@[k].0@,
            ) && run.snapshot@[k].2.path@ == run.snapshot@[k].0@ by {
                if k < before.len() {
                    assert(run.snapshot@[k] == before[k]);
                }
            }
            run.result = Some(env);
            return;
        }
        let frame = self.open(path, storage);
        run.stack.push(frame);
        assert forall|i: int| 0 <= i < run.stack@.len() implies (#[trigger] run.stack@[i]).wf() by {}
    }

    /// One step of `run`; `true` once its result is there. A step takes the
    /// next import of the innermost file: an empty environment when that
    /// file is already being analyzed (an import cycle), a result of the
    /// request or a cached one when there is one, else the file is read and
    /// analyzed next. A file whose imports are all done is finished: its
    /// shallow environment is kept, and goes to the file that imports it,
    /// or is the result.
    pub fn step(&mut self, run: &mut ShallowRun, storage: &DocumentStorage) -> (done: bool)
        requires
            old(run).wf(),
            old(run).spec_root() == old(self).spec_context().root@,
        ensures
            final(run).wf(),
            final(run).spec_root() == old(run).spec_root(),
            final(self).spec_context() == old(self).spec_context(),
            done == (final(run).spec_result() is Some || final(run).depth() == 0),
            (old(run).spec_result() is Some || old(run).depth() == 0) ==> *final(run) == *old(run),
            final(run).spec_result() is Some ==> final(run).depth() == 0,
            final(run).paths_distinct(),
            match old(run).next_import() {
                Some(p) => if old(run).in_progress(p) {
                    final(run).depth() == old(run).depth() && (final(run).last_answer() matches Some(e)
                        && is_empty_environment(e))
                } else {
                    (final(run).depth() == old(run).depth() + 1 && final(run).path_at(old(run).depth() as int) == p) || (
                    final(run).depth() == old(run).depth() && (final(run).last_answer() matches Some(e) && analyzed(
                        e,
                        p,
                    )))
                },
                None => true,
            },
            old(run).spec_result() is None && old(run).depth() > 0 && old(run).next_import() is None
                ==> final(run).depth() == old(run).depth() - 1,
            old(run).spec_result() is None && final(run).spec_result() is Some ==> exists|k: int|
                0 <= k < final(self).spec_files().len() && (#[trigger] final(self).spec_files()[k]).path@ == old(
                    run,
                ).path_at(0) && same_environment(final(run).spec_result()->0, final(self).spec_files()[k].environment)
                    && kept_ok(final(self).spec_files()[k], final(self).spec_context().root@),
    {
        if run.result.is_some() || run.stack.len() == 0 {
            return true;
        }
        let top = run.stack.len() - 1;
        assert(run.stack@[top as int].wf());
        if run.stack[top].envs.len() < run.stack[top].imports.len() {
            self.step_import(run, storage);
            return false;
        }
        self.step_finish(run)
    }

    /// Takes the next import of the innermost file.
    #[verifier::spinoff_prover]
    #[verifier::rlimit(100)]
    fn step_import(&mut self, run: &mut ShallowRun, storage: &DocumentStorage)
        requires
            old(run).wf(),
            old(run).spec_root() == old(self).spec_context().root@,
            old(run).spec_result() is None,
            old(run).depth() > 0,
            old(run).stack@.last().envs@.len() < old(run).stack@.last().imports@.len(),
        ensures
            final(run).wf(),
            final(run).spec_root() == old(run).spec_root(),
            final(self).spec_context() == old(self).spec_context(),
            final(run).spec_result() is None,
            final(run).depth() > 0,
            final(run).paths_distinct(),
            match old(run).next_import() {
                Some(p) => if old(run).in_progress(p) {
                    final(run).depth() == old(run).depth() && (final(run).last_answer() matches Some(e)
                        && is_empty_environment(e))
                } else {
                    (final(run).depth() == old(run).depth() + 1 && final(run).path_at(old(run).depth() as int) == p) || (
                    final(run).depth() == old(run).depth() && (final(run).last_answer() matches Some(e) && analyzed(
                        e,
                        p,
                    )))
                },
                None => true,
            },
    {
        let top = run.stack.len() - 1;
        assert(run.stack@[top as int].wf());
        let k = run.stack[top].envs.len();
        let p = copy_range(run.stack[top].imports[k].as_slice(), 0, run.stack[top].imports[k].len());
        assert(p@ =~= run.stack@[top as int].imports@[k as int]@);
        assert(old(run).next_import() == Some(p@));
        let ghost on_stack = old(run).in_progress(p@);
        assert(on_stack == exists|i: int| 0 <= i < run.stack@.len() && #[trigger] run.stack@[i].path@ == p@) by {
            if on_stack {
                let i = choose|i: int| 0 <= i < old(run).depth() && #[trigger] old(run).path_at(i) == p@;
                assert(run.stack@[i].path@ == p@);
            }
            if exists|i: int| 0 <= i < run.stack@.len() && #[trigger] run.stack@[i].path@ == p@ {
                let i = choose|i: int| 0 <= i < run.stack@.len() && #[trigger] run.stack@[i].path@ == p@;
                assert(old(run).path_at(i) == p@);
            }
        }
        let found: Option<(FileEnvironment, AnalysisNode)> = if run.in_stack(p.as_slice()) {
            let q = copy_range(p.as_slice(), 0, p.len());
            assert(q@ =~= p@);
            let e = FileEnvironment::new();
            assert(is_empty_environment(e));
            Some((e, AnalysisNode::new(q, DocumentVersion::AnalysisError, Vec::new(), run.request_time)))
        } else if let Some(x) = run.snapshot_get(p.as_slice()) {
            proof {
                let i = choose|i: int|
                    0 <= i < run.snapshot@.len() && #[trigger] run.snapshot@[i].0@ == p@ && (forall|j: int|
                        0 <= j < i ==> run.snapshot@[j].0@ != p@) && same_environment(x.0, run.snapshot@[i].1)
                        && x.1.path@ == run.snapshot@[i].2.path@ && x.1.version == run.snapshot@[i].2.version
                        && x.1.state == run.snapshot@[i].2.state;
                assert(analyzed(run.snapshot@[i].1, run.snapshot@[i].0@));
                lemma_analyzed_same(x.0, run.snapshot@[i].1, p@);
            }
            Some(x)
        } else if let Some((env, node)) = self.cached(p.as_slice(), run.request_time, storage) {
            let q = copy_range(p.as_slice(), 0, p.len());
            assert(q@ =~= p@);
            let nc = node.copy();
            let e2 = env.share();
            proof {
                lemma_analyzed_same(e2, env, p@);
            }
            let ghost before = run.snapshot@;
            run.snapshot.push((q, e2, nc));
            assert forall|j: int| 0 <= j < run.snapshot@.len() implies (#[trigger] run.snapshot@[j]).1.wf() && analyzed(
                run.snapshot@[j].1,
                run.snapshot@[j].0@,
            ) && run.snapshot@[j].2.path@ == run.snapshot@[j].0@ by {
                if j < before.len() {
                    assert(run.snapshot@[j] == before[j]);
                }
            }
            Some((env, node))
        } else {
            None
        };
        match found {
            Some((env, node)) => {
                assert(import_result(env, p@));
                assert(node.path@ == p@);
                let ghost before = run.stack@;
                let mut frame = run.stack.pop().unwrap();
                assert(frame == before[top as int]);
                let ghost fe = frame.envs@;
                let ghost fd = frame.deps@;
                frame.envs.push(env);
                frame.deps.push(node);
                assert forall|j: int| 0 <= j < frame.envs@.len() implies (#[trigger] frame.envs@[j]).wf() && import_result(
                    frame.envs@[j],
                    frame.imports@[j]@,
                ) && frame.deps@[j].path@ == frame.imports@[j]@ by {
                    if j < fe.len() {
                        assert(frame.envs@[j] == fe[j]);
                        assert(frame.deps@[j] == fd[j]);
                    }
                }
                assert(frame.wf());
                assert(frame.resolved_under(run.root@));
                run.stack.push(frame);
                assert forall|i: int| 0 <= i < run.stack@.len() implies (#[trigger] run.stack@[i]).wf()
                    && run.stack@[i].resolved_under(run.root@) && run.stack@[i].path@ == before[i].path@ by {
                    if i < top {
                        assert(run.stack@[i] == before[i]);
                    }
                }
                assert forall|i: int| 0 <= i < run.stack@.len() - 1 implies (#[trigger] run.stack@[i]).envs@.len()
                    < run.stack@[i].imports@.len() && run.stack@[i + 1].path@ == run.stack@[i].imports@[run.stack@[i].envs@.len() as int]@ by {
                    assert(run.stack@[i] == before[i]);
                    assert(run.stack@[i + 1].path@ == before[i + 1].path@);
                }
                assert forall|i: int, j: int| 0 <= i < j < run.stack@.len() implies #[trigger] run.stack@[i].path@
                    != #[trigger] run.stack@[j].path@ by {
                    assert(run.stack@[i].path@ == before[i].path@);
                    assert(run.stack@[j].path@ == before[j].path@);
                }
            },
            None => {
                let frame = self.open(p.as_slice(), storage);
                let ghost before = run.stack@;
                run.stack.push(frame);
                assert forall|i: int| 0 <= i < run.stack@.len() implies (#[trigger] run.stack@[i]).wf()
                    && run.stack@[i].resolved_under(run.root@) by {
                    if i < before.len() {
                        assert(run.stack@[i] == before[i]);
                    }
                }
                assert forall|i: int| 0 <= i < run.stack@.len() - 1 implies (#[trigger] run.stack@[i]).envs@.len()
                    < run.stack@[i].imports@.len() && run.stack@[i + 1].path@ == run.stack@[i].imports@[run.stack@[i].envs@.len() as int]@ by {
                    assert(run.stack@[i] == before[i]);
                    if i + 1 < before.len() {
                        assert(run.stack@[i + 1] == before[i + 1]);
                    }
                }
                assert forall|i: int, j: int| 0 <= i < j < run.stack@.len() implies #[trigger] run.stack@[i].path@
                    != #[trigger] run.stack@[j].path@ by {
                    assert(run.stack@[i] == before[i]);
                    if j < before.len() {
                        assert(run.stack@[j] == before[j]);
                    } else {
                        assert(before[i].path@ != p@);
                    }
                }
            },
        }
    }

    /// Finishes the analysis of `frame`, whose imports are all done: its
    /// shallow environment and node, which are also kept.
    #[verifier::spinoff_prover]
    #[verifier::rlimit(60)]
    fn finish_frame(&mut self, frame: Frame, request_time: u64) -> (r: (Vec<u8>, FileEnvironment, AnalysisNode))
        requires
            frame.wf(),
            frame.resolved_under(old(self).context.root@),
            frame.envs@.len() >= frame.imports@.len(),
            request_time + CHECK_INTERVAL <= u64::MAX,
        ensures
            final(self).context == old(self).context,
            r.0@ == frame.path@,
            r.1.wf(),
            analyzed(r.1, frame.path@),
            r.2.path@ == frame.path@,
            exists|k: int|
                0 <= k < final(self).cache@.len() && (#[trigger] final(self).cache@[k]).path@ == frame.path@
                    && same_environment(r.1, final(self).cache@[k].environment) && kept_ok(
                    final(self).cache@[k],
                    final(self).context.root@,
                ),
    {
        let ghost root = self.context.root@;
        let ghost fr = frame;
        let Frame { path, document, ast, imports, envs, deps } = frame;
        let ghost a = shallow_analysis(ast, path@);
        let env = shallow_environment(&ast, path.as_slice(), &envs);
        assert(analysis_of(env, ast, path@, envs@));
        assert(parses_to(ast, document.bytes()));
        let node = AnalysisNode::new(copy_range(path.as_slice(), 0, path.len()), document.version, deps, request_time);
        assert(node.path@ =~= path@);
        let kept_env = env.share();
        let kept_node = node.copy();
        let kept_path = copy_range(path.as_slice(), 0, path.len());
        assert(kept_path@ =~= path@);
        let kept = ShallowFile { path: kept_path, document, environment: kept_env, node: kept_node };
        proof {
            assert(analysis_of(kept.environment, ast, kept.path@, envs@));
            assert(parses_to(ast, kept.document.bytes()));
            assert forall|j: int| 0 <= j < envs@.len() implies {
                let q = import_paths(shallow_analysis(ast, kept.path@).4, root, kept.path@)[j];
                &&& import_result(#[trigger] envs@[j], q)
                &&& kept.node.deps@[j].path@ == q
            } by {
                assert(fr.envs@[j] == envs@[j]);
                assert(fr.imports@[j] == imports@[j]);
                assert(imports@[j]@ == import_paths(a.4, root, path@)[j]);
                assert(import_result(fr.envs@[j], fr.imports@[j]@));
                assert(fr.deps@[j].path@ == fr.imports@[j]@);
                assert(node.deps@[j] == fr.deps@[j]);
                assert(kept.node.deps@[j].path@ == node.deps@[j].path@);
            }
            assert(kept_ok(kept, root));
            assert(analyzed(env, path@));
        }
        let ghost old_files = self.cache@;
        self.keep(kept);
        proof {
            if exists|k: int| #[trigger] first_kept(old_files, path@, k) {
                let k = choose|k: int| #[trigger] first_kept(old_files, path@, k);
                assert(self.cache@[k] == kept);
            } else {
                assert(none_kept(old_files, path@)) by {
                    assert forall|j: int| 0 <= j < old_files.len() implies #[trigger] old_files[j].path@ != path@ by {
                        if old_files[j].path@ == path@ {
                            lemma_first_kept_exists(old_files, path@, j);
                        }
                    }
                }
                assert(self.cache@[old_files.len() as int] == kept);
            }
        }
        (path, env, node)
    }

    /// Finishes the innermost file, whose imports are all done.
    #[verifier::spinoff_prover]
    #[verifier::rlimit(100)]
    fn step_finish(&mut self, run: &mut ShallowRun) -> (done: bool)
        requires
            old(run).wf(),
            old(run).spec_root() == old(self).spec_context().root@,
            old(run).spec_result() is None,
            old(run).depth() > 0,
            old(run).stack@.last().envs@.len() >= old(run).stack@.last().imports@.len(),
        ensures
            final(run).wf(),
            final(run).spec_root() == old(run).spec_root(),
            final(self).spec_context() == old(self).spec_context(),
            done == (final(run).spec_result() is Some || final(run).depth() == 0),
            final(run).spec_result() is Some ==> final(run).depth() == 0,
            final(run).depth() == old(run).depth() - 1,
            final(run).paths_distinct(),
            final(run).spec_result() is Some ==> exists|k: int|
                0 <= k < final(self).spec_files().len() && (#[trigger] final(self).spec_files()[k]).path@ == old(
                    run,
                ).path_at(0) && same_environment(final(run).spec_result()->0, final(self).spec_files()[k].environment)
                    && kept_ok(final(self).spec_files()[k], final(self).spec_context().root@),
    {
        let top = run.stack.len() - 1;
        let ghost before = run.stack@;
        let frame = run.stack.pop().unwrap();
        assert(frame == before[top as int]);
        assert(frame.wf());
        assert(frame.resolved_under(run.root@));
        proof {
            assert forall|i: int| 0 <= i < run.stack@.len() implies #[trigger] run.stack@[i] == before[i] by {}
            assert(top > 0 ==> before[top as int].path@ == before[top - 1].imports@[before[top - 1].envs@.len() as int]@);
        }
        let ghost fpath = frame.path@;
        let (path, env, node) = self.finish_frame(frame, run.request_time);
        let snap_env = env.share();
        proof {
            lemma_analyzed_same(snap_env, env, path@);
        }
        let ghost before_snap = run.snapshot@;
        let snap_node = node.copy();
        run.snapshot.push((path, snap_env, snap_node));
        assert forall|j: int| 0 <= j < run.snapshot@.len() implies (#[trigger] run.snapshot@[j]).1.wf() && analyzed(
            run.snapshot@[j].1,
            run.snapshot@[j].0@,
        ) && run.snapshot@[j].2.path@ == run.snapshot@[j].0@ by {
            if j < before_snap.len() {
                assert(run.snapshot@[j] == before_snap[j]);
            }
        }
        if run.stack.len() == 0 {
            run.result = Some(env);
            proof {
                assert(old(run).path_at(0) == fpath);
                let k = choose|k: int|
                    0 <= k < self.cache@.len() && (#[trigger] self.cache@[k]).path@ == fpath && same_environment(
                        env,
                        self.cache@[k].environment,
                    ) && kept_ok(self.cache@[k], self.context.root@);
                assert(self.spec_files()[k] == self.cache@[k]);
                assert(run.spec_result()->0 == env);
            }
            return true;
        }
        run.attach(env, node, Ghost(fpath));
        false
    }
}

impl ShallowRun {
    /// Hands the environment and node of a finished file to the file that
    /// imports it, the innermost one left.
    #[verifier::spinoff_prover]
    fn attach(&mut self, env: FileEnvironment, node: AnalysisNode, Ghost(path): Ghost<Seq<u8>>)
        requires
            old(self).wf(),
            old(self).stack@.len() > 0,
            old(self).stack@.last().envs@.len() < old(self).stack@.last().imports@.len(),
            old(self).stack@.last().imports@[old(self).stack@.last().envs@.len() as int]@ == path,
            import_result(env, path),
            node.path@ == path,
        ensures
            final(self).wf(),
            final(self).root == old(self).root,
            final(self).result == old(self).result,
            final(self).stack@.len() == old(self).stack@.len(),
            final(self).paths_distinct(),
    {
        let ghost before = self.stack@;
        let last = self.stack.len() - 1;
        let mut parent_frame = self.stack.pop().unwrap();
        assert(parent_frame == before[last as int]);
        let ghost fe = parent_frame.envs@;
        let ghost fd = parent_frame.deps@;
        parent_frame.envs.push(env);
        parent_frame.deps.push(node);
        assert forall|j: int| 0 <= j < parent_frame.envs@.len() implies (#[trigger] parent_frame.envs@[j]).wf()
            && import_result(parent_frame.envs@[j], parent_frame.imports@[j]@) && parent_frame.deps@[j].path@
            == parent_frame.imports@[j]@ by {
            if j < fe.len() {
                assert(parent_frame.envs@[j] == fe[j]);
                assert(parent_frame.deps@[j] == fd[j]);
            }
        }
        assert(parent_frame.wf());
        assert(parent_frame.resolved_under(self.root@));
        self.stack.push(parent_frame);
        assert forall|i: int| 0 <= i < self.stack@.len() implies (#[trigger] self.stack@[i]).wf()
            && self.stack@[i].resolved_under(self.root@) && self.stack@[i].path@ == before[i].path@ by {
            if i < last {
                assert(self.stack@[i] == before[i]);
            }
        }
        assert forall|i: int| 0 <= i < self.stack@.len() - 1 implies (#[trigger] self.stack@[i]).envs@.len()
            < self.stack@[i].imports@.len() && self.stack@[i + 1].path@ == self.stack@[i].imports@[self.stack@[i].envs@.len() as int]@ by {
            assert(self.stack@[i] == before[i]);
            assert(self.stack@[i + 1].path@ == before[i + 1].path@);
        }
        assert forall|i: int, j: int| 0 <= i < j < self.stack@.len() implies #[trigger] self.stack@[i].path@
            != #[trigger] self.stack@[j].path@ by {
            assert(self.stack@[i].path@ == before[i].path@);
            assert(self.stack@[j].path@ == before[j].path@);
        }
    }
}

/// Where some file is kept for `path`, a first one is.
proof fn lemma_first_kept_exists(files: Seq<ShallowFile>, path: Seq<u8>, j: int)
    requires
        0 <= j < files.len(),
        files[j].path@ == path,
    ensures
        exists|k: int| #[trigger] first_kept(files, path, k),
    decreases j,
{
    if exists|i: int| 0 <= i < j && #[trigger] files[i].path@ == path {
        let i = choose|i: int| 0 <= i < j && #[trigger] files[i].path@ == path;
        lemma_first_kept_exists(files, path, i);
    } else {
        assert(first_kept(files, path, j));
    }
}

} // verus!
