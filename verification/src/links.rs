//! Links from strings of a file to files and targets.

use vstd::prelude::*;

use crate::ast::{Block, Span};
use crate::util::{contains_byte, is_simple_literal, COLON, DOT, SLASH};
use crate::walk::found_in_block;
use crate::workspace::{
    copy_range, double_slash, join, parent, spec_join, spec_parent, spec_resolve_path, starts_with,
    WorkspaceContext,
};

verus! {

/// `BUILD.gn`
pub open spec fn build_gn() -> Seq<u8> {
    seq![66u8, 85u8, 73u8, 76u8, 68u8, 46u8, 103u8, 110u8]
}

/// Where a string of a file may lead.
#[derive(Debug)]
pub enum AnalyzedLink {
    /// An existing file.
    File { path: Vec<u8>, span: Span },
    /// A target named `name` in the `BUILD.gn` file at `path`.
    Target { path: Vec<u8>, name: Vec<u8>, span: Span },
}

impl AnalyzedLink {
    pub open spec fn spec_span(&self) -> Span {
        match self {
            AnalyzedLink::File { span, .. } => *span,
            AnalyzedLink::Target { span, .. } => *span,
        }
    }

    pub fn span(&self) -> (r: Span)
        ensures
            r == self.spec_span(),
    {
        match self {
            AnalyzedLink::File { span, .. } => *span,
            AnalyzedLink::Target { span, .. } => *span,
        }
    }
}

/// Index of the first `:` in `s`.
pub open spec fn first_colon(s: Seq<u8>) -> Option<int>
    decreases s.len(),
{
    if s.len() == 0 {
        None
    } else if s[0] == COLON {
        Some(0)
    } else {
        match first_colon(s.drop_first()) {
            Some(i) => Some(i + 1),
            None => None,
        }
    }
}

/// The last `/`-separated part of `s`.
pub open spec fn last_part(s: Seq<u8>) -> Seq<u8> {
    match crate::workspace::last_slash(s, s.len() as int) {
        Some(i) => s.skip(i + 1),
        None => s,
    }
}

/// What a label may stand for, before the file system is asked.
pub enum TargetCandidate {
    /// Nothing.
    Nothing,
    /// The target `name` of the `BUILD.gn` file at `path`.
    Found { path: Seq<u8>, name: Seq<u8> },
    /// The same, when a `BUILD.gn` file exists at `path`.
    IfExists { path: Seq<u8>, name: Seq<u8> },
}

/// What a label stands for: `//dir:name` and `dir:name` name target `name` in
/// `dir/BUILD.gn` (relative to the root, or to the directory of
/// `current_path`, where the file must exist); `//dir/sub` names target
/// `sub` of `//dir/sub/BUILD.gn`.
pub open spec fn spec_resolve_target(label: Seq<u8>, current_path: Seq<u8>, root: Seq<u8>) -> TargetCandidate {
    match first_colon(label) {
        Some(i) => {
            let prefix = label.take(i);
            let name = label.skip(i + 1);
            if starts_with(prefix, double_slash()) {
                TargetCandidate::Found { path: spec_join(spec_join(root, prefix.skip(2)), build_gn()), name }
            } else {
                TargetCandidate::IfExists {
                    path: spec_join(spec_join(spec_parent(current_path).unwrap(), prefix), build_gn()),
                    name,
                }
            }
        },
        None => if starts_with(label, double_slash()) && label.len() > 2 {
            let rel = label.skip(2);
            TargetCandidate::Found { path: spec_join(spec_join(root, rel), build_gn()), name: last_part(rel) }
        } else {
            TargetCandidate::Nothing
        },
    }
}

/// The string at `span` with content `content` links to a file: it holds a
/// `.` and no `:`.
pub open spec fn names_file(content: Seq<u8>) -> bool {
    !contains_byte(content, COLON) && contains_byte(content, DOT)
}

/// The string always makes a link: a label naming a target by a
/// source-absolute path.
pub open spec fn always_links(content: Seq<u8>, path: Seq<u8>, root: Seq<u8>) -> bool {
    is_simple_literal(content) && !names_file(content) && spec_resolve_target(content, path, root) is Found
}

/// A link found for the string `content` at `span` of the file at `path` is
/// one the string may make.
pub open spec fn link_fits(link: AnalyzedLink, content: Seq<u8>, span: Span, path: Seq<u8>, root: Seq<u8>) -> bool {
    is_simple_literal(content) && link.spec_span() == span && if names_file(content) {
        link matches AnalyzedLink::File { path: p, .. } && p@ == spec_resolve_path(
            content,
            root,
            spec_parent(path).unwrap(),
        )
    } else {
        link matches AnalyzedLink::Target { path: p, name: n, .. } && match spec_resolve_target(content, path, root) {
            TargetCandidate::Found { path: q, name: m } => p@ == q && n@ == m,
            TargetCandidate::IfExists { path: q, name: m } => p@ == q && n@ == m,
            TargetCandidate::Nothing => false,
        }
    }
}

fn find_colon(s: &[u8]) -> (r: Option<usize>)
    ensures
        match r {
            Some(i) => first_colon(s@) == Some(i as int) && i < s@.len(),
            None => first_colon(s@) is None,
        },
{
    let mut i: usize = 0;
    while i < s.len()
        invariant
            i <= s@.len(),
            forall|j: int| 0 <= j < i ==> s@[j] != COLON,
        decreases s.len() - i,
    {
        if s[i] == COLON {
            proof {
                lemma_first_colon(s@, i as int);
            }
            return Some(i);
        }
        i += 1;
    }
    proof {
        lemma_first_colon(s@, s@.len() as int);
    }
    None
}

proof fn lemma_first_colon(s: Seq<u8>, i: int)
    requires
        0 <= i <= s.len(),
        forall|j: int| 0 <= j < i ==> s[j] != COLON,
    ensures
        i < s.len() && s[i] == COLON ==> first_colon(s) == Some(i),
        i == s.len() ==> first_colon(s) is None,
    decreases s.len(),
{
    if s.len() > 0 && i > 0 {
        let t = s.drop_first();
        assert forall|j: int| 0 <= j < i - 1 implies t[j] != COLON by {
            assert(t[j] == s[j + 1]);
        }
        lemma_first_colon(t, i - 1);
        if i < s.len() {
            assert(t[i - 1] == s[i]);
        }
    }
}

/// A source-absolute label without `:` names the target after its last `/`:
/// the name holds no `/`, and it is the whole path after `//` or the part of
/// it that follows a `/`.
pub proof fn lemma_absolute_label_names_last_part(label: Seq<u8>, current_path: Seq<u8>, root: Seq<u8>)
    requires
        starts_with(label, double_slash()),
        label.len() > 2,
        !contains_byte(label, COLON),
    ensures
        match spec_resolve_target(label, current_path, root) {
            TargetCandidate::Found { path, name } => {
                let rel = label.skip(2);
                &&& path == spec_join(spec_join(root, rel), build_gn())
                &&& !contains_byte(name, SLASH)
                &&& name.len() <= rel.len()
                &&& name == rel.skip(rel.len() - name.len())
                &&& (name.len() == rel.len() || rel[rel.len() - name.len() - 1] == SLASH)
            },
            _ => false,
        },
{
    lemma_first_colon(label, label.len() as int);
    let rel = label.skip(2);
    crate::workspace::lemma_last_slash(rel, rel.len() as int);
    let name = last_part(rel);
    match crate::workspace::last_slash(rel, rel.len() as int) {
        Some(i) => {
            assert forall|j: int| 0 <= j < name.len() implies name[j] != SLASH by {
                assert(name[j] == rel[i + 1 + j]);
            }
            assert(name =~= rel.skip(rel.len() - name.len()));
        },
        None => {
            assert(name =~= rel.skip(rel.len() - name.len()));
        },
    }
}

/// A label with a `:` names the target after its first `:`, declared in the
/// `BUILD.gn` file of the directory before it.
pub proof fn lemma_colon_label_names_after_colon(label: Seq<u8>, current_path: Seq<u8>, root: Seq<u8>, i: int)
    requires
        0 <= i < label.len(),
        label[i] == COLON,
        forall|j: int| 0 <= j < i ==> label[j] != COLON,
    ensures
        match spec_resolve_target(label, current_path, root) {
            TargetCandidate::Found { path, name } => name == label.skip(i + 1) && starts_with(label.take(i), double_slash())
                && path == spec_join(spec_join(root, label.take(i).skip(2)), build_gn()),
            TargetCandidate::IfExists { path, name } => name == label.skip(i + 1) && !starts_with(label.take(i), double_slash())
                && path == spec_join(spec_join(spec_parent(current_path).unwrap(), label.take(i)), build_gn()),
            TargetCandidate::Nothing => false,
        },
{
    lemma_first_colon(label, i);
}

fn last_part_exec(s: &[u8]) -> (r: Vec<u8>)
    ensures
        r@ == last_part(s@),
{
    let mut i = s.len();
    while i > 0 && s[i - 1] != SLASH
        invariant
            i <= s@.len(),
            crate::workspace::last_slash(s@, i as int) == crate::workspace::last_slash(s@, s@.len() as int),
        decreases i,
    {
        i -= 1;
    }
    if i == 0 {
        assert(s@.subrange(0, s@.len() as int) =~= s@);
        copy_range(s, 0, s.len())
    } else {
        let r = copy_range(s, i, s.len());
        assert(r@ =~= s@.skip(i as int));
        r
    }
}

/// What `label`, written in the file at `current_path`, stands for; the
/// `BUILD.gn` files of relative labels must exist.
fn resolve_target(label: &[u8], current_path: &[u8], workspace: &WorkspaceContext) -> (r: Option<(Vec<u8>, Vec<u8>)>)
    requires
        spec_parent(current_path@) is Some,
    ensures
        match spec_resolve_target(label@, current_path@, workspace.root@) {
            TargetCandidate::Nothing => r is None,
            TargetCandidate::Found { path, name } => r matches Some(x) && x.0@ == path && x.1@ == name,
            TargetCandidate::IfExists { path, name } => r matches Some(x) ==> x.0@ == path && x.1@ == name,
        },
{
    let build: &[u8] = &[66u8, 85u8, 73u8, 76u8, 68u8, 46u8, 103u8, 110u8];
    assert(build@ =~= build_gn());
    let label_len = label.len();
    match find_colon(label) {
        Some(i) => {
            assert(i < label_len);
            let prefix = copy_range(label, 0, i);
            let name = copy_range(label, i + 1, label.len());
            assert(prefix@ =~= label@.take(i as int));
            assert(name@ =~= label@.skip(i + 1));
            if prefix.len() >= 2 && prefix[0] == SLASH && prefix[1] == SLASH {
                assert(starts_with(prefix@, double_slash())) by {
                    assert(prefix@.subrange(0, 2) =~= double_slash());
                }
                let rel = copy_range(prefix.as_slice(), 2, prefix.len());
                assert(rel@ =~= prefix@.skip(2));
                let dir = join(workspace.root.as_slice(), rel.as_slice());
                Some((join(dir.as_slice(), build), name))
            } else {
                assert(!starts_with(prefix@, double_slash())) by {
                    if starts_with(prefix@, double_slash()) {
                        assert(prefix@.subrange(0, 2)[0] == SLASH);
                        assert(prefix@.subrange(0, 2)[1] == SLASH);
                    }
                }
                let current_dir = match parent(current_path) {
                    Some(d) => d,
                    None => return None,
                };
                let dir = join(current_dir.as_slice(), prefix.as_slice());
                let build_path = join(dir.as_slice(), build);
                if crate::workspace::path_exists(build_path.as_slice()) {
                    Some((build_path, name))
                } else {
                    None
                }
            }
        },
        None => {
            if label.len() > 2 && label[0] == SLASH && label[1] == SLASH {
                assert(starts_with(label@, double_slash())) by {
                    assert(label@.subrange(0, 2) =~= double_slash());
                }
                let rel = copy_range(label, 2, label.len());
                assert(rel@ =~= label@.skip(2));
                let dir = join(workspace.root.as_slice(), rel.as_slice());
                Some((join(dir.as_slice(), build), last_part_exec(rel.as_slice())))
            } else {
                assert(!(starts_with(label@, double_slash()) && label@.len() > 2)) by {
                    if starts_with(label@, double_slash()) && label@.len() > 2 {
                        assert(label@.subrange(0, 2)[0] == SLASH);
                        assert(label@.subrange(0, 2)[1] == SLASH);
                    }
                }
                None
            }
        },
    }
}

/// The links `links` of the file at `path` whose syntax tree is `ast`, in
/// the workspace at `root`: each made by one string, in the order of the
/// strings, and fitting it; every string that always makes a link made one.
pub open spec fn links_of(links: Seq<AnalyzedLink>, ast: Block, path: Seq<u8>, root: Seq<u8>) -> bool {
    let strings = found_in_block(ast).1;
    exists|picked: Seq<int>|
        #![trigger picked.len()]
        picked.len() == links.len() && (forall|k: int| 0 <= k < picked.len() ==> 0 <= #[trigger] picked[k] < strings.len())
            && (forall|k: int, l: int| 0 <= k < l < picked.len() ==> picked[k] < picked[l])
            && (forall|k: int|
            #![trigger picked[k]]
            0 <= k < picked.len() ==> link_fits(
                links[k],
                strings[picked[k]].raw_value@,
                strings[picked[k]].span,
                path,
                root,
            )) && (forall|j: int|
            0 <= j < strings.len() && #[trigger] always_links(strings[j].raw_value@, path, root) ==> exists|k: int|
                0 <= k < picked.len() && picked[k] == j)
}

/// The links that the strings of `ast`, the syntax tree of the file at
/// `path`, make, in the order of the strings: a simple string with a `.` and
/// no `:` links to the file it names when that file exists; another one
/// links to the target its label stands for (a relative label only when the
/// `BUILD.gn` file exists). Every link fits its string, and strings are
/// taken in order, each making at most one link; a source-absolute label
/// always makes one.
pub fn collect_links(ast: &Block, path: &[u8], workspace: &WorkspaceContext) -> (r: Vec<AnalyzedLink>)
    requires
        spec_parent(path@) is Some,
    ensures
        links_of(r@, *ast, path@, workspace.root@),
{
    let strings = ast.strings();
    let ghost all = found_in_block(*ast).1;
    let current_dir = match parent(path) {
        Some(d) => d,
        None => return Vec::new(),
    };
    let mut out: Vec<AnalyzedLink> = Vec::new();
    let ghost mut picked: Seq<int> = seq![];
    let mut i: usize = 0;
    while i < strings.len()
        invariant
            i <= strings@.len(),
            crate::ast::derefs(strings@) == all,
            all == found_in_block(*ast).1,
            spec_parent(path@) == Some(current_dir@),
            picked.len() == out@.len(),
            forall|k: int| 0 <= k < picked.len() ==> 0 <= #[trigger] picked[k] < i,
            forall|k: int, l: int| 0 <= k < l < picked.len() ==> picked[k] < picked[l],
            forall|k: int| #![trigger picked[k]]
                0 <= k < picked.len() ==> link_fits(
                    out@[k],
                    all[picked[k]].raw_value@,
                    all[picked[k]].span,
                    path@,
                    workspace.root@,
                ),
            forall|j: int| 0 <= j < i && #[trigger] always_links(all[j].raw_value@, path@, workspace.root@)
                ==> exists|k: int| 0 <= k < picked.len() && picked[k] == j,
        decreases strings.len() - i,
    {
        let s = strings[i];
        assert(*s == all[i as int]);
        if let Some(content) = crate::util::parse_simple_literal(s.raw_value.as_slice()) {
            let has_colon = crate::util::contains_byte_exec(content, COLON);
            let has_dot = crate::util::contains_byte_exec(content, DOT);
            let mut made: Option<AnalyzedLink> = None;
            if !has_colon && has_dot {
                let target = workspace.resolve_path(content, current_dir.as_slice());
                if matches!(crate::workspace::try_exists(target.as_slice()), Ok(true)) {
                    made = Some(AnalyzedLink::File { path: target, span: s.span });
                }
            } else {
                match resolve_target(content, path, workspace) {
                    Some((p, n)) => {
                        made = Some(AnalyzedLink::Target { path: p, name: n, span: s.span });
                    },
                    None => {},
                }
            }
            match made {
                Some(link) => {
                    let ghost before = out@;
                    out.push(link);
                    proof {
                        let old_picked = picked;
                        picked = picked.push(i as int);
                        assert forall|j: int| 0 <= j < i + 1 && #[trigger] always_links(
                            all[j].raw_value@,
                            path@,
                            workspace.root@,
                        ) implies exists|k: int| 0 <= k < picked.len() && picked[k] == j by {
                            if j < i {
                                let w = choose|k: int| 0 <= k < old_picked.len() && old_picked[k] == j;
                                assert(picked[w] == j);
                            } else {
                                assert(picked[old_picked.len() as int] == j);
                            }
                        }
                        assert forall|k: int| #![trigger picked[k]]
                            0 <= k < picked.len() implies link_fits(
                            out@[k],
                            all[picked[k]].raw_value@,
                            all[picked[k]].span,
                            path@,
                            workspace.root@,
                        ) by {
                            if k < old_picked.len() {
                                assert(out@[k] == before[k]);
                                assert(picked[k] == old_picked[k]);
                            }
                        }
                    }
                },
                None => {
                    assert(!always_links(all[i as int].raw_value@, path@, workspace.root@));
                },
            }
        } else {
            assert(!always_links(all[i as int].raw_value@, path@, workspace.root@));
        }
        i += 1;
    }
    assert(picked.len() == out@.len());
    out
}

} // verus!
