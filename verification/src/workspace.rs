//! Paths (as UTF-8 bytes with `/` separators), source-absolute names
//! (`//dir/file`), and the workspace a file belongs to (the nearest directory
//! holding a `.gn` file).

use vstd::prelude::*;

use crate::error::{Error, IoErrorKind};
use crate::storage::DocumentVersion;
use crate::util::SLASH;

verus! {

pub open spec fn starts_with(s: Seq<u8>, p: Seq<u8>) -> bool {
    p.len() <= s.len() && s.subrange(0, p.len() as int) == p
}

/// `//`
pub open spec fn double_slash() -> Seq<u8> {
    seq![SLASH, SLASH]
}

/// `.gn`
pub open spec fn dot_gn() -> Seq<u8> {
    seq![46u8, 103u8, 110u8]
}

/// Joins two paths as `Path::join` does: an absolute `b` replaces `a`.
pub open spec fn spec_join(a: Seq<u8>, b: Seq<u8>) -> Seq<u8> {
    if b.len() > 0 && b[0] == SLASH {
        b
    } else if a.len() == 0 {
        b
    } else if a.last() == SLASH {
        a + b
    } else {
        a + seq![SLASH] + b
    }
}

/// Resolves a name written in a GN file: `//x` is relative to the workspace
/// root, anything else to the directory of the file.
pub open spec fn spec_resolve_path(name: Seq<u8>, root_dir: Seq<u8>, current_dir: Seq<u8>) -> Seq<u8> {
    if starts_with(name, double_slash()) {
        spec_join(root_dir, name.skip(2))
    } else {
        spec_join(current_dir, name)
    }
}

/// `path` relative to `root` when `root` is one of its leading components.
pub open spec fn spec_strip_prefix(path: Seq<u8>, root: Seq<u8>) -> Option<Seq<u8>> {
    if !starts_with(path, root) {
        None
    } else if path.len() == root.len() {
        Some(seq![])
    } else if path[root.len() as int] == SLASH || (root.len() > 0 && root.last() == SLASH) {
        Some(path.skip(slash_run_end(path, root.len() as int)))
    } else {
        None
    }
}

/// The end of the run of `/` that starts at `i` (separators between path
/// components count as one).
pub open spec fn slash_run_end(s: Seq<u8>, i: int) -> int
    decreases s.len() - i,
{
    if 0 <= i < s.len() && s[i] == SLASH {
        slash_run_end(s, i + 1)
    } else {
        i
    }
}

/// A path inside the workspace as `//relative/path`; other paths unchanged.
pub open spec fn spec_format_path(path: Seq<u8>, root: Seq<u8>) -> Seq<u8> {
    match spec_strip_prefix(path, root) {
        Some(rel) => double_slash() + rel,
        None => path,
    }
}

/// Index of the last `/` in `s[..end]`.
pub open spec fn last_slash(s: Seq<u8>, end: int) -> Option<int>
    decreases end,
{
    if end <= 0 {
        None
    } else if s[end - 1] == SLASH {
        Some(end - 1)
    } else {
        last_slash(s, end - 1)
    }
}

/// The parent directory, as `Path::parent`: `None` for the root and the empty path.
pub open spec fn spec_parent(path: Seq<u8>) -> Option<Seq<u8>> {
    let n = trimmed_len(path);
    if n == 0 || (n == 1 && path[0] == SLASH) {
        None
    } else {
        match last_slash(path, n) {
            None => Some(seq![]),
            Some(i) => if i == 0 {
                Some(seq![SLASH])
            } else {
                Some(path.take(i))
            },
        }
    }
}

/// Length without trailing slashes (a lone `/` is kept).
pub open spec fn trimmed_len(path: Seq<u8>) -> int
    decreases path.len(),
{
    if path.len() > 1 && path.last() == SLASH {
        trimmed_len(path.drop_last())
    } else {
        path.len() as int
    }
}

/// `dir` is a strict ancestor of `path`.
pub open spec fn is_proper_ancestor(dir: Seq<u8>, path: Seq<u8>) -> bool
    decreases path.len(),
{
    match spec_parent(path) {
        Some(p) => if p.len() < path.len() {
            p == dir || is_proper_ancestor(dir, p)
        } else {
            false
        },
        None => false,
    }
}

/// Whether `s` starts with `p`.
pub fn starts_with_exec(s: &[u8], p: &[u8]) -> (r: bool)
    ensures
        r == starts_with(s@, p@),
{
    if p.len() > s.len() {
        return false;
    }
    let mut i: usize = 0;
    while i < p.len()
        invariant
            p@.len() <= s@.len(),
            i <= p@.len(),
            forall|j: int| 0 <= j < i ==> s@[j] == p@[j],
        decreases p.len() - i,
    {
        if s[i] != p[i] {
            assert(s@.subrange(0, p@.len() as int)[i as int] != p@[i as int]);
            return false;
        }
        i += 1;
    }
    assert(s@.subrange(0, p@.len() as int) =~= p@);
    true
}

/// Copy of `s[a..b]`.
pub fn copy_range(s: &[u8], a: usize, b: usize) -> (r: Vec<u8>)
    requires
        a <= b <= s@.len(),
    ensures
        r@ == s@.subrange(a as int, b as int),
{
    let mut out: Vec<u8> = Vec::new();
    let mut i = a;
    while i < b
        invariant
            a <= i <= b <= s@.len(),
            out@ == s@.subrange(a as int, i as int),
        decreases b - i,
    {
        out.push(s[i]);
        i += 1;
        assert(out@ =~= s@.subrange(a as int, i as int));
    }
    out
}

/// Appends `s` to `out`.
pub fn append_bytes(out: &mut Vec<u8>, s: &[u8])
    ensures
        final(out)@ == old(out)@ + s@,
{
    let ghost before = out@;
    let mut i: usize = 0;
    while i < s.len()
        invariant
            i <= s@.len(),
            out@ == before + s@.take(i as int),
        decreases s.len() - i,
    {
        out.push(s[i]);
        i += 1;
        assert(out@ =~= before + s@.take(i as int));
    }
    assert(s@.take(s@.len() as int) =~= s@);
}

/// Joins two paths as `Path::join` does.
pub fn join(a: &[u8], b: &[u8]) -> (r: Vec<u8>)
    ensures
        r@ == spec_join(a@, b@),
{
    if b.len() > 0 && b[0] == SLASH {
        return copy_range(b, 0, b.len());
    }
    let mut out = copy_range(a, 0, a.len());
    if a.len() > 0 && a[a.len() - 1] != SLASH {
        out.push(SLASH);
    }
    append_bytes(&mut out, b);
    assert(a@.subrange(0, a@.len() as int) =~= a@);
    assert(b@.subrange(0, b@.len() as int) =~= b@);
    out
}

/// Resolves `name` (source-absolute `//x` or relative) against the workspace
/// root or the current directory.
pub fn resolve_path(name: &[u8], root_dir: &[u8], current_dir: &[u8]) -> (r: Vec<u8>)
    ensures
        r@ == spec_resolve_path(name@, root_dir@, current_dir@),
{
    if starts_with_exec(name, &[SLASH, SLASH]) {
        let rest = copy_range(name, 2, name.len());
        assert(rest@ =~= name@.skip(2));
        join(root_dir, rest.as_slice())
    } else {
        join(current_dir, name)
    }
}

/// `path` relative to `root`, when `root` is a leading part of it.
pub fn strip_prefix(path: &[u8], root: &[u8]) -> (r: Option<Vec<u8>>)
    ensures
        match r {
            Some(v) => spec_strip_prefix(path@, root@) == Some(v@),
            None => spec_strip_prefix(path@, root@) is None,
        },
{
    if !starts_with_exec(path, root) {
        return None;
    }
    if path.len() == root.len() {
        return Some(Vec::new());
    }
    if path[root.len()] == SLASH || (root.len() > 0 && root[root.len() - 1] == SLASH) {
        let mut k = root.len();
        while k < path.len() && path[k] == SLASH
            invariant
                root@.len() <= k <= path@.len(),
                slash_run_end(path@, k as int) == slash_run_end(path@, root@.len() as int),
            decreases path.len() - k,
        {
            k += 1;
        }
        let r = copy_range(path, k, path.len());
        assert(r@ =~= path@.skip(k as int));
        return Some(r);
    }
    None
}

/// Formats a path for display: `//relative` inside the workspace, else as is.
pub fn format_path(path: &[u8], workspace_root: &[u8]) -> (r: Vec<u8>)
    ensures
        r@ == spec_format_path(path@, workspace_root@),
{
    match strip_prefix(path, workspace_root) {
        Some(rel) => {
            let mut out: Vec<u8> = Vec::new();
            out.push(SLASH);
            out.push(SLASH);
            append_bytes(&mut out, rel.as_slice());
            assert(out@ =~= double_slash() + rel@);
            out
        },
        None => copy_range(path, 0, path.len()),
    }
}

proof fn lemma_trimmed_len(path: Seq<u8>)
    ensures
        0 <= trimmed_len(path) <= path.len(),
        path.len() > 0 ==> trimmed_len(path) > 0,
        forall|k: int| 0 <= k < trimmed_len(path) ==> path.take(trimmed_len(path))[k] == path[k],
    decreases path.len(),
{
    if path.len() > 1 && path.last() == SLASH {
        lemma_trimmed_len(path.drop_last());
    }
}

pub(crate) proof fn lemma_last_slash(s: Seq<u8>, end: int)
    requires
        0 <= end <= s.len(),
    ensures
        last_slash(s, end) matches Some(i) ==> 0 <= i < end && s[i] == SLASH,
        last_slash(s, end) matches Some(i) ==> forall|j: int| i < j < end ==> s[j] != SLASH,
        last_slash(s, end) is None ==> forall|j: int| 0 <= j < end ==> s[j] != SLASH,
    decreases end,
{
    if end > 0 && s[end - 1] != SLASH {
        lemma_last_slash(s, end - 1);
    }
}

/// The parent directory of `path`, as `Path::parent` gives it.
pub fn parent(path: &[u8]) -> (r: Option<Vec<u8>>)
    ensures
        match r {
            Some(v) => spec_parent(path@) == Some(v@) && v@.len() < path@.len(),
            None => spec_parent(path@) is None,
        },
{
    proof {
        lemma_trimmed_len(path@);
    }
    let mut n = path.len();
    assert(path@.take(n as int) =~= path@);
    while n > 1 && path[n - 1] == SLASH
        invariant
            n <= path@.len(),
            trimmed_len(path@.take(n as int)) == trimmed_len(path@),
        decreases n,
    {
        assert(path@.take(n as int).drop_last() =~= path@.take(n - 1));
        n -= 1;
    }
    assert(path@.take(n as int).len() == n);
    assert(n == trimmed_len(path@)) by {
        if n > 1 {
            assert(path@.take(n as int).last() != SLASH);
        }
    }
    if n == 0 || (n == 1 && path[0] == SLASH) {
        return None;
    }
    let mut i = n;
    while i > 0 && path[i - 1] != SLASH
        invariant
            i <= n <= path@.len(),
            last_slash(path@, i as int) == last_slash(path@, n as int),
        decreases i,
    {
        i -= 1;
    }
    if i == 0 {
        Some(Vec::new())
    } else if i == 1 {
        let mut v: Vec<u8> = Vec::new();
        v.push(SLASH);
        assert(v@ =~= seq![SLASH]);
        Some(v)
    } else {
        let v = copy_range(path, 0, i - 1);
        assert(v@ =~= path@.take(i - 1));
        Some(v)
    }
}

/// Whether a file exists at `path` (as `Path::try_exists`). What comes back
/// depends on the file system; nothing is claimed of it.
#[verifier::external_body]
pub(crate) fn try_exists(path: &[u8]) -> (r: Result<bool, IoErrorKind>) {
    match std::path::Path::new(&*String::from_utf8_lossy(path)).try_exists() {
        Ok(b) => Ok(b),
        Err(e) => Err(match e.kind() {
            std::io::ErrorKind::NotFound => IoErrorKind::NotFound,
            std::io::ErrorKind::InvalidData => IoErrorKind::InvalidData,
            _ => IoErrorKind::Other,
        }),
    }
}

/// `Path must be absolute`
pub open spec fn must_be_absolute() -> Seq<u8> {
    seq![80u8, 97u8, 116u8, 104u8, 32u8, 109u8, 117u8, 115u8, 116u8, 32u8, 98u8, 101u8, 32u8, 97u8, 98u8, 115u8,
        111u8, 108u8, 117u8, 116u8, 101u8]
}

/// Only absolute paths are analyzed: an error saying so for another one.
pub fn require_absolute(path: &[u8]) -> (r: Result<(), Error>)
    ensures
        r is Ok <==> (path@.len() > 0 && path@[0] == SLASH),
        r matches Err(e) ==> e matches Error::General(m) && m@ == must_be_absolute(),
{
    if path.len() > 0 && path[0] == SLASH {
        Ok(())
    } else {
        let m: Vec<u8> = vec![80u8, 97u8, 116u8, 104u8, 32u8, 109u8, 117u8, 115u8, 116u8, 32u8, 98u8, 101u8, 32u8, 97u8,
            98u8, 115u8, 111u8, 108u8, 117u8, 116u8, 101u8];
        assert(m@ =~= must_be_absolute());
        Err(Error::General(m))
    }
}

/// The strict ancestors of `path`, nearest first.
pub open spec fn proper_ancestors(path: Seq<u8>) -> Seq<Seq<u8>>
    decreases path.len(),
{
    match spec_parent(path) {
        Some(p) => if p.len() < path.len() {
            seq![p] + proper_ancestors(p)
        } else {
            seq![]
        },
        None => seq![],
    }
}

/// `path` and its ancestors, nearest first.
pub open spec fn ancestors_or_self(path: Seq<u8>) -> Seq<Seq<u8>> {
    seq![path] + proper_ancestors(path)
}

/// The search for a workspace root among `dirs` (nearest first), given the
/// answers of the probes for their `.gn` files in the same order: the first
/// directory whose probe says yes; the probe's error, as soon as one fails;
/// no root (`Err(None)`) when every probe says no.
pub open spec fn root_search(dirs: Seq<Seq<u8>>, answers: Seq<Result<bool, IoErrorKind>>) -> Result<
    Seq<u8>,
    Option<IoErrorKind>,
>
    decreases dirs.len(),
{
    if dirs.len() == 0 || answers.len() == 0 {
        Err(None)
    } else {
        match answers[0] {
            Ok(true) => Ok(dirs[0]),
            Ok(false) => root_search(dirs.drop_first(), answers.drop_first()),
            Err(k) => Err(Some(k)),
        }
    }
}

/// `Workspace not found for <path>`
pub open spec fn workspace_not_found(path: Seq<u8>) -> Seq<u8> {
    seq![87u8, 111u8, 114u8, 107u8, 115u8, 112u8, 97u8, 99u8, 101u8, 32u8, 110u8, 111u8, 116u8, 32u8, 102u8, 111u8,
        117u8, 110u8, 100u8, 32u8, 102u8, 111u8, 114u8, 32u8] + path
}

/// The error for a path with no workspace.
fn workspace_not_found_error(path: &[u8]) -> (r: Error)
    ensures
        r matches Error::NotFound(m) && m@ == workspace_not_found(path@),
{
    let mut m: Vec<u8> = Vec::new();
    append_bytes(&mut m, &[87u8, 111u8, 114u8, 107u8, 115u8, 112u8, 97u8, 99u8, 101u8, 32u8, 110u8, 111u8, 116u8, 32u8,
        102u8, 111u8, 117u8, 110u8, 100u8, 32u8, 102u8, 111u8, 114u8, 32u8]);
    append_bytes(&mut m, path);
    assert(m@ =~= workspace_not_found(path@));
    Error::NotFound(m)
}

/// The same search with probes that cannot fail: the first directory whose
/// probe says yes, or nothing.
pub open spec fn nearest_search(dirs: Seq<Seq<u8>>, answers: Seq<bool>) -> Option<Seq<u8>>
    decreases dirs.len(),
{
    if dirs.len() == 0 || answers.len() == 0 {
        None
    } else if answers[0] {
        Some(dirs[0])
    } else {
        nearest_search(dirs.drop_first(), answers.drop_first())
    }
}

/// What one probe tells the search.
pub enum SearchStep {
    /// The directory holds a `.gn` file: it is the root.
    Found,
    /// It does not: go on to its parent.
    Up,
    /// The probe failed: the search fails with its error.
    Failed(IoErrorKind),
}

/// What the answer of the probe for a directory's `.gn` file tells the
/// search.
pub fn search_step(answer: Result<bool, IoErrorKind>) -> (r: SearchStep)
    ensures
        match answer {
            Ok(true) => r is Found,
            Ok(false) => r is Up,
            Err(k) => r == SearchStep::Failed(k),
        },
{
    match answer {
        Ok(true) => SearchStep::Found,
        Ok(false) => SearchStep::Up,
        Err(k) => SearchStep::Failed(k),
    }
}

/// Answers that all say no lead the search past their directories.
proof fn lemma_root_search_skip(dirs: Seq<Seq<u8>>, ans: Seq<Result<bool, IoErrorKind>>, ext: Seq<Result<bool, IoErrorKind>>)
    requires
        ans.len() <= dirs.len(),
        forall|j: int| 0 <= j < ans.len() ==> #[trigger] ans[j] == Ok::<bool, IoErrorKind>(false),
    ensures
        root_search(dirs, ans + ext) == root_search(dirs.skip(ans.len() as int), ext),
    decreases ans.len(),
{
    if ans.len() == 0 {
        assert(ans + ext =~= ext);
        assert(dirs.skip(0) =~= dirs);
    } else {
        assert((ans + ext).drop_first() =~= ans.drop_first() + ext);
        assert(dirs.drop_first().skip(ans.len() - 1) =~= dirs.skip(ans.len() as int));
        assert((ans + ext)[0] == ans[0]);
        lemma_root_search_skip(dirs.drop_first(), ans.drop_first(), ext);
    }
}

/// The same for probes that cannot fail.
proof fn lemma_nearest_search_skip(dirs: Seq<Seq<u8>>, ans: Seq<bool>, ext: Seq<bool>)
    requires
        ans.len() <= dirs.len(),
        forall|j: int| 0 <= j < ans.len() ==> !#[trigger] ans[j],
    ensures
        nearest_search(dirs, ans + ext) == nearest_search(dirs.skip(ans.len() as int), ext),
    decreases ans.len(),
{
    if ans.len() == 0 {
        assert(ans + ext =~= ext);
        assert(dirs.skip(0) =~= dirs);
    } else {
        assert((ans + ext).drop_first() =~= ans.drop_first() + ext);
        assert(dirs.drop_first().skip(ans.len() - 1) =~= dirs.skip(ans.len() as int));
        assert((ans + ext)[0] == ans[0]);
        lemma_nearest_search_skip(dirs.drop_first(), ans.drop_first(), ext);
    }
}

/// `n` answers that all say no.
pub open spec fn all_no(n: nat) -> Seq<Result<bool, IoErrorKind>> {
    Seq::new(n, |i: int| Ok::<bool, IoErrorKind>(false))
}

/// `n` answers that all say no, for probes that cannot fail.
pub open spec fn all_false(n: nat) -> Seq<bool> {
    Seq::new(n, |i: int| false)
}

/// The nearest strict ancestor of `path` holding a `.gn` file.
pub fn find_workspace_root(path: &[u8]) -> (r: Result<Vec<u8>, Error>)
    ensures
        r matches Ok(dir) ==> is_proper_ancestor(dir@, path@),
        spec_parent(path@) is None ==> (r matches Err(e) && e.spec_is_not_found()),
        exists|answers: Seq<Result<bool, IoErrorKind>>|
            answers.len() == proper_ancestors(path@).len() && match #[trigger] root_search(
                proper_ancestors(path@),
                answers,
            ) {
                Ok(d) => r matches Ok(v) && v@ == d,
                Err(Some(k)) => r == Err::<Vec<u8>, Error>(Error::Io { kind: k }),
                Err(None) => r matches Err(Error::NotFound(m)) && m@ == workspace_not_found(path@),
            },
{
    let ghost dirs = proper_ancestors(path@);
    let mut current = match parent(path) {
        Some(p) => p,
        None => {
            proof {
                assert(root_search(dirs, all_no(0)) == Err::<Seq<u8>, Option<IoErrorKind>>(None));
            }
            return Err(workspace_not_found_error(path));
        },
    };
    let ghost mut ans: Seq<Result<bool, IoErrorKind>> = seq![];
    assert(dirs.skip(0) == seq![current@] + proper_ancestors(current@));
    loop
        invariant
            is_proper_ancestor(current@, path@),
            dirs == proper_ancestors(path@),
            ans.len() < dirs.len(),
            forall|j: int| 0 <= j < ans.len() ==> #[trigger] ans[j] == Ok::<bool, IoErrorKind>(false),
            dirs.skip(ans.len() as int) == seq![current@] + proper_ancestors(current@),
        decreases current@.len(),
    {
        let candidate = join(current.as_slice(), &[46u8, 103u8, 110u8]);
        let answer = try_exists(candidate.as_slice());
        let ghost rest = all_no((dirs.len() - ans.len() - 1) as nat);
        proof {
            lemma_root_search_skip(dirs, ans, seq![answer] + rest);
            assert(dirs.skip(ans.len() as int)[0] == current@);
            assert((seq![answer] + rest)[0] == answer);
            assert((ans + (seq![answer] + rest)).len() == dirs.len());
        }
        match search_step(answer) {
            SearchStep::Found => {
                return Ok(current);
            },
            SearchStep::Up => {},
            SearchStep::Failed(kind) => return Err(Error::Io { kind }),
        }
        proof {
            assert(ans.push(answer) + rest =~= ans + (seq![answer] + rest));
            ans = ans.push(answer);
        }
        match parent(current.as_slice()) {
            Some(p) => {
                proof {
                    lemma_ancestor_step(p@, current@, path@);
                    assert(dirs.skip(ans.len() as int) =~= dirs.skip(ans.len() - 1).drop_first());
                }
                current = p;
            },
            None => {
                proof {
                    assert(dirs.skip(ans.len() as int) =~= dirs.skip(ans.len() - 1).drop_first());
                    assert(ans.len() == dirs.len());
                    lemma_root_search_skip(dirs, ans, seq![]);
                    assert(ans + Seq::<Result<bool, IoErrorKind>>::empty() =~= ans);
                }
                return Err(workspace_not_found_error(path));
            },
        }
    }
}

/// The parent of an ancestor is an ancestor.
proof fn lemma_ancestor_step(p: Seq<u8>, c: Seq<u8>, path: Seq<u8>)
    requires
        spec_parent(c) == Some(p),
        p.len() < c.len(),
        is_proper_ancestor(c, path),
    ensures
        is_proper_ancestor(p, path),
    decreases path.len(),
{
    let q = spec_parent(path).unwrap();
    assert(is_proper_ancestor(p, c));
    if q != c {
        assert(is_proper_ancestor(c, q));
        lemma_ancestor_step(p, c, q);
    }
    assert(is_proper_ancestor(p, q));
}


/// `dir` is `path` itself or one of its ancestors.
pub open spec fn is_ancestor_or_self(dir: Seq<u8>, path: Seq<u8>) -> bool {
    dir == path || is_proper_ancestor(dir, path)
}

/// Whether `path` names an existing file (as `Path::exists`). What comes
/// back depends on the file system; nothing is claimed of it.
#[verifier::external_body]
pub(crate) fn path_exists(path: &[u8]) -> (r: bool) {
    std::path::Path::new(&*String::from_utf8_lossy(path)).exists()
}

/// Whether `dir` is `path` or one of its ancestors, going up by `parent`.
pub fn is_ancestor_or_self_exec(dir: &[u8], path: &[u8]) -> (r: bool)
    ensures
        r == is_ancestor_or_self(dir@, path@),
{
    if crate::storage::bytes_eq(dir, path) {
        return true;
    }
    let mut current = copy_range(path, 0, path.len());
    assert(path@.subrange(0, path@.len() as int) =~= path@);
    loop
        invariant
            is_ancestor_or_self(dir@, path@) == (dir@ == current@ || is_proper_ancestor(dir@, current@)),
            dir@ != current@ ==> (is_ancestor_or_self(dir@, path@) == is_proper_ancestor(dir@, current@)),
        decreases current@.len(),
    {
        if crate::storage::bytes_eq(dir, current.as_slice()) {
            return true;
        }
        match parent(current.as_slice()) {
            Some(p) => {
                assert(is_proper_ancestor(dir@, current@) == (p@ == dir@ || is_proper_ancestor(dir@, p@)));
                current = p;
            },
            None => {
                return false;
            },
        }
    }
}

/// The nearest of `file` and its ancestors that holds a `.gn` file.
pub fn find_nearest_workspace_root(file: &[u8]) -> (r: Option<Vec<u8>>)
    ensures
        r matches Some(dir) ==> is_ancestor_or_self(dir@, file@),
        exists|answers: Seq<bool>|
            answers.len() == ancestors_or_self(file@).len() && match #[trigger] nearest_search(
                ancestors_or_self(file@),
                answers,
            ) {
                Some(d) => r matches Some(v) && v@ == d,
                None => r is None,
            },
{
    let ghost dirs = ancestors_or_self(file@);
    let mut current = copy_range(file, 0, file.len());
    assert(file@.subrange(0, file@.len() as int) =~= file@);
    let ghost mut ans: Seq<bool> = seq![];
    assert(dirs.skip(0) =~= dirs);
    loop
        invariant
            is_ancestor_or_self(current@, file@),
            dirs == ancestors_or_self(file@),
            ans.len() < dirs.len(),
            forall|j: int| 0 <= j < ans.len() ==> !#[trigger] ans[j],
            dirs.skip(ans.len() as int) == seq![current@] + proper_ancestors(current@),
        decreases current@.len(),
    {
        let candidate = join(current.as_slice(), &[46u8, 103u8, 110u8]);
        let answer = path_exists(candidate.as_slice());
        let ghost rest = all_false((dirs.len() - ans.len() - 1) as nat);
        proof {
            lemma_nearest_search_skip(dirs, ans, seq![answer] + rest);
            assert(dirs.skip(ans.len() as int)[0] == current@);
            assert((seq![answer] + rest)[0] == answer);
            assert((ans + (seq![answer] + rest)).len() == dirs.len());
        }
        if answer {
            return Some(current);
        }
        proof {
            assert(ans.push(answer) + rest =~= ans + (seq![answer] + rest));
            ans = ans.push(answer);
        }
        match parent(current.as_slice()) {
            Some(p) => {
                proof {
                    if current@ == file@ {
                        assert(is_proper_ancestor(p@, file@));
                    } else {
                        lemma_ancestor_step(p@, current@, file@);
                    }
                    assert(dirs.skip(ans.len() as int) =~= dirs.skip(ans.len() - 1).drop_first());
                }
                current = p;
            },
            None => {
                proof {
                    assert(dirs.skip(ans.len() as int) =~= dirs.skip(ans.len() - 1).drop_first());
                    assert(ans.len() == dirs.len());
                    lemma_nearest_search_skip(dirs, ans, seq![]);
                    assert(ans + Seq::<bool>::empty() =~= ans);
                }
                return None;
            },
        }
    }
}

/// Finds the workspace of a file, preferring the workspace the editor
/// opened when the file lies inside it.
#[derive(Clone, Debug)]
pub struct WorkspaceFinder {
    main_workspace_root: Option<Vec<u8>>,
}

impl WorkspaceFinder {
    /// The main workspace root, if the editor's root lies in a workspace.
    pub closed spec fn main_root(&self) -> Option<Seq<u8>> {
        match self.main_workspace_root {
            Some(v) => Some(v@),
            None => None,
        }
    }

    pub fn new(client_root: Option<&[u8]>) -> (r: WorkspaceFinder)
        ensures
            client_root is None ==> r.main_root() is None,
            r.main_root() matches Some(m) ==> client_root matches Some(c) && is_ancestor_or_self(m, c@),
            client_root matches Some(c) ==> exists|answers: Seq<bool>|
                answers.len() == ancestors_or_self(c@).len() && r.main_root() == #[trigger] nearest_search(
                    ancestors_or_self(c@),
                    answers,
                ),
    {
        let main_workspace_root = match client_root {
            Some(c) => find_nearest_workspace_root(c),
            None => None,
        };
        WorkspaceFinder { main_workspace_root }
    }

    /// The workspace root for `path`: the main workspace when `path` lies in
    /// it, else the nearest directory (the path itself or an ancestor)
    /// holding a `.gn` file.
    pub fn find_for(&self, path: &[u8]) -> (r: Option<Vec<u8>>)
        ensures
            self.main_root() is Some && is_ancestor_or_self(self.main_root()->0, path@) ==> (r matches Some(
                v
            ) && v@ == self.main_root()->0),
            r matches Some(v) ==> is_ancestor_or_self(v@, path@),
            !(self.main_root() is Some && is_ancestor_or_self(self.main_root()->0, path@)) ==> exists|
                answers: Seq<bool>,
            |
                answers.len() == ancestors_or_self(path@).len() && match #[trigger] nearest_search(
                    ancestors_or_self(path@),
                    answers,
                ) {
                    Some(d) => r matches Some(v) && v@ == d,
                    None => r is None,
                },
    {
        if let Some(main) = &self.main_workspace_root {
            if is_ancestor_or_self_exec(main.as_slice(), path) {
                assert(main@.subrange(0, main@.len() as int) =~= main@);
                return Some(copy_range(main.as_slice(), 0, main.len()));
            }
        }
        find_nearest_workspace_root(path)
    }
}

/// What the analysis of one workspace needs to know of it: its root, the
/// version of its `.gn` file, and the build configuration file that `.gn`
/// names.
#[derive(Clone, Debug)]
pub struct WorkspaceContext {
    pub root: Vec<u8>,
    pub dot_gn_version: DocumentVersion,
    pub build_config: Vec<u8>,
}

impl WorkspaceContext {
    /// Resolves `name` written in a file of `current_dir`.
    pub fn resolve_path(&self, name: &[u8], current_dir: &[u8]) -> (r: Vec<u8>)
        ensures
            r@ == spec_resolve_path(name@, self.root@, current_dir@),
    {
        resolve_path(name, self.root.as_slice(), current_dir)
    }

    /// `path` as `//relative` inside this workspace, else as is.
    pub fn format_path(&self, path: &[u8]) -> (r: Vec<u8>)
        ensures
            r@ == spec_format_path(path@, self.root@),
    {
        format_path(path, self.root.as_slice())
    }
}


/// Formatting the path that a source-absolute name `//rel` resolves to gives
/// the name back, for a workspace root without a trailing `/` and a
/// relative part that is neither empty nor absolute.
pub proof fn lemma_format_resolve_roundtrip(rel: Seq<u8>, root: Seq<u8>, dir: Seq<u8>)
    requires
        root.len() > 0,
        root.last() != SLASH,
        rel.len() > 0,
        rel[0] != SLASH,
    ensures
        spec_format_path(spec_resolve_path(double_slash() + rel, root, dir), root) == double_slash() + rel,
{
    let name = double_slash() + rel;
    assert(name.subrange(0, 2) =~= double_slash());
    assert(starts_with(name, double_slash()));
    assert(name.skip(2) =~= rel);
    let path = spec_join(root, rel);
    assert(path == root + seq![SLASH] + rel);
    assert(path.subrange(0, root.len() as int) =~= root);
    assert(path[root.len() as int] == SLASH);
    assert(path[root.len() as int + 1] == rel[0]);
    assert(slash_run_end(path, root.len() as int + 1) == root.len() + 1);
    assert(slash_run_end(path, root.len() as int) == root.len() + 1);
    assert(path.skip(root.len() as int + 1) =~= rel);
}

/// Resolving the name that a path inside the workspace is shown as gives
/// the path back: for a root without a trailing `/` and a path `root/rel`
/// whose relative part is neither empty nor starts with `/`.
pub proof fn lemma_resolve_format_roundtrip(rel: Seq<u8>, root: Seq<u8>, dir: Seq<u8>)
    requires
        root.len() > 0,
        root.last() != SLASH,
        rel.len() > 0,
        rel[0] != SLASH,
    ensures
        spec_resolve_path(spec_format_path(root + seq![SLASH] + rel, root), root, dir) == root + seq![SLASH] + rel,
{
    lemma_format_resolve_roundtrip(rel, root, dir);
    let name = double_slash() + rel;
    assert(name.subrange(0, 2) =~= double_slash());
    assert(name.skip(2) =~= rel);
    assert(spec_resolve_path(name, root, dir) == spec_join(root, rel));
    assert(spec_join(root, rel) == root + seq![SLASH] + rel);
}

/// The run of `/` in `root`, then `m` slashes, then `rel` ends where `rel`
/// starts.
proof fn lemma_slash_run(root: Seq<u8>, m: nat, rel: Seq<u8>, j: int)
    requires
        0 <= j <= m,
        rel.len() == 0 || rel[0] != SLASH,
    ensures
        slash_run_end(root + Seq::new(m, |i: int| SLASH) + rel, root.len() + j) == root.len() + m,
    decreases m - j,
{
    let p = root + Seq::new(m, |i: int| SLASH) + rel;
    if j < m {
        assert(p[root.len() + j] == SLASH);
        lemma_slash_run(root, m, rel, j + 1);
    } else if rel.len() > 0 {
        assert(p[(root.len() + m) as int] == rel[0]);
    }
}

/// Resolving the name that a path inside the workspace is shown as gives
/// the path back, as a path: for a root without a trailing `/`, the root
/// itself, and the root followed by separators (one or more `/`) and a
/// relative part, resolve to the root, a `/` and that part.
pub proof fn lemma_resolve_format_inside(root: Seq<u8>, m: nat, rel: Seq<u8>, dir: Seq<u8>)
    requires
        root.len() > 0,
        root.last() != SLASH,
        m >= 1 || rel.len() == 0,
        rel.len() == 0 || rel[0] != SLASH,
    ensures
        spec_resolve_path(spec_format_path(root + Seq::new(m, |i: int| SLASH) + rel, root), root, dir) == root
            + seq![SLASH] + rel,
{
    let p = root + Seq::new(m, |i: int| SLASH) + rel;
    assert(p.subrange(0, root.len() as int) =~= root);
    lemma_slash_run(root, m, rel, 0);
    if p.len() == root.len() {
        assert(rel.len() == 0 && m == 0);
        assert(spec_format_path(p, root) == double_slash() + Seq::<u8>::empty());
    } else {
        if m >= 1 {
            assert(p[root.len() as int] == SLASH);
        } else {
            assert(false);
        }
        assert(p.skip((root.len() + m) as int) =~= rel);
        assert(spec_format_path(p, root) == double_slash() + rel);
    }
    let name = double_slash() + rel;
    assert(name.subrange(0, 2) =~= double_slash());
    assert(name.skip(2) =~= rel);
    assert(spec_resolve_path(name, root, dir) == spec_join(root, rel));
    if rel.len() == 0 {
        assert(spec_join(root, rel) == root + seq![SLASH] + rel);
    } else {
        assert(spec_join(root, rel) == root + seq![SLASH] + rel);
    }
}

/// A path outside the workspace is shown as it is, and resolves to itself:
/// an absolute path that does not start with `//` and does not lie under
/// the root.
pub proof fn lemma_resolve_format_outside(p: Seq<u8>, root: Seq<u8>, dir: Seq<u8>)
    requires
        p.len() > 0,
        p[0] == SLASH,
        !(p.len() > 1 && p[1] == SLASH),
        spec_strip_prefix(p, root) is None,
    ensures
        spec_format_path(p, root) == p,
        spec_resolve_path(spec_format_path(p, root), root, dir) == p,
{
    assert(!starts_with(p, double_slash())) by {
        if starts_with(p, double_slash()) {
            assert(p.subrange(0, 2)[1] == p[1]);
        }
    }
}

} // verus!
