//! File name completion inside strings: which directory to list for the
//! text typed so far, and which of its entries to offer, in order.

use vstd::prelude::*;

use crate::util::SLASH;
use crate::workspace::{copy_range, join, last_slash, parent, spec_join, spec_parent, starts_with, starts_with_exec};

verus! {

/// For the text `prefix` typed inside a string of the file at `path`: the
/// directory to list (the file's directory joined with the part of `prefix`
/// up to its last `/`) and the start of the names to offer (the rest).
/// Nothing for a path without a parent.
pub open spec fn spec_completion_dir(path: Seq<u8>, prefix: Seq<u8>) -> Option<(Seq<u8>, Seq<u8>)> {
    match spec_parent(path) {
        None => None,
        Some(dir) => match last_slash(prefix, prefix.len() as int) {
            None => Some((spec_join(dir, seq![]), prefix)),
            Some(i) => Some((spec_join(dir, prefix.take(i)), prefix.skip(i + 1))),
        },
    }
}

/// The directory to list and the start of the names to offer; see
/// `spec_completion_dir`.
pub fn completion_dir(path: &[u8], prefix: &[u8]) -> (r: Option<(Vec<u8>, Vec<u8>)>)
    ensures
        match r {
            Some((d, b)) => spec_completion_dir(path@, prefix@) == Some((d@, b@)),
            None => spec_completion_dir(path@, prefix@) is None,
        },
{
    let dir = match parent(path) {
        Some(d) => d,
        None => return None,
    };
    let n = prefix.len();
    let mut i = n;
    while i > 0 && prefix[i - 1] != SLASH
        invariant
            i <= n == prefix@.len(),
            last_slash(prefix@, i as int) == last_slash(prefix@, n as int),
        decreases i,
    {
        i -= 1;
    }
    if i == 0 {
        let d = join(dir.as_slice(), &[]);
        let b = copy_range(prefix, 0, n);
        assert(b@ =~= prefix@);
        assert(Seq::<u8>::empty() =~= seq![]);
        Some((d, b))
    } else {
        let subdirs = copy_range(prefix, 0, i - 1);
        assert(subdirs@ =~= prefix@.take(i - 1));
        let d = join(dir.as_slice(), subdirs.as_slice());
        let b = copy_range(prefix, i, n);
        assert(b@ =~= prefix@.skip(i as int));
        Some((d, b))
    }
}

/// Byte-wise lexicographic order, as `String`'s `Ord` compares.
pub open spec fn lex_le(a: Seq<u8>, b: Seq<u8>) -> bool
    decreases a.len(),
{
    if a.len() == 0 {
        true
    } else if b.len() == 0 {
        false
    } else if a[0] != b[0] {
        a[0] < b[0]
    } else {
        lex_le(a.drop_first(), b.drop_first())
    }
}

proof fn lemma_lex_total(a: Seq<u8>, b: Seq<u8>)
    ensures
        lex_le(a, b) || lex_le(b, a),
    decreases a.len(),
{
    if a.len() > 0 && b.len() > 0 && a[0] == b[0] {
        lemma_lex_total(a.drop_first(), b.drop_first());
    }
}

proof fn lemma_lex_trans(a: Seq<u8>, b: Seq<u8>, c: Seq<u8>)
    requires
        lex_le(a, b),
        lex_le(b, c),
    ensures
        lex_le(a, c),
    decreases a.len(),
{
    if a.len() > 0 && b.len() > 0 && c.len() > 0 && a[0] == b[0] && b[0] == c[0] {
        lemma_lex_trans(a.drop_first(), b.drop_first(), c.drop_first());
    }
}

fn lex_le_exec(a: &[u8], b: &[u8]) -> (r: bool)
    ensures
        r == lex_le(a@, b@),
{
    let mut i: usize = 0;
    assert(a@.skip(0) =~= a@);
    assert(b@.skip(0) =~= b@);
    while i < a.len() && i < b.len() && a[i] == b[i]
        invariant
            i <= a@.len(),
            i <= b@.len(),
            lex_le(a@, b@) == lex_le(a@.skip(i as int), b@.skip(i as int)),
        decreases a.len() - i,
    {
        assert(a@.skip(i as int).drop_first() =~= a@.skip(i + 1));
        assert(b@.skip(i as int).drop_first() =~= b@.skip(i + 1));
        i += 1;
    }
    if i == a.len() {
        true
    } else if i == b.len() {
        false
    } else {
        assert(a@.skip(i as int)[0] == a@[i as int]);
        assert(b@.skip(i as int)[0] == b@[i as int]);
        a[i] < b[i]
    }
}

/// The label of a directory entry named `name`: a directory's ends in `/`.
pub open spec fn entry_label(name: Seq<u8>, is_dir: bool) -> Seq<u8> {
    if is_dir {
        name.push(SLASH)
    } else {
        name
    }
}

/// The entries offered: those whose name starts with `basename`, labelled.
pub open spec fn offered(entries: Seq<(Seq<u8>, bool)>, basename: Seq<u8>) -> Seq<(Seq<u8>, bool)>
    decreases entries.len(),
{
    if entries.len() == 0 {
        seq![]
    } else {
        let e = entries.last();
        let rest = offered(entries.drop_last(), basename);
        if starts_with(e.0, basename) {
            rest.push((entry_label(e.0, e.1), e.1))
        } else {
            rest
        }
    }
}

/// Entries by view.
pub open spec fn entries_view(v: Seq<(Vec<u8>, bool)>) -> Seq<(Seq<u8>, bool)> {
    v.map_values(|e: (Vec<u8>, bool)| (e.0@, e.1))
}

/// Whether the labels of `s` are in order.
pub open spec fn sorted_by_label(s: Seq<(Seq<u8>, bool)>) -> bool {
    forall|i: int, j: int| 0 <= i < j < s.len() ==> lex_le(#[trigger] s[i].0, #[trigger] s[j].0)
}


/// The entries of a directory (name, and whether it is a directory) that
/// complete `basename`: each whose name starts with it, labelled (a
/// directory's label ends in `/`), sorted by label.
pub fn filename_completions(entries: &Vec<(Vec<u8>, bool)>, basename: &[u8]) -> (r: Vec<(Vec<u8>, bool)>)
    ensures
        entries_view(r@).to_multiset() == offered(entries_view(entries@), basename@).to_multiset(),
        sorted_by_label(entries_view(r@)),
{
    let ghost all = entries_view(entries@);
    let mut out: Vec<(Vec<u8>, bool)> = Vec::new();
    let mut i: usize = 0;
    assert(all.take(0) =~= Seq::<(Seq<u8>, bool)>::empty());
    assert(entries_view(out@) =~= offered(all.take(0), basename@));
    while i < entries.len()
        invariant
            i <= entries@.len(),
            all == entries_view(entries@),
            entries_view(out@).to_multiset() == offered(all.take(i as int), basename@).to_multiset(),
            sorted_by_label(entries_view(out@)),
        decreases entries.len() - i,
    {
        let ghost prev = all.take(i as int);
        assert(all.take(i + 1).drop_last() =~= prev);
        assert(all.take(i + 1).last() == (entries@[i as int].0@, entries@[i as int].1));
        let name = entries[i].0.as_slice();
        let is_dir = entries[i].1;
        if starts_with_exec(name, basename) {
            let mut label = copy_range(name, 0, name.len());
            if is_dir {
                label.push(SLASH);
            }
            assert(label@ =~= entry_label(name@, is_dir));
            let ghost before = entries_view(out@);
            let n = out.len();
            let mut pos: usize = 0;
            while pos < n && lex_le_exec(out[pos].0.as_slice(), label.as_slice())
                invariant
                    pos <= n == out@.len(),
                    before == entries_view(out@),
                    forall|k: int| 0 <= k < pos ==> lex_le(#[trigger] before[k].0, label@),
                decreases n - pos,
            {
                pos += 1;
            }
            let ghost item = (label@, is_dir);
            out.insert(pos, (label, is_dir));
            proof {
                let after = entries_view(out@);
                assert(after =~= before.insert(pos as int, item));
                vstd::seq_lib::to_multiset_insert(before, pos as int, item);
                vstd::seq_lib::to_multiset_build(offered(prev, basename@), item);
                if pos < n {
                    lemma_lex_total(before[pos as int].0, item.0);
                }
                assert forall|a: int, b: int| 0 <= a < b < after.len() implies lex_le(
                    #[trigger] after[a].0,
                    #[trigger] after[b].0,
                ) by {
                    if a == pos && b > pos + 1 {
                        lemma_lex_trans(item.0, before[pos as int].0, before[b - 1].0);
                    }
                }
            }
        }
        i += 1;
    }
    assert(all.take(entries@.len() as int) =~= all);
    out
}

/// Every entry offered completes the text typed: its label starts with
/// `basename`.
pub proof fn lemma_offered_complete(entries: Seq<(Seq<u8>, bool)>, basename: Seq<u8>)
    ensures
        forall|i: int| 0 <= i < offered(entries, basename).len() ==> starts_with(
            #[trigger] offered(entries, basename)[i].0,
            basename,
        ),
    decreases entries.len(),
{
    if entries.len() > 0 {
        lemma_offered_complete(entries.drop_last(), basename);
        let e = entries.last();
        let o = offered(entries, basename);
        let r = offered(entries.drop_last(), basename);
        if starts_with(e.0, basename) {
            let label = entry_label(e.0, e.1);
            assert(starts_with(label, basename)) by {
                assert(label.subrange(0, basename.len() as int) =~= e.0.subrange(0, basename.len() as int));
            }
            assert forall|i: int| 0 <= i < o.len() implies starts_with(#[trigger] o[i].0, basename) by {
                if i < r.len() {
                    assert(o[i] == r[i]);
                }
            }
        }
    }
}

/// Whether `s` ends with `p`.
pub open spec fn ends_with(s: Seq<u8>, p: Seq<u8>) -> bool {
    p.len() <= s.len() && s.skip(s.len() - p.len()) == p
}

fn ends_with_exec(s: &[u8], p: &[u8]) -> (r: bool)
    ensures
        r == ends_with(s@, p@),
{
    if p.len() > s.len() {
        return false;
    }
    let off = s.len() - p.len();
    let mut i: usize = 0;
    while i < p.len()
        invariant
            off + p@.len() == s@.len(),
            s@.len() <= usize::MAX,
            i <= p@.len(),
            forall|j: int| 0 <= j < i ==> s@[off + j] == p@[j],
        decreases p.len() - i,
    {
        if s[off + i] != p[i] {
            assert(s@.skip(off as int)[i as int] != p@[i as int]);
            return false;
        }
        i += 1;
    }
    assert(s@.skip(off as int) =~= p@);
    true
}

/// Whether a file named `name` holds GN code: it ends in `.gn` or `.gni`.
pub fn is_gn_file_name(name: &[u8]) -> (r: bool)
    ensures
        r == (ends_with(name@, seq![46u8, 103u8, 110u8]) || ends_with(name@, seq![46u8, 103u8, 110u8, 105u8])),
{
    let gn: &[u8] = &[46u8, 103u8, 110u8];
    let gni: &[u8] = &[46u8, 103u8, 110u8, 105u8];
    assert(gn@ =~= seq![46u8, 103u8, 110u8]);
    assert(gni@ =~= seq![46u8, 103u8, 110u8, 105u8]);
    ends_with_exec(name, gn) || ends_with_exec(name, gni)
}

} // verus!
