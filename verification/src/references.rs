//! References to targets: the target whose name is under the cursor, and
//! the links of analyzed files that point at it.

use vstd::prelude::*;

use crate::ast::{derefs, Block, Call, Span, Statement};
use crate::builtins::{
    declare_args_name, foreach_name, is_declare_args, is_foreach, is_set_defaults, is_template, set_defaults_name,
    template_name,
};
use crate::dotgn::{decimal_text, push_decimal};
use crate::file::AnalyzedFile;
use crate::line_index::{spec_offset, spec_position, Position, Range};
use crate::links::AnalyzedLink;
use crate::shallow_analyzer::ShallowFile;
use crate::storage::bytes_eq;
use crate::toplevel::{top_level, top_level_statements};
use crate::workspace::{copy_range, starts_with, starts_with_exec};

verus! {

/// A call the analysis takes for a target: a call with a block and a single
/// argument that is none of `declare_args`, `foreach`, `template` and
/// `set_defaults`.
pub open spec fn is_target_call(c: Call) -> bool {
    let f = c.function.name@;
    &&& f != declare_args_name()
    &&& f != foreach_name()
    &&& f != template_name()
    &&& f != set_defaults_name()
    &&& c.block is Some
    &&& c.spec_only_arg() is Some
}

/// The name of the target `st` declares and the span of its name argument,
/// when `st` is a target call named by a simple string.
pub open spec fn target_of(st: Statement) -> Option<(Seq<u8>, Span)> {
    match st {
        Statement::Call(c) => if is_target_call(*c) {
            match c.args@[0].spec_as_simple_string() {
                Some(n) => Some((n, c.args@[0].spec_span())),
                None => None,
            }
        } else {
            None
        },
        _ => None,
    }
}

/// The targets declared among `sts`, in order.
pub open spec fn targets_of(sts: Seq<Statement>) -> Seq<(Seq<u8>, Span)>
    decreases sts.len(),
{
    if sts.len() == 0 {
        seq![]
    } else {
        let rest = targets_of(sts.drop_last());
        match target_of(sts.last()) {
            Some(t) => rest.push(t),
            None => rest,
        }
    }
}

/// The targets a file declares at its own level.
pub open spec fn file_targets(ast: Block) -> Seq<(Seq<u8>, Span)> {
    targets_of(top_level(ast.statements@))
}

/// The first target of `ts` whose name argument holds `offset` strictly
/// inside.
pub open spec fn first_target_within(ts: Seq<(Seq<u8>, Span)>, offset: int) -> Option<Seq<u8>>
    decreases ts.len(),
{
    if ts.len() == 0 {
        None
    } else if ts[0].1.start < offset < ts[0].1.end {
        Some(ts[0].0)
    } else {
        first_target_within(ts.drop_first(), offset)
    }
}

fn target_of_exec(st: &Statement) -> (r: Option<(Vec<u8>, Span)>)
    ensures
        match r {
            Some(t) => target_of(*st) == Some((t.0@, t.1)),
            None => target_of(*st) is None,
        },
{
    match st {
        Statement::Call(c) => {
            let f = c.function.name.as_slice();
            if is_declare_args(f) || is_foreach(f) || is_template(f) || is_set_defaults(f) || c.block.is_none() {
                return None;
            }
            match c.only_arg() {
                Some(e) => match e.as_simple_string() {
                    Some(n) => {
                        let name = copy_range(n, 0, n.len());
                        assert(name@ =~= n@);
                        Some((name, e.span()))
                    },
                    None => None,
                },
                None => None,
            }
        },
        _ => None,
    }
}

/// The targets a file declares at its own level, in order.
pub fn collect_targets(ast: &Block) -> (r: Vec<(Vec<u8>, Span)>)
    ensures
        r@.map_values(|t: (Vec<u8>, Span)| (t.0@, t.1)) == file_targets(*ast),
{
    let sts = top_level_statements(ast);
    let ghost all = derefs(sts@);
    let mut out: Vec<(Vec<u8>, Span)> = Vec::new();
    let mut i: usize = 0;
    assert(all.take(0) =~= Seq::<Statement>::empty());
    assert(out@.map_values(|t: (Vec<u8>, Span)| (t.0@, t.1)) =~= targets_of(all.take(0)));
    while i < sts.len()
        invariant
            i <= sts@.len(),
            all == derefs(sts@),
            all == top_level(ast.statements@),
            out@.map_values(|t: (Vec<u8>, Span)| (t.0@, t.1)) == targets_of(all.take(i as int)),
        decreases sts.len() - i,
    {
        assert(all.take(i + 1).drop_last() =~= all.take(i as int));
        assert(all.take(i + 1).last() == *sts@[i as int]);
        let ghost before = out@;
        match target_of_exec(sts[i]) {
            Some(t) => {
                out.push(t);
                assert(out@.map_values(|t: (Vec<u8>, Span)| (t.0@, t.1)) =~= before.map_values(
                    |t: (Vec<u8>, Span)| (t.0@, t.1),
                ).push((t.0@, t.1)));
            },
            None => {},
        }
        i += 1;
    }
    assert(all.take(all.len() as int) =~= all);
    out
}

impl AnalyzedFile {
    /// The name of the target whose name string is under `position`.
    pub fn target_at(&self, position: Position) -> (r: Option<Vec<u8>>)
        ensures
            match spec_offset(self.document.line_index@, position) {
                None => r is None,
                Some(o) => match first_target_within(file_targets(self.ast), o) {
                    Some(n) => r matches Some(x) && x@ == n,
                    None => r is None,
                },
            },
    {
        let offset = match self.document.line_index.offset(position) {
            Some(o) => o,
            None => return None,
        };
        let targets = collect_targets(&self.ast);
        let ghost ts = file_targets(self.ast);
        let mut i: usize = 0;
        assert(ts.skip(0) =~= ts);
        while i < targets.len()
            invariant
                i <= targets@.len(),
                ts == targets@.map_values(|t: (Vec<u8>, Span)| (t.0@, t.1)),
                ts == file_targets(self.ast),
                spec_offset(self.document.line_index@, position) == Some(offset as int),
                first_target_within(ts, offset as int) == first_target_within(ts.skip(i as int), offset as int),
            decreases targets.len() - i,
        {
            assert(ts.skip(i as int)[0] == ts[i as int]);
            assert(ts.skip(i as int).drop_first() =~= ts.skip(i + 1));
            assert(ts[i as int] == (targets@[i as int].0@, targets@[i as int].1));
            let span = targets[i].1;
            if span.start < offset && offset < span.end {
                let name = copy_range(targets[i].0.as_slice(), 0, targets[i].0.len());
                assert(name@ =~= targets@[i as int].0@);
                return Some(name);
            }
            i += 1;
        }
        assert(ts.skip(targets@.len() as int) =~= Seq::<(Seq<u8>, Span)>::empty());
        None
    }
}

/// The names among `ts` that are longer than `prefix` and start with it.
pub open spec fn overlapping(ts: Seq<(Seq<u8>, Span)>, prefix: Seq<u8>) -> Seq<Seq<u8>>
    decreases ts.len(),
{
    if ts.len() == 0 {
        seq![]
    } else {
        let rest = overlapping(ts.drop_last(), prefix);
        let n = ts.last().0;
        if n.len() > prefix.len() && starts_with(n, prefix) {
            rest.push(n)
        } else {
            rest
        }
    }
}

/// Whether `name` starts with one of `prefixes`.
pub open spec fn has_prefix_among(name: Seq<u8>, prefixes: Seq<Seq<u8>>) -> bool {
    exists|k: int| 0 <= k < prefixes.len() && starts_with(name, #[trigger] prefixes[k])
}

/// Whether a link of a file refers to the target `target` of the file at
/// `path`: it names `path` and a name starting with `target`, but with none of
/// the longer target names `bad` of that file.
pub open spec fn refers_to(link: AnalyzedLink, path: Seq<u8>, target: Seq<u8>, bad: Seq<Seq<u8>>) -> bool {
    match link {
        AnalyzedLink::Target { path: p, name, span } => p@ == path && !has_prefix_among(name@, bad) && starts_with(
            name@,
            target,
        ),
        _ => false,
    }
}

/// The references to `target` among `links` (of a file with line index text
/// `index`): the ranges of the links that refer to it.
pub open spec fn link_references(links: Seq<AnalyzedLink>, path: Seq<u8>, target: Seq<u8>, bad: Seq<Seq<u8>>, index: Seq<u8>) -> Seq<Range>
    decreases links.len(),
{
    if links.len() == 0 {
        seq![]
    } else {
        let rest = link_references(links.drop_last(), path, target, bad, index);
        let l = links.last();
        if refers_to(l, path, target, bad) {
            let s = l.spec_span();
            rest.push(Range { start: spec_position(index, s.start as int), end: spec_position(index, s.end as int) })
        } else {
            rest
        }
    }
}

/// The references to `target` in `files`, each with its file's path.
pub open spec fn files_references(files: Seq<&AnalyzedFile>, path: Seq<u8>, target: Seq<u8>, bad: Seq<Seq<u8>>) -> Seq<(Seq<u8>, Range)>
    decreases files.len(),
{
    if files.len() == 0 {
        seq![]
    } else {
        let f = files.last();
        files_references(files.drop_last(), path, target, bad) + link_references(
            f.links@,
            path,
            target,
            bad,
            f.document.line_index@,
        ).map_values(|r: Range| (f.document.path@, r))
    }
}


/// The target names of `ast` that are longer than `prefix` and start with it.
pub fn overlapping_targets(ast: &Block, prefix: &[u8]) -> (r: Vec<Vec<u8>>)
    ensures
        r@.map_values(|v: Vec<u8>| v@) == overlapping(file_targets(*ast), prefix@),
{
    let targets = collect_targets(ast);
    let ghost ts = file_targets(*ast);
    let mut out: Vec<Vec<u8>> = Vec::new();
    let mut i: usize = 0;
    assert(ts.take(0) =~= Seq::<(Seq<u8>, Span)>::empty());
    assert(out@.map_values(|v: Vec<u8>| v@) =~= overlapping(ts.take(0), prefix@));
    while i < targets.len()
        invariant
            i <= targets@.len(),
            ts == targets@.map_values(|t: (Vec<u8>, Span)| (t.0@, t.1)),
            out@.map_values(|v: Vec<u8>| v@) == overlapping(ts.take(i as int), prefix@),
        decreases targets.len() - i,
    {
        assert(ts.take(i + 1).drop_last() =~= ts.take(i as int));
        assert(ts.take(i + 1).last() == ts[i as int]);
        let n = targets[i].0.as_slice();
        if n.len() > prefix.len() && starts_with_exec(n, prefix) {
            let ghost before = out@;
            let copy = copy_range(n, 0, n.len());
            assert(copy@ =~= n@);
            out.push(copy);
            assert(out@.map_values(|v: Vec<u8>| v@) =~= before.map_values(|v: Vec<u8>| v@).push(n@));
        }
        i += 1;
    }
    assert(ts.take(ts.len() as int) =~= ts);
    out
}

fn has_prefix_among_exec(name: &[u8], prefixes: &Vec<Vec<u8>>) -> (r: bool)
    ensures
        r == has_prefix_among(name@, prefixes@.map_values(|v: Vec<u8>| v@)),
{
    let ghost ps = prefixes@.map_values(|v: Vec<u8>| v@);
    let mut k: usize = 0;
    while k < prefixes.len()
        invariant
            k <= prefixes@.len(),
            ps == prefixes@.map_values(|v: Vec<u8>| v@),
            forall|j: int| 0 <= j < k ==> !starts_with(name@, #[trigger] ps[j]),
        decreases prefixes.len() - k,
    {
        assert(ps[k as int] == prefixes@[k as int]@);
        if starts_with_exec(name, prefixes[k].as_slice()) {
            return true;
        }
        k += 1;
    }
    false
}

/// The references to the target named `target` of `current` among the
/// links of `files`: each link that names `current`'s file and a name
/// starting with `target` but with no longer target name of `current`,
/// with its file's path and its range there.
pub fn target_references(current: &AnalyzedFile, target: &[u8], files: &Vec<&AnalyzedFile>) -> (r: Vec<(Vec<u8>, Range)>)
    ensures
        r@.map_values(|x: (Vec<u8>, Range)| (x.0@, x.1)) == files_references(
            files@,
            current.document.path@,
            target@,
            overlapping(file_targets(current.ast), target@),
        ),
{
    let bad = overlapping_targets(&current.ast, target);
    let ghost badv = bad@.map_values(|v: Vec<u8>| v@);
    let ghost path = current.document.path@;
    let mut out: Vec<(Vec<u8>, Range)> = Vec::new();
    let mut i: usize = 0;
    assert(files@.take(0) =~= Seq::<&AnalyzedFile>::empty());
    assert(out@.map_values(|x: (Vec<u8>, Range)| (x.0@, x.1)) =~= files_references(files@.take(0), path, target@, badv));
    while i < files.len()
        invariant
            i <= files@.len(),
            badv == bad@.map_values(|v: Vec<u8>| v@),
            path == current.document.path@,
            out@.map_values(|x: (Vec<u8>, Range)| (x.0@, x.1)) == files_references(files@.take(i as int), path, target@, badv),
        decreases files.len() - i,
    {
        assert(files@.take(i + 1).drop_last() =~= files@.take(i as int));
        assert(files@.take(i + 1).last() == files@[i as int]);
        let f = files[i];
        let ghost base = out@.map_values(|x: (Vec<u8>, Range)| (x.0@, x.1));
        let mut j: usize = 0;
        assert(f.links@.take(0) =~= Seq::<AnalyzedLink>::empty());
        assert(link_references(f.links@.take(0), path, target@, badv, f.document.line_index@).map_values(
            |r: Range| (f.document.path@, r),
        ) =~= Seq::<(Seq<u8>, Range)>::empty());
        assert(out@.map_values(|x: (Vec<u8>, Range)| (x.0@, x.1)) =~= base + link_references(
            f.links@.take(0),
            path,
            target@,
            badv,
            f.document.line_index@,
        ).map_values(|r: Range| (f.document.path@, r)));
        while j < f.links.len()
            invariant
                j <= f.links@.len(),
                badv == bad@.map_values(|v: Vec<u8>| v@),
                path == current.document.path@,
                out@.map_values(|x: (Vec<u8>, Range)| (x.0@, x.1)) == base + link_references(
                    f.links@.take(j as int),
                    path,
                    target@,
                    badv,
                    f.document.line_index@,
                ).map_values(|r: Range| (f.document.path@, r)),
            decreases f.links.len() - j,
        {
            assert(f.links@.take(j + 1).drop_last() =~= f.links@.take(j as int));
            assert(f.links@.take(j + 1).last() == f.links@[j as int]);
            let ghost prev = link_references(f.links@.take(j as int), path, target@, badv, f.document.line_index@);
            match &f.links[j] {
                AnalyzedLink::Target { path: p, name, span } => {
                    if bytes_eq(p.as_slice(), current.document.path.as_slice()) && !has_prefix_among_exec(
                        name.as_slice(),
                        &bad,
                    ) && starts_with_exec(name.as_slice(), target) {
                        let range = f.document.line_index.range(*span);
                        let fp = copy_range(f.document.path.as_slice(), 0, f.document.path.len());
                        assert(fp@ =~= f.document.path@);
                        let ghost before = out@;
                        out.push((fp, range));
                        assert(prev.push(range).map_values(|r: Range| (f.document.path@, r)) =~= prev.map_values(
                            |r: Range| (f.document.path@, r),
                        ).push((f.document.path@, range)));
                        assert(out@.map_values(|x: (Vec<u8>, Range)| (x.0@, x.1)) =~= before.map_values(
                            |x: (Vec<u8>, Range)| (x.0@, x.1),
                        ).push((fp@, range)));
                    }
                },
                _ => {},
            }
            j += 1;
        }
        assert(f.links@.take(f.links@.len() as int) =~= f.links@);
        i += 1;
    }
    assert(files@.take(files@.len() as int) =~= files@);
    out
}

/// Some target of `ts` has a name longer than `target` that starts with
/// `target` and with which `name` starts.
pub open spec fn has_longer_target_prefix(ts: Seq<(Seq<u8>, Span)>, target: Seq<u8>, name: Seq<u8>) -> bool {
    exists|m: int|
        0 <= m < ts.len() && (#[trigger] ts[m]).0.len() > target.len() && starts_with(ts[m].0, target) && starts_with(
            name,
            ts[m].0,
        )
}

/// Whether the link `link` names the file `path` and a name that starts
/// with `target` and with no longer target name of `ts`, at the range
/// `range` of the text with line index text `index`.
pub open spec fn is_reference_at(
    link: AnalyzedLink,
    path: Seq<u8>,
    target: Seq<u8>,
    ts: Seq<(Seq<u8>, Span)>,
    index: Seq<u8>,
    range: Range,
) -> bool {
    match link {
        AnalyzedLink::Target { path: p, name, span } => p@ == path && starts_with(name@, target)
            && !has_longer_target_prefix(ts, target, name@) && range == Range {
            start: spec_position(index, span.start as int),
            end: spec_position(index, span.end as int),
        },
        _ => false,
    }
}

proof fn lemma_overlapping_prefix(ts: Seq<(Seq<u8>, Span)>, target: Seq<u8>, name: Seq<u8>)
    ensures
        has_prefix_among(name, overlapping(ts, target)) == has_longer_target_prefix(ts, target, name),
    decreases ts.len(),
{
    if ts.len() > 0 {
        let rest = ts.drop_last();
        lemma_overlapping_prefix(rest, target, name);
        let o = overlapping(ts, target);
        let or = overlapping(rest, target);
        if has_prefix_among(name, o) {
            let k = choose|k: int| 0 <= k < o.len() && starts_with(name, #[trigger] o[k]);
            if k < or.len() {
                assert(o[k] == or[k]);
                assert(has_prefix_among(name, or));
                let m = choose|m: int|
                    0 <= m < rest.len() && (#[trigger] rest[m]).0.len() > target.len() && starts_with(
                        rest[m].0,
                        target,
                    ) && starts_with(name, rest[m].0);
                assert(ts[m] == rest[m]);
            } else {
                assert(ts[ts.len() - 1] == ts.last());
            }
        }
        if has_longer_target_prefix(ts, target, name) {
            let m = choose|m: int|
                0 <= m < ts.len() && (#[trigger] ts[m]).0.len() > target.len() && starts_with(ts[m].0, target)
                    && starts_with(name, ts[m].0);
            if m < rest.len() {
                assert(rest[m] == ts[m]);
                let k = choose|k: int| 0 <= k < or.len() && starts_with(name, #[trigger] or[k]);
                assert(o[k] == or[k]);
            } else {
                assert(o[o.len() - 1] == ts.last().0);
            }
        }
    }
}

/// A file's references to a target are exactly its links that name the
/// target's file and a name that starts with the target's name but with no
/// longer target name declared in that file: each reference is the range of
/// such a link, and each such link gives a reference.
pub proof fn lemma_link_references_exact(
    links: Seq<AnalyzedLink>,
    path: Seq<u8>,
    target: Seq<u8>,
    ts: Seq<(Seq<u8>, Span)>,
    index: Seq<u8>,
)
    ensures
        forall|j: int|
            #![trigger link_references(links, path, target, overlapping(ts, target), index)[j]]
            0 <= j < link_references(links, path, target, overlapping(ts, target), index).len() ==> exists|k: int|
                0 <= k < links.len() && is_reference_at(
                    #[trigger] links[k],
                    path,
                    target,
                    ts,
                    index,
                    link_references(links, path, target, overlapping(ts, target), index)[j],
                ),
        forall|k: int, range: Range|
            0 <= k < links.len() && #[trigger] is_reference_at(links[k], path, target, ts, index, range)
                ==> link_references(links, path, target, overlapping(ts, target), index).contains(range),
    decreases links.len(),
{
    let bad = overlapping(ts, target);
    let r = link_references(links, path, target, bad, index);
    if links.len() > 0 {
        let rest = links.drop_last();
        lemma_link_references_exact(rest, path, target, ts, index);
        let rr = link_references(rest, path, target, bad, index);
        let l = links.last();
        let n = links.len() - 1;
        assert(links[n] == l);
        match l {
            AnalyzedLink::Target { path: p, name, span } => {
                lemma_overlapping_prefix(ts, target, name@);
            },
            _ => {},
        }
        assert forall|j: int| #![trigger r[j]] 0 <= j < r.len() implies exists|k: int|
            0 <= k < links.len() && is_reference_at(#[trigger] links[k], path, target, ts, index, r[j]) by {
            if j < rr.len() {
                assert(r[j] == rr[j]);
                let k = choose|k: int|
                    0 <= k < rest.len() && is_reference_at(#[trigger] rest[k], path, target, ts, index, rr[j]);
                assert(links[k] == rest[k]);
            } else {
                assert(is_reference_at(links[n], path, target, ts, index, r[j]));
            }
        }
        assert forall|k: int, range: Range|
            0 <= k < links.len() && #[trigger] is_reference_at(links[k], path, target, ts, index, range)
                implies r.contains(range) by {
            if k < n {
                assert(links[k] == rest[k]);
                assert(is_reference_at(rest[k], path, target, ts, index, range));
                let w = choose|w: int| 0 <= w < rr.len() && rr[w] == range;
                assert(r[w] == rr[w]);
            } else {
                assert(r[rr.len() as int] == range);
            }
        }
    }
}

/// The fragment `L<line>,<column>`, counted from 1.
pub open spec fn target_fragment(line: u32, character: u32) -> Seq<u8> {
    seq![76u8] + decimal_text((line + 1) as nat) + seq![44u8] + decimal_text((character + 1) as nat)
}

/// Where the target named `name`, or its longest prefix, is declared
/// among the targets `file` declares: the start of its call; line 0,
/// column 0 when there is none.
pub open spec fn spec_target_position(file: ShallowFile, name: Seq<u8>) -> Position {
    let m = crate::items::scope_view(file.environment.spec_targets().locals_map());
    match crate::file::longest_key_prefix(m, name, name.len() as int) {
        Some(l) => spec_position(file.document.line_index@, m[name.take(l)].1.start as int),
        None => Position { line: 0, character: 0 },
    }
}

/// Where the target named `name` (or its longest prefix) is declared in
/// `file`.
pub fn target_position(file: &ShallowFile, name: &[u8]) -> (r: Position)
    ensures
        r == spec_target_position(*file, name@),
{
    let targets = file.environment.targets();
    match crate::file::find_target(&**targets, name) {
        Some(t) => file.document.line_index.position(t.call_span.start),
        None => Position { line: 0, character: 0 },
    }
}

/// The fragment `L<line>,<column>` (counted from 1) of where the target
/// named `name`, or its longest prefix, is declared in `file`.
pub fn target_link_fragment(file: &ShallowFile, name: &[u8]) -> (r: Vec<u8>)
    ensures
        r@ == target_fragment(spec_target_position(*file, name@).line, spec_target_position(*file, name@).character),
{
    let pos = target_position(file, name);
    let mut out: Vec<u8> = Vec::new();
    out.push(76u8);
    push_decimal(&mut out, pos.line as u64 + 1);
    out.push(44u8);
    push_decimal(&mut out, pos.character as u64 + 1);
    assert(out@ =~= target_fragment(pos.line, pos.character));
    out
}

} // verus!
