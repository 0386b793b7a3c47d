//! The `.gn` file at the root of a workspace, which names the build
//! configuration file.

use vstd::prelude::*;
use vstd::string::StringSliceAdditionalSpecFns;

use crate::ast::{AssignOp, Block, LValue, Statement};
use crate::error::{Error, IoErrorKind};
use crate::line_index::{spec_position, LineIndex};
use crate::parser::{
    lemma_same_shape_simple_string, lemma_statements_shape_index, lemma_wf_statements_index, parse, parsed, wf_block,
    wf_lvalue, wf_statement,
};
use crate::shape::{block_shape, expr_shape, lvalue_shape, statement_shape, statements_shape};
use crate::storage::bytes_eq;
use crate::storage::DocumentStorage;
use crate::workspace::{
    append_bytes, find_workspace_root, is_proper_ancestor, join, proper_ancestors, resolve_path, root_search,
    spec_join, spec_parent, spec_resolve_path, workspace_not_found,
    WorkspaceContext,
};

verus! {

/// `buildconfig`
pub open spec fn buildconfig_name() -> Seq<u8> {
    seq![98u8, 117u8, 105u8, 108u8, 100u8, 99u8, 111u8, 110u8, 102u8, 105u8, 103u8]
}

/// `.gn`
pub open spec fn dot_gn_file() -> Seq<u8> {
    seq![46u8, 103u8, 110u8]
}

/// What is wrong with the `buildconfig` assignments of a `.gn` file.
#[derive(Clone, Copy, Debug, PartialEq, Eq, Structural)]
pub enum DotGnProblem {
    /// Assigned with `+=` or `-=`.
    NotOnce,
    /// The value is not a string without `$` or `\\`.
    NotSimpleString,
    /// Assigned a second time.
    AssignedTwice,
    /// Not assigned at the top level.
    NotAssigned,
}

/// The statement assigns the identifier `buildconfig`.
pub open spec fn assigns_buildconfig(st: Statement) -> bool {
    st matches Statement::Assignment(a) && a.lvalue matches LValue::Identifier(id) && id.name@
        == buildconfig_name()
}

/// The build configuration the statements name, or the first problem with
/// them and the offset of the assignment where it lies (`NotAssigned` has
/// none: offset 0).
pub open spec fn scan_dot_gn(sts: Seq<Statement>, root: Seq<u8>, found: Option<Seq<u8>>) -> Result<
    Seq<u8>,
    (DotGnProblem, int),
>
    decreases sts.len(),
{
    if sts.len() == 0 {
        match found {
            Some(p) => Ok(p),
            None => Err((DotGnProblem::NotAssigned, 0)),
        }
    } else {
        let rest = sts.drop_first();
        match sts[0] {
            Statement::Assignment(a) => if assigns_buildconfig(sts[0]) {
                if a.op != AssignOp::Assign {
                    Err((DotGnProblem::NotOnce, a.span.start as int))
                } else {
                    match a.rvalue.spec_as_simple_string() {
                        None => Err((DotGnProblem::NotSimpleString, a.span.start as int)),
                        Some(name) => if found is Some {
                            Err((DotGnProblem::AssignedTwice, a.span.start as int))
                        } else {
                            scan_dot_gn(rest, root, Some(spec_resolve_path(name, root, root)))
                        },
                    }
                }
            } else {
                scan_dot_gn(rest, root, found)
            },
            _ => scan_dot_gn(rest, root, found),
        }
    }
}

/// Decimal digits of `n`.
pub open spec fn decimal_text(n: nat) -> Seq<u8>
    decreases n,
{
    if n < 10 {
        seq![(48 + n) as u8]
    } else {
        decimal_text(n / 10).push((48 + n % 10) as u8)
    }
}

/// The words of a problem.
pub open spec fn problem_text(p: DotGnProblem) -> Seq<u8> {
    match p {
        DotGnProblem::NotOnce => seq![98u8, 117u8, 105u8, 108u8, 100u8, 99u8, 111u8, 110u8, 102u8, 105u8, 103u8, 32u8, 109u8, 117u8, 115u8, 116u8, 32u8, 98u8, 101u8, 32u8, 97u8, 115u8, 115u8, 105u8, 103u8, 110u8, 101u8, 100u8, 32u8, 101u8, 120u8, 97u8, 99u8, 116u8, 108u8, 121u8, 32u8, 111u8, 110u8, 99u8, 101u8],
        DotGnProblem::NotSimpleString => seq![98u8, 117u8, 105u8, 108u8, 100u8, 99u8, 111u8, 110u8, 102u8, 105u8, 103u8, 32u8, 105u8, 115u8, 32u8, 110u8, 111u8, 116u8, 32u8, 97u8, 32u8, 115u8, 105u8, 109u8, 112u8, 108u8, 101u8, 32u8, 115u8, 116u8, 114u8, 105u8, 110u8, 103u8],
        DotGnProblem::AssignedTwice => seq![98u8, 117u8, 105u8, 108u8, 100u8, 99u8, 111u8, 110u8, 102u8, 105u8, 103u8, 32u8, 105u8, 115u8, 32u8, 97u8, 115u8, 115u8, 105u8, 103u8, 110u8, 101u8, 100u8, 32u8, 109u8, 117u8, 108u8, 116u8, 105u8, 112u8, 108u8, 101u8, 32u8, 116u8, 105u8, 109u8, 101u8, 115u8],
        DotGnProblem::NotAssigned => seq![98u8, 117u8, 105u8, 108u8, 100u8, 99u8, 111u8, 110u8, 102u8, 105u8, 103u8, 32u8, 105u8, 115u8, 32u8, 110u8, 111u8, 116u8, 32u8, 97u8, 115u8, 115u8, 105u8, 103u8, 110u8, 101u8, 100u8, 32u8, 100u8, 105u8, 114u8, 101u8, 99u8, 116u8, 108u8, 121u8],
    }
}

/// The message for a problem of the `.gn` file of `root` with text `src`:
/// `<root>/.gn:<line>:<column>: <words>`, lines and columns counted from 1
/// (without the place when `buildconfig` is not assigned).
pub open spec fn problem_message(root: Seq<u8>, src: Seq<u8>, p: DotGnProblem, offset: int) -> Seq<u8> {
    let file = spec_join(root, dot_gn_file());
    if p == DotGnProblem::NotAssigned {
        file + seq![58u8, 32u8] + problem_text(p)
    } else {
        let pos = spec_position(src, offset);
        file + seq![58u8] + decimal_text((pos.line + 1) as nat) + seq![58u8] + decimal_text((pos.character + 1) as nat)
            + seq![58u8, 32u8] + problem_text(p)
    }
}

/// What `evaluate_dot_gn` gives for the `.gn` file of `root` with text `src`
/// parsed as `ast`.
pub open spec fn spec_dot_gn(root: Seq<u8>, src: Seq<u8>, ast: Block) -> Result<Seq<u8>, Seq<u8>> {
    match scan_dot_gn(ast.statements@, root, None) {
        Ok(p) => Ok(p),
        Err((p, offset)) => Err(problem_message(root, src, p, offset)),
    }
}

/// What `evaluate_dot_gn` gives for the `.gn` file of `root` with text
/// `src`: `spec_dot_gn` of the tree that `src` parses to.
pub open spec fn dot_gn_of(root: Seq<u8>, src: Seq<u8>) -> Result<Seq<u8>, Seq<u8>> {
    spec_dot_gn(root, src, choose|ast: Block| wf_block(ast, src) && block_shape(ast) == parsed(src))
}

/// Trees of one text with one shape read the same `.gn` file.
proof fn lemma_scan_same_shape(a: Seq<Statement>, b: Seq<Statement>, s: Seq<u8>, root: Seq<u8>, found: Option<Seq<u8>>)
    requires
        a.len() == b.len(),
        forall|i: int| 0 <= i < a.len() ==> statement_shape(#[trigger] a[i]) == statement_shape(b[i]),
        forall|i: int| 0 <= i < a.len() ==> wf_statement(#[trigger] a[i], s),
        forall|i: int| 0 <= i < b.len() ==> wf_statement(#[trigger] b[i], s),
    ensures
        scan_dot_gn(a, root, found) == scan_dot_gn(b, root, found),
    decreases a.len(),
{
    if a.len() > 0 {
        let ra = a.drop_first();
        let rb = b.drop_first();
        assert forall|i: int| 0 <= i < ra.len() implies statement_shape(#[trigger] ra[i]) == statement_shape(rb[i]) by {
            assert(ra[i] == a[i + 1]);
            assert(rb[i] == b[i + 1]);
        }
        assert forall|i: int| 0 <= i < ra.len() implies wf_statement(#[trigger] ra[i], s) by {
            assert(ra[i] == a[i + 1]);
        }
        assert forall|i: int| 0 <= i < rb.len() implies wf_statement(#[trigger] rb[i], s) by {
            assert(rb[i] == b[i + 1]);
        }
        let x = a[0];
        let y = b[0];
        assert(statement_shape(x) == statement_shape(y));
        assert(wf_statement(x, s));
        assert(wf_statement(y, s));
        match x {
            Statement::Assignment(xa) => match y {
                Statement::Assignment(ya) => {
                    assert(lvalue_shape(xa.lvalue) == lvalue_shape(ya.lvalue));
                    assert(expr_shape(*xa.rvalue) == expr_shape(*ya.rvalue));
                    lemma_same_shape_simple_string(*xa.rvalue, *ya.rvalue, s);
                    match xa.lvalue {
                        LValue::Identifier(ix) => match ya.lvalue {
                            LValue::Identifier(iy) => {
                                assert(wf_lvalue(xa.lvalue, s));
                                assert(wf_lvalue(ya.lvalue, s));
                                assert(ix.name@ == iy.name@);
                            },
                            _ => {},
                        },
                        _ => match ya.lvalue {
                            LValue::Identifier(iy) => {},
                            _ => {},
                        },
                    }
                    assert(assigns_buildconfig(x) == assigns_buildconfig(y));
                    lemma_scan_same_shape(ra, rb, s, root, found);
                    match xa.rvalue.spec_as_simple_string() {
                        Some(name) => lemma_scan_same_shape(ra, rb, s, root, Some(spec_resolve_path(name, root, root))),
                        None => {},
                    }
                },
                _ => {},
            },
            _ => {
                match y {
                    Statement::Assignment(ya) => {},
                    _ => {},
                }
                lemma_scan_same_shape(ra, rb, s, root, found);
            },
        }
    }
}

/// What `spec_dot_gn` gives for the tree that `src` parses to.
proof fn lemma_dot_gn_of(root: Seq<u8>, src: Seq<u8>, ast: Block)
    requires
        wf_block(ast, src),
        block_shape(ast) == parsed(src),
    ensures
        dot_gn_of(root, src) == spec_dot_gn(root, src, ast),
{
    let c = choose|c: Block| wf_block(c, src) && block_shape(c) == parsed(src);
    assert(wf_block(c, src) && block_shape(c) == parsed(src));
    lemma_statements_shape_index(ast.statements@);
    lemma_statements_shape_index(c.statements@);
    lemma_wf_statements_index(ast.statements@, src);
    lemma_wf_statements_index(c.statements@, src);
    assert(statements_shape(ast.statements@) == statements_shape(c.statements@));
    assert forall|i: int| 0 <= i < ast.statements@.len() implies statement_shape(#[trigger] ast.statements@[i])
        == statement_shape(c.statements@[i]) by {
        assert(statements_shape(ast.statements@)[i] == statements_shape(c.statements@)[i]);
    }
    lemma_scan_same_shape(ast.statements@, c.statements@, src, root, None);
}

/// `st` assigns `buildconfig` once (with `=`) the string `name`, which has
/// no `$` and no backslash.
pub open spec fn sets_buildconfig(st: Statement, name: Seq<u8>) -> bool {
    &&& assigns_buildconfig(st)
    &&& st matches Statement::Assignment(a)
    &&& a.op == AssignOp::Assign
    &&& a.rvalue.spec_as_simple_string() == Some(name)
}

proof fn lemma_scan_found(sts: Seq<Statement>, root: Seq<u8>, q: Seq<u8>, p: Seq<u8>)
    ensures
        scan_dot_gn(sts, root, Some(q)) == Ok::<Seq<u8>, (DotGnProblem, int)>(p) <==> (p == q && forall|j: int|
            0 <= j < sts.len() ==> !assigns_buildconfig(#[trigger] sts[j])),
    decreases sts.len(),
{
    if sts.len() > 0 {
        let rest = sts.drop_first();
        lemma_scan_found(rest, root, q, p);
        assert forall|j: int| 0 <= j < rest.len() implies rest[j] == sts[j + 1] by {}
        if (forall|j: int| 0 <= j < sts.len() ==> !assigns_buildconfig(#[trigger] sts[j])) {
            assert(!assigns_buildconfig(sts[0]));
            assert forall|j: int| 0 <= j < rest.len() implies !assigns_buildconfig(#[trigger] rest[j]) by {
                assert(rest[j] == sts[j + 1]);
            }
        }
        if !assigns_buildconfig(sts[0]) && (forall|j: int| 0 <= j < rest.len() ==> !assigns_buildconfig(#[trigger] rest[j])) {
            assert forall|j: int| 0 <= j < sts.len() implies !assigns_buildconfig(#[trigger] sts[j]) by {
                if j > 0 {
                    assert(rest[j - 1] == sts[j]);
                }
            }
        }
    }
}

proof fn lemma_scan_none(sts: Seq<Statement>, root: Seq<u8>, p: Seq<u8>)
    ensures
        scan_dot_gn(sts, root, None) == Ok::<Seq<u8>, (DotGnProblem, int)>(p) <==> exists|i: int, name: Seq<u8>|
            0 <= i < sts.len() && #[trigger] sets_buildconfig(sts[i], name) && p == spec_resolve_path(name, root, root)
                && forall|j: int| 0 <= j < sts.len() && j != i ==> !assigns_buildconfig(#[trigger] sts[j]),
    decreases sts.len(),
{
    if sts.len() > 0 {
        let rest = sts.drop_first();
        lemma_scan_none(rest, root, p);
        let st = sts[0];
        if assigns_buildconfig(st) {
            match st {
                Statement::Assignment(a) => {
                    if a.op == AssignOp::Assign && a.rvalue.spec_as_simple_string() is Some {
                        let name = a.rvalue.spec_as_simple_string().unwrap();
                        let q = spec_resolve_path(name, root, root);
                        lemma_scan_found(rest, root, q, p);
                        assert(sets_buildconfig(st, name));
                        if scan_dot_gn(sts, root, None) == Ok::<Seq<u8>, (DotGnProblem, int)>(p) {
                            assert forall|j: int| 0 <= j < sts.len() && j != 0 implies !assigns_buildconfig(#[trigger] sts[j]) by {
                                assert(rest[j - 1] == sts[j]);
                            }
                        }
                        if exists|i: int, n: Seq<u8>|
                            0 <= i < sts.len() && #[trigger] sets_buildconfig(sts[i], n) && p == spec_resolve_path(n, root, root)
                                && forall|j: int| 0 <= j < sts.len() && j != i ==> !assigns_buildconfig(#[trigger] sts[j]) {
                            let (i, n) = choose|i: int, n: Seq<u8>|
                                0 <= i < sts.len() && #[trigger] sets_buildconfig(sts[i], n) && p == spec_resolve_path(n, root, root)
                                    && forall|j: int| 0 <= j < sts.len() && j != i ==> !assigns_buildconfig(#[trigger] sts[j]);
                            if i != 0 {
                                assert(!assigns_buildconfig(sts[0]));
                            }
                            assert forall|j: int| 0 <= j < rest.len() implies !assigns_buildconfig(#[trigger] rest[j]) by {
                                assert(rest[j] == sts[j + 1]);
                            }
                        }
                    } else {
                        assert forall|i: int, n: Seq<u8>|
                            0 <= i < sts.len() && #[trigger] sets_buildconfig(sts[i], n) implies exists|j: int|
                            0 <= j < sts.len() && j != i && assigns_buildconfig(#[trigger] sts[j]) by {
                            if i != 0 {
                                assert(assigns_buildconfig(sts[0]));
                            }
                        }
                    }
                },
                _ => {},
            }
        } else {
            if exists|i: int, n: Seq<u8>|
                0 <= i < sts.len() && #[trigger] sets_buildconfig(sts[i], n) && p == spec_resolve_path(n, root, root)
                    && forall|j: int| 0 <= j < sts.len() && j != i ==> !assigns_buildconfig(#[trigger] sts[j]) {
                let (i, n) = choose|i: int, n: Seq<u8>|
                    0 <= i < sts.len() && #[trigger] sets_buildconfig(sts[i], n) && p == spec_resolve_path(n, root, root)
                        && forall|j: int| 0 <= j < sts.len() && j != i ==> !assigns_buildconfig(#[trigger] sts[j]);
                assert(i != 0);
                assert(rest[i - 1] == sts[i]);
                assert(sets_buildconfig(rest[i - 1], n));
                assert forall|j: int| 0 <= j < rest.len() && j != i - 1 implies !assigns_buildconfig(#[trigger] rest[j]) by {
                    assert(rest[j] == sts[j + 1]);
                }
            }
            if exists|i: int, n: Seq<u8>|
                0 <= i < rest.len() && #[trigger] sets_buildconfig(rest[i], n) && p == spec_resolve_path(n, root, root)
                    && forall|j: int| 0 <= j < rest.len() && j != i ==> !assigns_buildconfig(#[trigger] rest[j]) {
                let (i, n) = choose|i: int, n: Seq<u8>|
                    0 <= i < rest.len() && #[trigger] sets_buildconfig(rest[i], n) && p == spec_resolve_path(n, root, root)
                        && forall|j: int| 0 <= j < rest.len() && j != i ==> !assigns_buildconfig(#[trigger] rest[j]);
                assert(sts[i + 1] == rest[i]);
                assert(sets_buildconfig(sts[i + 1], n));
                assert forall|j: int| 0 <= j < sts.len() && j != i + 1 implies !assigns_buildconfig(#[trigger] sts[j]) by {
                    if j > 0 {
                        assert(rest[j - 1] == sts[j]);
                    }
                }
            }
        }
    }
}

/// A `.gn` file names a build configuration exactly when one statement at
/// its top level assigns `buildconfig`, once, with `=`, a string without `$`
/// or backslashes, and no other statement there assigns it; the build
/// configuration is then that string resolved from the workspace root.
/// Every other text is an error.
pub proof fn lemma_dot_gn_names_one_buildconfig(root: Seq<u8>, src: Seq<u8>, ast: Block, p: Seq<u8>)
    requires
        wf_block(ast, src),
        block_shape(ast) == parsed(src),
    ensures
        dot_gn_of(root, src) == Ok::<Seq<u8>, Seq<u8>>(p) <==> exists|i: int, name: Seq<u8>|
            0 <= i < ast.statements@.len() && #[trigger] sets_buildconfig(ast.statements@[i], name) && p
                == spec_resolve_path(name, root, root) && forall|j: int|
                0 <= j < ast.statements@.len() && j != i ==> !assigns_buildconfig(#[trigger] ast.statements@[j]),
{
    lemma_dot_gn_of(root, src, ast);
    lemma_scan_none(ast.statements@, root, p);
}

/// The bytes of an optional byte vector.
pub open spec fn opt_bytes(o: Option<Vec<u8>>) -> Option<Seq<u8>> {
    match o {
        Some(v) => Some(v@),
        None => None,
    }
}

/// Appends the decimal digits of `n`.
pub(crate) fn push_decimal(out: &mut Vec<u8>, n: u64)
    ensures
        final(out)@ == old(out)@ + decimal_text(n as nat),
    decreases n,
{
    if n >= 10 {
        push_decimal(out, n / 10);
    }
    out.push((48 + n % 10) as u8);
    proof {
        if n < 10 {
            assert(n % 10 == n);
        }
    }
    assert(final(out)@ =~= old(out)@ + decimal_text(n as nat));
}

fn problem_words(p: DotGnProblem) -> (r: &'static [u8])
    ensures
        r@ == problem_text(p),
{
    let w: &[u8] = match p {
        DotGnProblem::NotOnce => &[98u8, 117u8, 105u8, 108u8, 100u8, 99u8, 111u8, 110u8, 102u8, 105u8, 103u8, 32u8, 109u8, 117u8, 115u8, 116u8, 32u8, 98u8, 101u8, 32u8, 97u8, 115u8, 115u8, 105u8, 103u8, 110u8, 101u8, 100u8, 32u8, 101u8, 120u8, 97u8, 99u8, 116u8, 108u8, 121u8, 32u8, 111u8, 110u8, 99u8, 101u8],
        DotGnProblem::NotSimpleString => &[98u8, 117u8, 105u8, 108u8, 100u8, 99u8, 111u8, 110u8, 102u8, 105u8, 103u8, 32u8, 105u8, 115u8, 32u8, 110u8, 111u8, 116u8, 32u8, 97u8, 32u8, 115u8, 105u8, 109u8, 112u8, 108u8, 101u8, 32u8, 115u8, 116u8, 114u8, 105u8, 110u8, 103u8],
        DotGnProblem::AssignedTwice => &[98u8, 117u8, 105u8, 108u8, 100u8, 99u8, 111u8, 110u8, 102u8, 105u8, 103u8, 32u8, 105u8, 115u8, 32u8, 97u8, 115u8, 115u8, 105u8, 103u8, 110u8, 101u8, 100u8, 32u8, 109u8, 117u8, 108u8, 116u8, 105u8, 112u8, 108u8, 101u8, 32u8, 116u8, 105u8, 109u8, 101u8, 115u8],
        DotGnProblem::NotAssigned => &[98u8, 117u8, 105u8, 108u8, 100u8, 99u8, 111u8, 110u8, 102u8, 105u8, 103u8, 32u8, 105u8, 115u8, 32u8, 110u8, 111u8, 116u8, 32u8, 97u8, 115u8, 115u8, 105u8, 103u8, 110u8, 101u8, 100u8, 32u8, 100u8, 105u8, 114u8, 101u8, 99u8, 116u8, 108u8, 121u8],
    };
    assert(w@ =~= problem_text(p));
    w
}

fn problem(root: &[u8], index: &LineIndex, p: DotGnProblem, offset: usize) -> (r: Error)
    ensures
        r matches Error::General(m) && m@ == problem_message(root@, index@, p, offset as int),
{
    let dot_gn: &[u8] = &[46u8, 103u8, 110u8];
    assert(dot_gn@ =~= dot_gn_file());
    let mut m = join(root, dot_gn);
    let ghost file = m@;
    if p == DotGnProblem::NotAssigned {
        m.push(58u8);
        m.push(32u8);
        append_bytes(&mut m, problem_words(p));
        assert(m@ =~= file + seq![58u8, 32u8] + problem_text(p));
    } else {
        let pos = index.position(offset);
        m.push(58u8);
        push_decimal(&mut m, pos.line as u64 + 1);
        m.push(58u8);
        push_decimal(&mut m, pos.character as u64 + 1);
        m.push(58u8);
        m.push(32u8);
        append_bytes(&mut m, problem_words(p));
        assert(m@ =~= file + seq![58u8] + decimal_text((pos.line + 1) as nat) + seq![58u8] + decimal_text(
            (pos.character + 1) as nat,
        ) + seq![58u8, 32u8] + problem_text(p));
    }
    Error::General(m)
}

fn fail(root: &[u8], src: &[u8], index: &LineIndex, p: DotGnProblem, offset: usize) -> (r: Result<Vec<u8>, Error>)
    requires
        index@ == src@,
    ensures
        r matches Err(Error::General(m)) && m@ == problem_message(root@, src@, p, offset as int),
{
    let e = problem(root, index, p, offset);
    let r: Result<Vec<u8>, Error> = Err(e);
    assert(e matches Error::General(x) && x@ == problem_message(root@, index@, p, offset as int));
    r
}

/// The build configuration file that the `.gn` file of `workspace_root`,
/// with text `input` parsed as `ast`, names; or the message of its first
/// problem.
pub fn build_config_of(workspace_root: &[u8], input: &[u8], ast: &Block, index: &LineIndex) -> (r: Result<
    Vec<u8>,
    Error,
>)
    requires
        index@ == input@,
    ensures
        match spec_dot_gn(workspace_root@, input@, *ast) {
            Ok(p) => r matches Ok(v) && v@ == p,
            Err(m) => r matches Err(Error::General(e)) && e@ == m,
        },
{
    let mut found: Option<Vec<u8>> = None;
    let n = ast.statements.len();
    let mut i: usize = 0;
    let ghost root = workspace_root@;
    assert(ast.statements@.skip(0) =~= ast.statements@);
    while i < n
        invariant
            n == ast.statements@.len(),
            i <= n,
            index@ == input@,
            root == workspace_root@,
            scan_dot_gn(ast.statements@, root, None) == scan_dot_gn(
                ast.statements@.skip(i as int),
                root,
                opt_bytes(found),
            ),
        decreases n - i,
    {
        let ghost rest = ast.statements@.skip(i as int);
        let ghost f = opt_bytes(found);
        assert(rest.drop_first() =~= ast.statements@.skip(i + 1));
        assert(rest[0] == ast.statements@[i as int]);
        if let Statement::Assignment(a) = &ast.statements[i] {
            let is_buildconfig = match &a.lvalue {
                LValue::Identifier(id) => {
                    let k: &[u8] = &[98u8, 117u8, 105u8, 108u8, 100u8, 99u8, 111u8, 110u8, 102u8, 105u8, 103u8];
                    assert(k@ =~= buildconfig_name());
                    bytes_eq(id.name.as_slice(), k)
                },
                _ => false,
            };
            assert(is_buildconfig == assigns_buildconfig(ast.statements@[i as int]));
            assert(rest[0] == Statement::Assignment(*a));
            if is_buildconfig {
                if a.op != AssignOp::Assign {
                    assert(scan_dot_gn(ast.statements@, root, None) == Err::<Seq<u8>, (DotGnProblem, int)>(
                        (DotGnProblem::NotOnce, a.span.start as int),
                    ));
                    assert(spec_dot_gn(root, input@, *ast) == Err::<Seq<u8>, Seq<u8>>(
                        problem_message(root, input@, DotGnProblem::NotOnce, a.span.start as int),
                    ));
                    return fail(workspace_root, input, index, DotGnProblem::NotOnce, a.span.start);
                }
                match a.rvalue.as_simple_string() {
                    None => {
                        assert(scan_dot_gn(ast.statements@, root, None) == Err::<Seq<u8>, (DotGnProblem, int)>(
                            (DotGnProblem::NotSimpleString, a.span.start as int),
                        ));
                        assert(spec_dot_gn(root, input@, *ast) == Err::<Seq<u8>, Seq<u8>>(
                        problem_message(root, input@, DotGnProblem::NotSimpleString, a.span.start as int),
                    ));
                    return fail(workspace_root, input, index, DotGnProblem::NotSimpleString, a.span.start);
                    },
                    Some(name) => {
                        if found.is_some() {
                            assert(scan_dot_gn(ast.statements@, root, None) == Err::<Seq<u8>, (DotGnProblem, int)>(
                                (DotGnProblem::AssignedTwice, a.span.start as int),
                            ));
                            assert(spec_dot_gn(root, input@, *ast) == Err::<Seq<u8>, Seq<u8>>(
                        problem_message(root, input@, DotGnProblem::AssignedTwice, a.span.start as int),
                    ));
                    return fail(workspace_root, input, index, DotGnProblem::AssignedTwice, a.span.start);
                        }
                        found = Some(resolve_path(name, workspace_root, workspace_root));
                        assert(scan_dot_gn(rest, root, f) == scan_dot_gn(rest.drop_first(), root, opt_bytes(found)));
                    },
                }
            } else {
                assert(scan_dot_gn(rest, root, f) == scan_dot_gn(rest.drop_first(), root, f));
            }
        } else {
            assert(scan_dot_gn(rest, root, f) == scan_dot_gn(rest.drop_first(), root, f));
        }
        i += 1;
    }
    assert(ast.statements@.skip(n as int) =~= Seq::<Statement>::empty());
    match found {
        Some(p) => Ok(p),
        None => fail(workspace_root, input, index, DotGnProblem::NotAssigned, 0),
    }
}

/// Reads the `.gn` file of `workspace_root`, with text `input`: the path of
/// the build configuration file it assigns to `buildconfig` (resolved from
/// the workspace root), or a message saying where it goes wrong.
pub fn evaluate_dot_gn(workspace_root: &[u8], input: &str) -> (r: Result<Vec<u8>, Error>)
    ensures
        match dot_gn_of(workspace_root@, input.spec_bytes()) {
            Ok(p) => r matches Ok(v) && v@ == p,
            Err(m) => r matches Err(Error::General(e)) && e@ == m,
        },
        exists|ast: Block|
            wf_block(ast, input.spec_bytes()) && match #[trigger] spec_dot_gn(workspace_root@, input.spec_bytes(), ast) {
                Ok(p) => r matches Ok(v) && v@ == p,
                Err(m) => r matches Err(Error::General(e)) && e@ == m,
            },
{
    let index = LineIndex::new(input);
    let ast = parse(input);
    let r = build_config_of(workspace_root, input.as_bytes(), &ast, &index);
    assert(wf_block(ast, input.spec_bytes()) && match spec_dot_gn(workspace_root@, input.spec_bytes(), ast) {
        Ok(p) => r matches Ok(v) && v@ == p,
        Err(m) => r matches Err(Error::General(e)) && e@ == m,
    });
    proof {
        lemma_dot_gn_of(workspace_root@, input.spec_bytes(), ast);
    }
    r
}

impl WorkspaceContext {
    /// The workspace whose root is `root`: the version of its `.gn` file and
    /// the build configuration that file names.
    pub fn for_root(root: &[u8], storage: &DocumentStorage) -> (r: Result<WorkspaceContext, Error>)
        ensures
            r matches Ok(ctx) ==> ctx.root@ == root@,
            r matches Ok(ctx) ==> (storage.entry(spec_join(root@, dot_gn_file())) matches Some(e)
                ==> ctx.dot_gn_version == e.1 && exists|ast: Block|
                wf_block(ast, vstd::utf8::encode_utf8(e.0)) && #[trigger] spec_dot_gn(
                    root@,
                    vstd::utf8::encode_utf8(e.0),
                    ast,
                ) == Ok::<Seq<u8>, Seq<u8>>(ctx.build_config@)),
            storage.entry(spec_join(root@, dot_gn_file())) matches Some(e) ==> match dot_gn_of(
                root@,
                vstd::utf8::encode_utf8(e.0),
            ) {
                Ok(p) => r matches Ok(ctx) && ctx.root@ == root@ && ctx.dot_gn_version == e.1 && ctx.build_config@ == p,
                Err(m) => r matches Err(Error::General(x)) && x@ == m,
            },
    {
        let dot_gn: &[u8] = &[46u8, 103u8, 110u8];
        assert(dot_gn@ =~= dot_gn_file());
        let dot_gn_path = join(root, dot_gn);
        let dot_gn_version = storage.read_version(dot_gn_path.as_slice())?;
        let document = storage.read(dot_gn_path.as_slice())?;
        let build_config = match evaluate_dot_gn(root, document.data.as_str()) {
            Ok(b) => b,
            Err(e) => return Err(e),
        };
        let root_copy = crate::workspace::copy_range(root, 0, root.len());
        assert(root_copy@ =~= root@);
        Ok(WorkspaceContext { root: root_copy, dot_gn_version, build_config })
    }

    /// The workspace of the file at `path`: the nearest strict ancestor
    /// holding a `.gn` file, that file's version, and the build
    /// configuration it names.
    pub fn find_for(path: &[u8], storage: &DocumentStorage) -> (r: Result<WorkspaceContext, Error>)
        ensures
            r matches Ok(ctx) ==> is_proper_ancestor(ctx.root@, path@),
            spec_parent(path@) is None ==> (r matches Err(e) && e.spec_is_not_found()),
            r matches Ok(ctx) ==> (storage.entry(spec_join(ctx.root@, dot_gn_file())) matches Some(e)
                ==> dot_gn_of(ctx.root@, vstd::utf8::encode_utf8(e.0)) == Ok::<Seq<u8>, Seq<u8>>(ctx.build_config@)),
            exists|answers: Seq<Result<bool, IoErrorKind>>|
                answers.len() == proper_ancestors(path@).len() && match #[trigger] root_search(
                    proper_ancestors(path@),
                    answers,
                ) {
                    Ok(d) => (r matches Ok(ctx) ==> ctx.root@ == d) && match storage.entry(spec_join(d, dot_gn_file())) {
                        Some(e) => match dot_gn_of(d, vstd::utf8::encode_utf8(e.0)) {
                            Ok(p) => r matches Ok(ctx) && ctx.root@ == d && ctx.dot_gn_version == e.1
                                && ctx.build_config@ == p,
                            Err(m) => r matches Err(Error::General(x)) && x@ == m,
                        },
                        None => true,
                    },
                    Err(Some(k)) => r == Err::<WorkspaceContext, Error>(Error::Io { kind: k }),
                    Err(None) => r matches Err(Error::NotFound(m)) && m@ == workspace_not_found(path@),
                },
            r matches Ok(ctx) ==> (storage.entry(spec_join(ctx.root@, dot_gn_file())) matches Some(e)
                ==> ctx.dot_gn_version == e.1 && exists|ast: Block|
                wf_block(ast, vstd::utf8::encode_utf8(e.0)) && #[trigger] spec_dot_gn(
                    ctx.root@,
                    vstd::utf8::encode_utf8(e.0),
                    ast,
                ) == Ok::<Seq<u8>, Seq<u8>>(ctx.build_config@)),
    {
        let found = find_workspace_root(path);
        let ghost answers = choose|answers: Seq<Result<bool, IoErrorKind>>|
            answers.len() == proper_ancestors(path@).len() && match #[trigger] root_search(
                proper_ancestors(path@),
                answers,
            ) {
                Ok(d) => found matches Ok(v) && v@ == d,
                Err(Some(k)) => found == Err::<Vec<u8>, Error>(Error::Io { kind: k }),
                Err(None) => found matches Err(Error::NotFound(m)) && m@ == workspace_not_found(path@),
            };
        let root = match found {
            Ok(root) => root,
            Err(e) => {
                assert(root_search(proper_ancestors(path@), answers) is Err);
                return Err(e);
            },
        };
        let r = WorkspaceContext::for_root(root.as_slice(), storage);
        assert(root_search(proper_ancestors(path@), answers) == Ok::<Seq<u8>, Option<IoErrorKind>>(root@));
        r
    }
}

} // verus!
