//! The statements of a block that act at its own level: its statements, and
//! those inside the blocks of conditions, `declare_args` and `foreach`,
//! which open no scope of their own.

use vstd::prelude::*;

use crate::ast::{derefs, Block, Call, Condition, ElseBlock, Statement};
use crate::builtins::{declare_args_name, foreach_name, is_declare_args, is_foreach};

verus! {

/// A call whose block belongs to the enclosing scope.
pub open spec fn opens_no_scope(c: Call) -> bool {
    (c.function.name@ == declare_args_name() || c.function.name@ == foreach_name()) && c.block is Some
}

/// Each statement followed by the statements at the same level inside it,
/// in pre-order.
pub open spec fn top_level(sts: Seq<Statement>) -> Seq<Statement>
    decreases sts, 1nat,
{
    if sts.len() == 0 {
        seq![]
    } else {
        seq![sts[0]] + inner_level(sts[0]) + top_level(sts.drop_first())
    }
}

/// The statements at the level of `st` inside it.
pub open spec fn inner_level(st: Statement) -> Seq<Statement>
    decreases st, 0nat,
{
    match st {
        Statement::Condition(c) => condition_level(*c),
        Statement::Call(c) => if opens_no_scope(*c) {
            top_level(c.block.unwrap().statements@)
        } else {
            seq![]
        },
        _ => seq![],
    }
}

/// The statements of the blocks of a condition and of its `else` chain.
pub open spec fn condition_level(c: Condition) -> Seq<Statement>
    decreases c, 0nat,
{
    top_level(c.then_block.statements@) + match c.else_block {
        None => seq![],
        Some(ElseBlock::Condition(next)) => condition_level(*next),
        Some(ElseBlock::Block(b)) => top_level(b.statements@),
    }
}

fn collect_statements<'a>(sts: &'a Vec<Statement>, out: &mut Vec<&'a Statement>)
    ensures
        derefs(final(out)@) == derefs(old(out)@) + top_level(sts@),
    decreases sts@, 1nat,
{
    let n = sts.len();
    let mut i: usize = 0;
    assert(sts@.skip(0) =~= sts@);
    while i < n
        invariant
            n == sts@.len(),
            i <= n,
            derefs(old(out)@) + top_level(sts@) == derefs(out@) + top_level(sts@.skip(i as int)),
        decreases n - i,
    {
        let ghost rest = sts@.skip(i as int);
        let ghost before = derefs(out@);
        assert(rest[0] == sts@[i as int]);
        assert(rest.drop_first() =~= sts@.skip(i + 1));
        proof {
            assert(decreases_to!(sts@ => sts@[i as int]));
        }
        let ghost mid = out@;
        out.push(&sts[i]);
        assert(derefs(out@) =~= derefs(mid).push(sts@[i as int]));
        let ghost pushed = derefs(out@);
        collect_inner(&sts[i], out);
        assert(derefs(out@) + top_level(rest.drop_first()) =~= before + top_level(rest)) by {
            assert(top_level(rest) == seq![rest[0]] + inner_level(rest[0]) + top_level(rest.drop_first()));
            assert(pushed =~= before + seq![rest[0]]);
        }
        i += 1;
    }
    assert(top_level(sts@.skip(n as int)) =~= Seq::<Statement>::empty());
    assert(derefs(out@) + Seq::<Statement>::empty() =~= derefs(out@));
}

fn collect_inner<'a>(st: &'a Statement, out: &mut Vec<&'a Statement>)
    ensures
        derefs(final(out)@) == derefs(old(out)@) + inner_level(*st),
    decreases *st, 0nat,
{
    match st {
        Statement::Condition(c) => collect_condition(c, out),
        Statement::Call(c) => {
            let flat = is_declare_args(c.function.name.as_slice()) || is_foreach(c.function.name.as_slice());
            match &c.block {
                Some(b) => {
                    if flat {
                        collect_statements(&b.statements, out);
                    } else {
                        assert(derefs(out@) + Seq::<Statement>::empty() =~= derefs(out@));
                    }
                },
                None => {
                    assert(derefs(out@) + Seq::<Statement>::empty() =~= derefs(out@));
                },
            }
        },
        _ => {
            assert(derefs(out@) + Seq::<Statement>::empty() =~= derefs(out@));
        },
    }
}

fn collect_condition<'a>(c: &'a Condition, out: &mut Vec<&'a Statement>)
    ensures
        derefs(final(out)@) == derefs(old(out)@) + condition_level(*c),
    decreases *c, 0nat,
{
    let ghost start = derefs(out@);
    collect_statements(&c.then_block.statements, out);
    let ghost mid = derefs(out@);
    match &c.else_block {
        None => {
            assert(derefs(out@) =~= start + condition_level(*c));
        },
        Some(ElseBlock::Condition(next)) => {
            collect_condition(next, out);
            assert(derefs(out@) =~= start + condition_level(*c));
        },
        Some(ElseBlock::Block(b)) => {
            collect_statements(&b.statements, out);
            assert(derefs(out@) =~= start + condition_level(*c));
        },
    }
}

/// The statements acting at the level of `block`, in pre-order.
pub fn top_level_statements(block: &Block) -> (r: Vec<&Statement>)
    ensures
        derefs(r@) == top_level(block.statements@),
{
    let mut out: Vec<&Statement> = Vec::new();
    assert(derefs(out@) =~= Seq::<Statement>::empty());
    collect_statements(&block.statements, &mut out);
    assert(Seq::<Statement>::empty() + top_level(block.statements@) =~= top_level(block.statements@));
    out
}

} // verus!
