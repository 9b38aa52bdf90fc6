//! Tail call analysis: marks the calls in tail position.
//!
//! BEAM guarantees proper tail calls: a function's last action may call
//! another function without growing the stack.  A `Call` is in tail
//! position when only `Nop`s separate it from the block's terminator,
//! and that terminator is a `Ret`, a `Throw` or already a `TailCall`;
//! such a call becomes a `TailCall`, which code generation lowers to a
//! call that reuses the frame.  This is a local, single pass analysis.

use crate::function::{BasicBlock, IRFunction, same_header};
use crate::instruction::{IRInst, IRInstKind};
use vstd::prelude::*;

verus! {

broadcast use vstd::seq::group_seq_axioms, vstd::std_specs::vec::group_vec_axioms;

/// Scanning back from position `scan`, past `Nop`s: the index of the
/// `Call` found, if the first other instruction is one.
pub open spec fn scan_back(insts: Seq<IRInst>, scan: int) -> Option<int>
    decreases scan,
{
    if scan <= 0 {
        None
    } else if insts[scan - 1].kind is Nop {
        scan_back(insts, scan - 1)
    } else if insts[scan - 1].kind is Call {
        Some(scan - 1)
    } else {
        None
    }
}

/// Whether an instruction ends a function's work: `Ret`, `Throw` or
/// `TailCall`.  A branch leaves the rest of the work to another block.
pub open spec fn ends_function(kind: IRInstKind) -> bool {
    kind is Ret || kind is Throw || kind is TailCall
}

/// Whether an instruction ends a function's work.
fn is_function_end(kind: &IRInstKind) -> (r: bool)
    ensures
        r == ends_function(*kind),
{
    matches!(kind, IRInstKind::Ret { .. } | IRInstKind::Throw { .. } | IRInstKind::TailCall { .. })
}

/// The index of the call in tail position of a block: the block has at
/// least two instructions, ends with a `Ret`, `Throw` or `TailCall`, and
/// only `Nop`s stand between the call and that last instruction.
pub open spec fn tail_call_site(insts: Seq<IRInst>) -> Option<int> {
    if insts.len() < 2 || !ends_function(insts.last().kind) {
        None
    } else {
        scan_back(insts, insts.len() - 1)
    }
}

/// A call turned into a tail call to the same function with the same
/// arguments.
pub open spec fn as_tail_call(inst: IRInst) -> IRInst {
    match inst.kind {
        IRInstKind::Call { func, args } => IRInst { kind: IRInstKind::TailCall { func, args }, ..inst },
        _ => inst,
    }
}

/// The instructions of a block after the analysis.
pub open spec fn tail_converted(insts: Seq<IRInst>) -> Seq<IRInst> {
    match tail_call_site(insts) {
        Some(j) => insts.update(j, as_tail_call(insts[j])),
        None => insts,
    }
}

/// Converts the call in tail position of one block; returns whether
/// there was one.
fn analyze_block(block: &mut BasicBlock) -> (changed: bool)
    ensures
        final(block).instructions@ == tail_converted(old(block).instructions@),
        final(block).label == old(block).label,
        final(block).predecessors == old(block).predecessors,
        final(block).successors == old(block).successors,
        final(block).reachable == old(block).reachable,
        changed == tail_call_site(old(block).instructions@) is Some,
{
    let ghost insts = block.instructions@;
    let len = block.instructions.len();
    if len < 2 {
        return false;
    }
    let terminator_idx = len - 1;
    if !is_function_end(&block.instructions[terminator_idx].kind) {
        return false;
    }
    let mut scan = terminator_idx;
    while scan > 0
        invariant
            scan <= terminator_idx < len == insts.len(),
            block.instructions@ == insts,
            block.label == old(block).label,
            block.predecessors == old(block).predecessors,
            block.successors == old(block).successors,
            block.reachable == old(block).reachable,
            insts == old(block).instructions@,
            tail_call_site(insts) == scan_back(insts, scan as int),
        decreases scan,
    {
        let prev = scan - 1;
        if matches!(block.instructions[prev].kind, IRInstKind::Nop) {
            scan = scan - 1;
        } else if matches!(block.instructions[prev].kind, IRInstKind::Call { .. }) {
            let mut k = IRInstKind::Nop;
            std::mem::swap(&mut k, &mut block.instructions[prev].kind);
            match k {
                IRInstKind::Call { func, args } => {
                    block.instructions[prev].kind = IRInstKind::TailCall { func, args };
                },
                other => {
                    block.instructions[prev].kind = other;
                },
            }
            proof {
                assert(block.instructions@ =~= insts.update(prev as int, as_tail_call(insts[prev as int])));
            }
            return true;
        } else {
            return false;
        }
    }
    false
}

/// Tail call optimization rewrites, in each block marked reachable, the
/// call in tail position into a tail call (`tail_converted`) and touches
/// nothing else; a change is reported exactly when such a call exists.
pub open spec fn tail_call_post(old: IRFunction, new: IRFunction, changed: bool) -> bool {
    &&& same_header(new, old)
    &&& new.blocks@.len() == old.blocks@.len()
    &&& forall|i: int|
        0 <= i < old.blocks@.len() ==> {
            let ob = old.blocks@[i];
            let nb = #[trigger] new.blocks@[i];
            &&& nb.label == ob.label
            &&& nb.predecessors == ob.predecessors
            &&& nb.successors == ob.successors
            &&& nb.reachable == ob.reachable
            &&& ob.reachable ==> nb.instructions@ == tail_converted(ob.instructions@)
            &&& !ob.reachable ==> nb.instructions == ob.instructions
        }
    &&& changed == exists|i: int|
        0 <= i < old.blocks@.len() && #[trigger] old.blocks@[i].reachable
            && tail_call_site(old.blocks@[i].instructions@) is Some
}

/// Marks tail calls: in every block marked reachable with at least two
/// instructions that ends with a `Ret`, `Throw` or `TailCall`, a `Call`
/// separated from that last instruction by nothing but `Nop`s becomes a `TailCall` with the same
/// callee and arguments.  Returns whether it converted any.
pub fn analyze(func: &mut IRFunction) -> (changed: bool)
    ensures
        tail_call_post(*old(func), *final(func), changed),
{
    let ghost ob = func.blocks@;
    let mut changed = false;
    let mut idx: usize = 0;
    while idx < func.blocks.len()
        invariant
            idx <= func.blocks@.len() == ob.len(),
            ob == old(func).blocks@,
            same_header(*func, *old(func)),
            forall|j: int|
                0 <= j < ob.len() ==> {
                    let nb = #[trigger] func.blocks@[j];
                    &&& nb.label == ob[j].label
                    &&& nb.predecessors == ob[j].predecessors
                    &&& nb.successors == ob[j].successors
                    &&& nb.reachable == ob[j].reachable
                    &&& (j < idx && ob[j].reachable) ==> nb.instructions@ == tail_converted(ob[j].instructions@)
                    &&& !(j < idx && ob[j].reachable) ==> nb.instructions == ob[j].instructions
                },
            changed == exists|j: int|
                0 <= j < idx && #[trigger] ob[j].reachable && tail_call_site(ob[j].instructions@) is Some,
        decreases ob.len() - idx,
    {
        if func.blocks[idx].reachable {
            let c = analyze_block(&mut func.blocks[idx]);
            if c {
                changed = true;
            }
        }
        idx = idx + 1;
    }
    changed
}


proof fn lemma_scan_back_converted(insts: Seq<IRInst>, scan: int, j: int)
    requires
        0 <= scan <= insts.len(),
        scan_back(insts, scan) == Some(j),
    ensures
        0 <= j < scan,
        insts[j].kind is Call,
        scan_back(insts.update(j, as_tail_call(insts[j])), scan) is None,
    decreases scan,
{
    let u = insts.update(j, as_tail_call(insts[j]));
    if insts[scan - 1].kind is Nop {
        lemma_scan_back_converted(insts, scan - 1, j);
        assert(u[scan - 1] == insts[scan - 1]);
    } else {
        assert(j == scan - 1);
    }
}

proof fn lemma_converted_settled(insts: Seq<IRInst>)
    ensures
        tail_call_site(tail_converted(insts)) is None,
{
    if let Some(j) = tail_call_site(insts) {
        lemma_scan_back_converted(insts, insts.len() - 1, j);
        let u = tail_converted(insts);
        assert(u.last() == insts.last());
    }
}

/// Tail call analysis is idempotent: run again on what it produced, it
/// finds no call left in tail position, reports no change and leaves
/// every block's instructions as they are.
pub proof fn law_tail_call_idempotent(f0: IRFunction, f1: IRFunction, c1: bool, f2: IRFunction, c2: bool)
    requires
        tail_call_post(f0, f1, c1),
        tail_call_post(f1, f2, c2),
    ensures
        !c2,
        f2.blocks@.len() == f1.blocks@.len(),
        forall|i: int| 0 <= i < f1.blocks@.len() ==> (#[trigger] f2.blocks@[i]).instructions@ == f1.blocks@[i].instructions@,
{
    assert forall|i: int| 0 <= i < f1.blocks@.len() && #[trigger] f1.blocks@[i].reachable implies tail_call_site(
        f1.blocks@[i].instructions@,
    ) is None by {
        assert(f0.blocks@[i].reachable);
        lemma_converted_settled(f0.blocks@[i].instructions@);
    }
    assert forall|i: int| 0 <= i < f1.blocks@.len() implies (#[trigger] f2.blocks@[i]).instructions@
        == f1.blocks@[i].instructions@ by {
        if f1.blocks@[i].reachable {
            assert(tail_call_site(f1.blocks@[i].instructions@) is None);
        }
    }
}

} // verus!
