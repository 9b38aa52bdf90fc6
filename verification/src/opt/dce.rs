//! Dead code elimination: removes unreachable blocks and unused
//! instructions.
//!
//! It marks the blocks reachable from the entry block, clears the
//! others, then removes the instructions of reachable blocks whose
//! result nothing uses and that have no side effect.

use crate::function::{BasicBlock, IRFunction, same_header, successors_in_range};
use crate::instruction::{IRInst, IRInstKind, Label, is_terminator, is_terminator_kind};
use crate::opt::escape_analysis::kind_ids;
use crate::value::{IRValueId, contains_id};
use crate::BlockId;
use vstd::prelude::*;

verus! {

broadcast use vstd::seq::group_seq_axioms, vstd::std_specs::vec::group_vec_axioms,
    vstd::seq_lib::group_seq_properties;

// ── Reachability ──────────────────────────────────────────────────────────

/// The successor labels of each block: the edges of the control flow
/// graph.
pub open spec fn succ_lists(blocks: Seq<BasicBlock>) -> Seq<Seq<Label>> {
    Seq::new(blocks.len(), |i: int| blocks[i].successors@)
}

/// The index of the block named by successor `k` of block `i`.
pub open spec fn successor_index(succs: Seq<Seq<Label>>, i: int, k: int) -> int {
    succs[i][k].0 as int
}

/// Whether the marks `c` hold the entry block and, with every block they
/// hold, all of its successors.
pub open spec fn closed_set(succs: Seq<Seq<Label>>, entry: int, c: Seq<bool>) -> bool {
    &&& c.len() == succs.len()
    &&& c[entry]
    &&& forall|i: int, k: int|
        0 <= i < succs.len() && c[i] && 0 <= k < succs[i].len() ==> c[#[trigger] successor_index(succs, i, k)]
}

/// Whether block `i` is reachable from the entry block: every set of
/// marks closed under successors that holds the entry holds it.
pub open spec fn graph_reachable(succs: Seq<Seq<Label>>, entry: int, i: int) -> bool {
    forall|c: Seq<bool>| #[trigger] closed_set(succs, entry, c) ==> c[i]
}

/// The number of unset marks.
pub open spec fn count_false(s: Seq<bool>) -> nat
    decreases s.len(),
{
    if s.len() == 0 {
        0
    } else {
        count_false(s.drop_last()) + if s.last() { 0nat } else { 1nat }
    }
}

proof fn lemma_count_false_set(s: Seq<bool>, i: int)
    requires
        0 <= i < s.len(),
        !s[i],
    ensures
        count_false(s.update(i, true)) + 1 == count_false(s),
    decreases s.len(),
{
    if i == s.len() - 1 {
        assert(s.update(i, true).drop_last() =~= s.drop_last());
    } else {
        lemma_count_false_set(s.drop_last(), i);
        assert(s.update(i, true).drop_last() =~= s.drop_last().update(i, true));
    }
}

/// The marks of the blocks reachable from the entry block.
pub(crate) fn mark_reachable(func: &IRFunction) -> (r: Vec<bool>)
    requires
        func.wf(),
    ensures
        r@.len() == func.blocks@.len(),
        forall|i: int|
            0 <= i < r@.len() ==> #[trigger] r@[i] == graph_reachable(
                succ_lists(func.blocks@),
                func.entry_block.0 as int,
                i,
            ),
{
    let n = func.blocks.len();
    let ghost blocks = succ_lists(func.blocks@);
    let ghost entry = func.entry_block.0 as int;
    let mut reachable: Vec<bool> = Vec::new();
    let mut z: usize = 0;
    while z < n
        invariant
            z <= n,
            reachable@ == Seq::new(z as nat, |j: int| false),
        decreases n - z,
    {
        reachable.push(false);
        z = z + 1;
        proof {
            assert(reachable@ =~= Seq::new(z as nat, |j: int| false));
        }
    }
    let mut worklist: Vec<BlockId> = Vec::new();
    worklist.push(func.entry_block);
    proof {
        assert forall|c: Seq<bool>| #[trigger] closed_set(blocks, entry, c) implies (forall|i: int|
            0 <= i < n && reachable@[i] ==> c[i]) && (forall|j: int|
            0 <= j < worklist@.len() ==> c[worklist@[j].0 as int]) by {
            assert(worklist@[0] == func.entry_block);
        }
        assert(worklist@[0] == func.entry_block);
    }
    while worklist.len() > 0
        invariant
            func.wf(),
            blocks == succ_lists(func.blocks@),
            entry == func.entry_block.0 as int,
            n == blocks.len(),
            reachable@.len() == n,
            forall|j: int| 0 <= j < worklist@.len() ==> #[trigger] worklist@[j].0 < n,
            forall|c: Seq<bool>| #[trigger]
                closed_set(blocks, entry, c) ==> (forall|i: int|
                    0 <= i < n && reachable@[i] ==> c[i]) && (forall|j: int|
                    0 <= j < worklist@.len() ==> c[worklist@[j].0 as int]),
            reachable@[entry] || worklist@.contains(func.entry_block),
            forall|i: int, k: int|
                0 <= i < n && reachable@[i] && 0 <= k < blocks[i].len()
                    ==> reachable@[#[trigger] successor_index(blocks, i, k)] || worklist@.contains(
                    BlockId(successor_index(blocks, i, k) as usize),
                ),
        decreases count_false(reachable@), worklist@.len(),
    {
        let ghost wl_before = worklist@;
        let b = worklist.pop().unwrap();
        proof {
            assert(wl_before == worklist@.push(b));
            assert(b.0 < n) by {
                assert(wl_before[wl_before.len() - 1] == b);
            }
            assert forall|c: Seq<bool>| #[trigger] closed_set(blocks, entry, c) implies c[b.0 as int] by {
                assert(wl_before[wl_before.len() - 1] == b);
            }
        }
        if reachable[b.0] {
            proof {
                assert forall|i: int, k: int|
                    0 <= i < n && reachable@[i] && 0 <= k < blocks[i].len()
                        implies reachable@[#[trigger] successor_index(blocks, i, k)] || worklist@.contains(
                        BlockId(successor_index(blocks, i, k) as usize),
                    ) by {
                    let t = BlockId(successor_index(blocks, i, k) as usize);
                    assert(wl_before.contains(t) ==> (t == b || worklist@.contains(t)));
                }
                assert(wl_before.contains(func.entry_block) ==> (func.entry_block == b
                    || worklist@.contains(func.entry_block)));
            }
            continue;
        }
        let ghost r_before = reachable@;
        reachable.set(b.0, true);
        proof {
            lemma_count_false_set(r_before, b.0 as int);
            assert forall|i: int, k: int|
                0 <= i < n && reachable@[i] && i != b.0 && 0 <= k < blocks[i].len()
                    implies reachable@[#[trigger] successor_index(blocks, i, k)] || worklist@.contains(
                    BlockId(successor_index(blocks, i, k) as usize),
                ) by {
                let t = BlockId(successor_index(blocks, i, k) as usize);
                assert(r_before[i]);
                assert(wl_before.contains(t) ==> (t == b || worklist@.contains(t)));
                if t == b {
                    assert(successor_index(blocks, i, k) == b.0);
                }
            }
            assert(wl_before.contains(func.entry_block) ==> (func.entry_block == b
                || worklist@.contains(func.entry_block)));
        }
        let block = &func.blocks[b.0];
        let mut k: usize = 0;
        while k < block.successors.len()
            invariant
                func.wf(),
                blocks == succ_lists(func.blocks@),
                entry == func.entry_block.0 as int,
                n == blocks.len(),
                b.0 < n,
                block.successors@ == blocks[b.0 as int],
                reachable@.len() == n,
                reachable@[b.0 as int],
                count_false(reachable@) < count_false(r_before),
                k <= block.successors@.len(),
                forall|j: int| 0 <= j < worklist@.len() ==> #[trigger] worklist@[j].0 < n,
                forall|c: Seq<bool>| #[trigger]
                    closed_set(blocks, entry, c) ==> (forall|i: int|
                        0 <= i < n && reachable@[i] ==> c[i]) && (forall|j: int|
                        0 <= j < worklist@.len() ==> c[worklist@[j].0 as int]),
                reachable@[entry] || worklist@.contains(func.entry_block),
                forall|i: int, kk: int|
                    0 <= i < n && reachable@[i] && 0 <= kk < blocks[i].len() && (i
                        != b.0 || kk < k) ==> reachable@[#[trigger] successor_index(blocks, i, kk)]
                        || worklist@.contains(BlockId(successor_index(blocks, i, kk) as usize)),
            decreases block.successors@.len() - k,
        {
            let s = block.successors[k];
            proof {
                assert(successor_index(blocks, b.0 as int, k as int) == s.0);
            }
            if !reachable[s.0 as usize] {
                let ghost wl = worklist@;
                worklist.push(BlockId(s.0 as usize));
                proof {
                    assert forall|c: Seq<bool>| #[trigger] closed_set(blocks, entry, c) implies (forall|
                        j: int,
                    | 0 <= j < worklist@.len() ==> c[worklist@[j].0 as int]) by {
                        assert(c[successor_index(blocks, b.0 as int, k as int)]);
                        assert forall|j: int| 0 <= j < worklist@.len() implies c[worklist@[j].0 as int] by {
                            if j < wl.len() {
                                assert(worklist@[j] == wl[j]);
                            }
                        }
                    }
                    assert forall|x: BlockId| wl.contains(x) implies worklist@.contains(x) by {
                        assert(worklist@ == wl.push(BlockId(s.0 as usize)));
                    }
                    assert(worklist@.contains(BlockId(s.0 as usize))) by {
                        assert(worklist@[wl.len() as int] == BlockId(s.0 as usize));
                    }
                }
            }
            k = k + 1;
        }
    }
    proof {
        assert(closed_set(blocks, entry, reachable@));
        assert forall|i: int| 0 <= i < reachable@.len() implies #[trigger] reachable@[i]
            == graph_reachable(blocks, entry, i) by {
            if reachable@[i] {
                assert forall|c: Seq<bool>| #[trigger] closed_set(blocks, entry, c) implies c[i] by {}
            }
            if graph_reachable(blocks, entry, i) {
                assert(closed_set(blocks, entry, reachable@));
            }
        }
    }
    reachable
}


// ── Removing unreachable blocks ───────────────────────────────────────────

/// Whether a block is cleared: no instruction, no successor, and marked
/// unreachable; its label and predecessors stay.
pub open spec fn cleared_from(nb: BasicBlock, ob: BasicBlock) -> bool {
    &&& !nb.reachable
    &&& nb.instructions@.len() == 0
    &&& nb.successors@.len() == 0
    &&& nb.label == ob.label
    &&& nb.predecessors == ob.predecessors
}

/// Clears every block whose mark is unset and that is still marked
/// reachable; returns whether it cleared any.
pub(crate) fn remove_unreachable_blocks(func: &mut IRFunction, reachable: &Vec<bool>) -> (changed: bool)
    requires
        reachable@.len() == old(func).blocks@.len(),
    ensures
        same_header(*final(func), *old(func)),
        final(func).blocks@.len() == old(func).blocks@.len(),
        forall|i: int|
            0 <= i < old(func).blocks@.len() ==> if !reachable@[i] && old(func).blocks@[i].reachable {
                cleared_from(#[trigger] final(func).blocks@[i], old(func).blocks@[i])
            } else {
                final(func).blocks@[i] == old(func).blocks@[i]
            },
        changed == exists|i: int|
            0 <= i < old(func).blocks@.len() && !reachable@[i] && #[trigger] old(func).blocks@[i].reachable,
{
    let mut changed = false;
    let mut i: usize = 0;
    while i < reachable.len()
        invariant
            i <= reachable@.len() == old(func).blocks@.len() == func.blocks@.len(),
            same_header(*func, *old(func)),
            forall|j: int|
                0 <= j < old(func).blocks@.len() ==> if j < i && !reachable@[j] && old(func).blocks@[j].reachable {
                    cleared_from(#[trigger] func.blocks@[j], old(func).blocks@[j])
                } else {
                    func.blocks@[j] == old(func).blocks@[j]
                },
            changed == exists|j: int|
                0 <= j < i && !reachable@[j] && #[trigger] old(func).blocks@[j].reachable,
        decreases reachable@.len() - i,
    {
        if !reachable[i] && func.blocks[i].reachable {
            let mut blk = BasicBlock::new(func.blocks[i].label);
            std::mem::swap(&mut blk, &mut func.blocks[i]);
            blk.reachable = false;
            blk.instructions = Vec::new();
            blk.successors = Vec::new();
            std::mem::swap(&mut blk, &mut func.blocks[i]);
            changed = true;
        }
        i = i + 1;
    }
    changed
}

// ── Removing unused instructions ──────────────────────────────────────────

/// Whether an instruction counts as a use of value `v`: `v` is one of its
/// operands or is named in its kind's own fields (the value a `Ret`
/// returns, a message a `Send` sends, ...), or it is a terminator whose
/// result is `v`.
pub open spec fn inst_marks(inst: IRInst, v: IRValueId) -> bool {
    ||| inst.operands@.contains(v)
    ||| kind_ids(inst.kind).contains(v)
    ||| (is_terminator_kind(inst.kind) && inst.result == Some(v))
}

/// Appends a list of value IDs.
fn push_ids(used: &mut Vec<IRValueId>, ids: &Vec<IRValueId>)
    ensures
        final(used)@ == old(used)@ + ids@,
{
    let mut j: usize = 0;
    while j < ids.len()
        invariant
            j <= ids@.len(),
            used@ == old(used)@ + ids@.take(j as int),
        decreases ids@.len() - j,
    {
        used.push(ids[j]);
        j = j + 1;
        proof {
            assert(used@ =~= old(used)@ + ids@.take(j as int));
        }
    }
    assert(ids@.take(ids@.len() as int) =~= ids@);
}

/// Appends the value IDs that an instruction kind names in its own fields.
fn push_kind_ids(k: &IRInstKind, used: &mut Vec<IRValueId>)
    ensures
        final(used)@ == old(used)@ + kind_ids(*k),
{
    match k {
        IRInstKind::Load { base, .. } => used.push(*base),
        IRInstKind::Store { base, value, .. } => { used.push(*base); used.push(*value); },
        IRInstKind::TupleGet { tuple, .. } => used.push(*tuple),
        IRInstKind::TupleSet { tuple, value, .. } => { used.push(*tuple); used.push(*value); },
        IRInstKind::Push { value } => used.push(*value),
        IRInstKind::SetStackPtr { sp } => used.push(*sp),
        IRInstKind::SetReg { value, .. } => used.push(*value),
        IRInstKind::BrIf { cond, .. } => used.push(*cond),
        IRInstKind::Switch { value, .. } => used.push(*value),
        IRInstKind::Ret { value } => used.push(*value),
        IRInstKind::Call { func, args } => { used.push(*func); push_ids(used, args); },
        IRInstKind::TailCall { func, args } => { used.push(*func); push_ids(used, args); },
        IRInstKind::CallBif { module, function, args } => {
            used.push(*module);
            used.push(*function);
            push_ids(used, args);
        },
        IRInstKind::Throw { reason } => used.push(*reason),
        IRInstKind::Resume { exception } => used.push(*exception),
        IRInstKind::Send { dest, msg } => { used.push(*dest); used.push(*msg); },
        IRInstKind::SpawnActor { module, args, .. } => { used.push(*module); push_ids(used, args); },
        IRInstKind::SendTyped { target, msg, .. } => { used.push(*target); used.push(*msg); },
        IRInstKind::PromoteStable { object } => used.push(*object),
        IRInstKind::TensorOp { inputs, .. } => push_ids(used, inputs),
        IRInstKind::CapRelease { cap } => used.push(*cap),
        IRInstKind::CapTransfer { cap, new_owner } => { used.push(*cap); used.push(*new_owner); },
        IRInstKind::InferenceSubmit { model_id, input, .. } => { used.push(*model_id); used.push(*input); },
        IRInstKind::InferenceAwait { request } => used.push(*request),
        IRInstKind::ArenaAlloc { arena, .. } => used.push(*arena),
        IRInstKind::ArenaReset { arena } => used.push(*arena),
        IRInstKind::BinaryNew { data } => used.push(*data),
        IRInstKind::BinarySize { binary } => used.push(*binary),
        IRInstKind::BinaryExtract { binary, offset, size, .. } => {
            used.push(*binary);
            used.push(*offset);
            used.push(*size);
        },
        IRInstKind::MakeFun { module, function, fvs, .. } => {
            used.push(*module);
            used.push(*function);
            push_ids(used, fvs);
        },
        IRInstKind::Narrow { value, .. } => used.push(*value),
        _ => {},
    }
    assert(final(used)@ =~= old(used)@ + kind_ids(*k));
}

/// Whether some instruction of the sequence counts as a use of `v`.
pub open spec fn insts_mark(insts: Seq<IRInst>, v: IRValueId) -> bool
    decreases insts.len(),
{
    if insts.len() == 0 {
        false
    } else {
        insts_mark(insts.drop_last(), v) || inst_marks(insts.last(), v)
    }
}

/// Whether some instruction of a block marked reachable counts as a use
/// of `v`.
pub open spec fn blocks_mark(blocks: Seq<BasicBlock>, v: IRValueId) -> bool
    decreases blocks.len(),
{
    if blocks.len() == 0 {
        false
    } else {
        blocks_mark(blocks.drop_last(), v) || (blocks.last().reachable && insts_mark(
            blocks.last().instructions@,
            v,
        ))
    }
}

/// The instruction kinds with a side effect, which dead code
/// elimination keeps even when their result is unused.
pub open spec fn dce_effect_kind(k: IRInstKind) -> bool {
    ||| k is Alloc
    ||| k is Store
    ||| k is SetReg
    ||| k is SetStackPtr
    ||| k is Br
    ||| k is BrIf
    ||| k is Switch
    ||| k is Ret
    ||| k is Call
    ||| k is TailCall
    ||| k is CallBif
    ||| k is Throw
    ||| k is Catch
    ||| k is CatchPop
    ||| k is Send
    ||| k is Recv
    ||| k is GcSafe
    ||| k is ConsumeReductions
}

/// Whether an instruction kind has a side effect that keeps it alive.
fn has_side_effects(kind: &IRInstKind) -> (r: bool)
    ensures
        r == dce_effect_kind(*kind),
{
    match kind {
        IRInstKind::Alloc { .. } | IRInstKind::Store { .. } | IRInstKind::SetReg { .. }
        | IRInstKind::SetStackPtr { .. } | IRInstKind::Br { .. } | IRInstKind::BrIf { .. }
        | IRInstKind::Switch { .. } | IRInstKind::Ret { .. } | IRInstKind::Call { .. }
        | IRInstKind::TailCall { .. } | IRInstKind::CallBif { .. } | IRInstKind::Throw { .. }
        | IRInstKind::Catch { .. } | IRInstKind::CatchPop | IRInstKind::Send { .. }
        | IRInstKind::Recv { .. } | IRInstKind::GcSafe | IRInstKind::ConsumeReductions { .. } => true,
        _ => false,
    }
}

/// Whether dead code elimination keeps an instruction: it has no result,
/// or its result is used in `blocks`, or it has a side effect.
pub open spec fn keep_inst(inst: IRInst, blocks: Seq<BasicBlock>) -> bool {
    match inst.result {
        None => true,
        Some(r) => blocks_mark(blocks, r) || dce_effect_kind(inst.kind),
    }
}

/// The instructions that dead code elimination keeps, in order.
pub open spec fn kept(insts: Seq<IRInst>, blocks: Seq<BasicBlock>) -> Seq<IRInst>
    decreases insts.len(),
{
    if insts.len() == 0 {
        insts
    } else if keep_inst(insts.last(), blocks) {
        kept(insts.drop_last(), blocks).push(insts.last())
    } else {
        kept(insts.drop_last(), blocks)
    }
}

proof fn lemma_kept_len(insts: Seq<IRInst>, blocks: Seq<BasicBlock>)
    ensures
        kept(insts, blocks).len() <= insts.len(),
        kept(insts, blocks).len() == insts.len() <==> kept(insts, blocks) == insts,
    decreases insts.len(),
{
    if insts.len() > 0 {
        lemma_kept_len(insts.drop_last(), blocks);
        if keep_inst(insts.last(), blocks) {
            if kept(insts, blocks).len() == insts.len() {
                assert(insts =~= insts.drop_last().push(insts.last()));
            }
        }
    }
}

/// Adds the uses that one instruction counts for.
fn mark_inst(inst: &IRInst, used: &mut Vec<IRValueId>)
    ensures
        forall|v: IRValueId| #[trigger] final(used)@.contains(v) <==> old(used)@.contains(v) || inst_marks(*inst, v),
{
    let mut j: usize = 0;
    while j < inst.operands.len()
        invariant
            j <= inst.operands@.len(),
            forall|v: IRValueId| #[trigger] used@.contains(v) <==> old(used)@.contains(v) || inst.operands@.take(j as int).contains(v),
        decreases inst.operands@.len() - j,
    {
        let ghost u0 = used@;
        used.push(inst.operands[j]);
        proof {
            assert(inst.operands@.take(j + 1) == inst.operands@.take(j as int).push(inst.operands@[j as int]));
            assert forall|v: IRValueId| #[trigger] used@.contains(v) <==> old(used)@.contains(v) || inst.operands@.take(j + 1).contains(v) by {
                assert(used@ == u0.push(inst.operands@[j as int]));
            }
        }
        j = j + 1;
    }
    proof {
        assert(inst.operands@.take(inst.operands@.len() as int) == inst.operands@);
    }
    let ghost u1 = used@;
    push_kind_ids(&inst.kind, used);
    proof {
        assert forall|v: IRValueId| #[trigger] used@.contains(v) <==> u1.contains(v) || kind_ids(inst.kind).contains(v) by {
            if used@.contains(v) {
                let i = choose|i: int| 0 <= i < used@.len() && used@[i] == v;
                if i >= u1.len() {
                    assert(kind_ids(inst.kind)[i - u1.len()] == v);
                }
            }
            if kind_ids(inst.kind).contains(v) {
                let i = choose|i: int| 0 <= i < kind_ids(inst.kind).len() && kind_ids(inst.kind)[i] == v;
                assert(used@[u1.len() + i] == v);
            }
            if u1.contains(v) {
                let i = choose|i: int| 0 <= i < u1.len() && u1[i] == v;
                assert(used@[i] == v);
            }
        }
    }
    if is_terminator(&inst.kind) {
        if let Some(result) = inst.result {
            let ghost u0 = used@;
            used.push(result);
            proof {
                assert forall|v: IRValueId| #[trigger] used@.contains(v) <==> u0.contains(v) || v == result by {
                    assert(used@ == u0.push(result));
                }
            }
        }
    }
}

/// Adds the uses that a sequence of instructions counts for.
fn mark_insts(insts: &Vec<IRInst>, used: &mut Vec<IRValueId>)
    ensures
        forall|v: IRValueId| #[trigger] final(used)@.contains(v) <==> old(used)@.contains(v) || insts_mark(insts@, v),
{
    let mut k: usize = 0;
    while k < insts.len()
        invariant
            k <= insts@.len(),
            forall|v: IRValueId| #[trigger] used@.contains(v) <==> old(used)@.contains(v) || insts_mark(insts@.take(k as int), v),
        decreases insts@.len() - k,
    {
        mark_inst(&insts[k], used);
        proof {
            assert(insts@.take(k + 1).drop_last() == insts@.take(k as int));
            assert(insts@.take(k + 1).last() == insts@[k as int]);
        }
        k = k + 1;
    }
    proof {
        assert(insts@.take(insts@.len() as int) == insts@);
    }
}

/// The values that the instructions of blocks marked reachable use.
fn used_values(blocks: &Vec<BasicBlock>) -> (used: Vec<IRValueId>)
    ensures
        forall|v: IRValueId| #[trigger] used@.contains(v) <==> blocks_mark(blocks@, v),
{
    let mut used: Vec<IRValueId> = Vec::new();
    let mut b: usize = 0;
    while b < blocks.len()
        invariant
            b <= blocks@.len(),
            forall|v: IRValueId| #[trigger] used@.contains(v) <==> blocks_mark(blocks@.take(b as int), v),
        decreases blocks@.len() - b,
    {
        if blocks[b].reachable {
            mark_insts(&blocks[b].instructions, &mut used);
        }
        proof {
            assert(blocks@.take(b + 1).drop_last() == blocks@.take(b as int));
            assert(blocks@.take(b + 1).last() == blocks@[b as int]);
        }
        b = b + 1;
    }
    proof {
        assert(blocks@.take(blocks@.len() as int) == blocks@);
    }
    used
}

/// The instructions of a sequence that are kept, given the used values.
fn filter_kept(insts: Vec<IRInst>, used: &Vec<IRValueId>, Ghost(blocks): Ghost<Seq<BasicBlock>>) -> (r: Vec<IRInst>)
    requires
        forall|v: IRValueId| #[trigger] used@.contains(v) <==> blocks_mark(blocks, v),
    ensures
        r@ == kept(insts@, blocks),
{
    let ghost orig = insts@;
    let n = insts.len();
    let mut src = insts;
    assert(orig.skip(0) == orig);
    let mut out: Vec<IRInst> = Vec::new();
    let mut k: usize = 0;
    while src.len() > 0
        invariant
            k <= orig.len() <= usize::MAX,
            src@ == orig.skip(k as int),
            out@ == kept(orig.take(k as int), blocks),
            forall|v: IRValueId| #[trigger] used@.contains(v) <==> blocks_mark(blocks, v),
        decreases src@.len(),
    {
        let inst = src.remove(0);
        proof {
            assert(orig.take(k + 1).drop_last() == orig.take(k as int));
            assert(orig.take(k + 1).last() == inst);
            assert(src@ == orig.skip(k + 1));
        }
        let keep = match inst.result {
            None => true,
            Some(r) => contains_id(used, r) || has_side_effects(&inst.kind),
        };
        if keep {
            out.push(inst);
        }
        k = k + 1;
    }
    proof {
        assert(orig.take(orig.len() as int) == orig);
    }
    out
}

/// One sweep from `a` to `b`: every block keeps its place, label, edges
/// and flag, and each block marked reachable keeps exactly the
/// instructions that `kept` keeps, given the uses in `a`.
pub open spec fn sweep_once(a: Seq<BasicBlock>, b: Seq<BasicBlock>) -> bool {
    &&& b.len() == a.len()
    &&& forall|i: int|
        0 <= i < a.len() ==> {
            let ob = a[i];
            let nb = #[trigger] b[i];
            &&& nb.label == ob.label
            &&& nb.predecessors == ob.predecessors
            &&& nb.successors == ob.successors
            &&& nb.reachable == ob.reachable
            &&& ob.reachable ==> nb.instructions@ == kept(ob.instructions@, a)
            &&& !ob.reachable ==> nb.instructions == ob.instructions
        }
}

/// Whether no instruction of a block marked reachable is left to remove:
/// every result is used or its instruction has a side effect.
pub open spec fn no_unused(a: Seq<BasicBlock>) -> bool {
    forall|i: int| 0 <= i < a.len() && #[trigger] a[i].reachable ==> kept(a[i].instructions@, a) == a[i].instructions@
}

/// Whether `b` comes from `a` by sweeps repeated while one removes
/// something, so that in `b` nothing unused is left.
pub open spec fn swept_to_fixpoint(a: Seq<BasicBlock>, b: Seq<BasicBlock>) -> bool {
    exists|fs: Seq<Seq<BasicBlock>>|
        #![trigger fs.len(), fs[0]]
        {
            &&& fs.len() >= 1
            &&& fs[0] == a
            &&& fs.last() == b
            &&& forall|k: int| 0 <= k < fs.len() - 1 ==> #[trigger] sweep_once(fs[k], fs[k + 1]) && !no_unused(fs[k])
            &&& no_unused(b)
        }
}

/// The number of instructions in blocks marked reachable.
pub open spec fn live_insts(a: Seq<BasicBlock>) -> nat
    decreases a.len(),
{
    if a.len() == 0 {
        0
    } else {
        live_insts(a.drop_last()) + if a.last().reachable { a.last().instructions@.len() } else { 0 }
    }
}

proof fn lemma_live_insts_le(a: Seq<BasicBlock>, b: Seq<BasicBlock>)
    requires
        a.len() == b.len(),
        forall|i: int| 0 <= i < a.len() ==> #[trigger] b[i].reachable == a[i].reachable,
        forall|i: int| 0 <= i < a.len() && #[trigger] a[i].reachable ==> b[i].instructions@.len() <= a[i].instructions@.len(),
    ensures
        live_insts(b) <= live_insts(a),
        (exists|i: int| 0 <= i < a.len() && #[trigger] a[i].reachable && b[i].instructions@.len() < a[i].instructions@.len())
            ==> live_insts(b) < live_insts(a),
    decreases a.len(),
{
    if a.len() > 0 {
        let n = a.len() - 1;
        assert forall|i: int| 0 <= i < n implies #[trigger] b.drop_last()[i].reachable == a.drop_last()[i].reachable by {
            assert(b[i].reachable == a[i].reachable);
        }
        assert forall|i: int| 0 <= i < n && #[trigger] a.drop_last()[i].reachable implies b.drop_last()[i].instructions@.len() <= a.drop_last()[i].instructions@.len() by {
            assert(a[i].reachable);
        }
        lemma_live_insts_le(a.drop_last(), b.drop_last());
        assert(b[n].reachable == a[n].reachable);
        if exists|i: int| 0 <= i < a.len() && #[trigger] a[i].reachable && b[i].instructions@.len() < a[i].instructions@.len() {
            let i = choose|i: int| 0 <= i < a.len() && #[trigger] a[i].reachable && b[i].instructions@.len() < a[i].instructions@.len();
            if i < n {
                assert(a.drop_last()[i].reachable && b.drop_last()[i].instructions@.len() < a.drop_last()[i].instructions@.len());
            }
        }
    }
}

proof fn lemma_sweep_shrinks(a: Seq<BasicBlock>, b: Seq<BasicBlock>)
    requires
        sweep_once(a, b),
    ensures
        live_insts(b) <= live_insts(a),
        !no_unused(a) ==> live_insts(b) < live_insts(a),
{
    assert forall|i: int| 0 <= i < a.len() && #[trigger] a[i].reachable implies b[i].instructions@.len() <= a[i].instructions@.len() by {
        lemma_kept_len(a[i].instructions@, a);
    }
    assert forall|i: int| 0 <= i < a.len() implies #[trigger] b[i].reachable == a[i].reachable by {}
    if !no_unused(a) {
        let i = choose|i: int| 0 <= i < a.len() && #[trigger] a[i].reachable && kept(a[i].instructions@, a) != a[i].instructions@;
        lemma_kept_len(a[i].instructions@, a);
        assert(b[i].instructions@.len() < a[i].instructions@.len());
    }
    lemma_live_insts_le(a, b);
}

proof fn lemma_kept_all(insts: Seq<IRInst>, blocks: Seq<BasicBlock>)
    ensures
        kept(insts, blocks) == insts <==> forall|k: int| 0 <= k < insts.len() ==> #[trigger] keep_inst(insts[k], blocks),
    decreases insts.len(),
{
    lemma_kept_len(insts, blocks);
    if insts.len() > 0 {
        lemma_kept_all(insts.drop_last(), blocks);
        lemma_kept_len(insts.drop_last(), blocks);
        if forall|k: int| 0 <= k < insts.len() ==> #[trigger] keep_inst(insts[k], blocks) {
            assert forall|k: int| 0 <= k < insts.drop_last().len() implies #[trigger] keep_inst(insts.drop_last()[k], blocks) by {
                assert(keep_inst(insts[k], blocks));
            }
            assert(keep_inst(insts[insts.len() - 1], blocks));
            assert(insts =~= insts.drop_last().push(insts.last()));
        }
        if kept(insts, blocks) == insts {
            assert forall|k: int| 0 <= k < insts.len() implies #[trigger] keep_inst(insts[k], blocks) by {
                if !keep_inst(insts.last(), blocks) {
                    assert(false);
                }
                if k < insts.len() - 1 {
                    assert(kept(insts.drop_last(), blocks) == insts.drop_last()) by {
                        assert(kept(insts, blocks) == kept(insts.drop_last(), blocks).push(insts.last()));
                        assert(kept(insts.drop_last(), blocks) =~= kept(insts, blocks).drop_last());
                    }
                    assert(insts.drop_last()[k] == insts[k]);
                }
            }
        }
    }
}

/// Whether a sweep would remove an instruction of the sequence.
fn drops_some(insts: &Vec<IRInst>, used: &Vec<IRValueId>, Ghost(blocks): Ghost<Seq<BasicBlock>>) -> (r: bool)
    requires
        forall|v: IRValueId| #[trigger] used@.contains(v) <==> blocks_mark(blocks, v),
    ensures
        r == (kept(insts@, blocks) != insts@),
{
    proof {
        lemma_kept_all(insts@, blocks);
    }
    let mut k: usize = 0;
    while k < insts.len()
        invariant
            k <= insts@.len(),
            forall|v: IRValueId| #[trigger] used@.contains(v) <==> blocks_mark(blocks, v),
            forall|j: int| 0 <= j < k ==> #[trigger] keep_inst(insts@[j], blocks),
        decreases insts@.len() - k,
    {
        let keep = match insts[k].result {
            None => true,
            Some(r) => contains_id(used, r) || has_side_effects(&insts[k].kind),
        };
        assert(keep == keep_inst(insts@[k as int], blocks));
        if !keep {
            proof {
                lemma_kept_all(insts@, blocks);
                if kept(insts@, blocks) == insts@ {
                    assert(keep_inst(insts@[k as int], blocks));
                }
            }
            return true;
        }
        k = k + 1;
    }
    false
}

/// Removes, from the blocks marked reachable, the instructions whose
/// result is unused and that have no side effect, once; returns whether
/// it removed any.  A block from which nothing is removed is not touched.
fn sweep_unused(func: &mut IRFunction) -> (changed: bool)
    ensures
        same_header(*final(func), *old(func)),
        sweep_once(old(func).blocks@, final(func).blocks@),
        changed == !no_unused(old(func).blocks@),
        !changed ==> final(func).blocks@ == old(func).blocks@,
{
    let used = used_values(&func.blocks);
    let ghost blocks = old(func).blocks@;
    let mut changed = false;
    let mut i: usize = 0;
    while i < func.blocks.len()
        invariant
            i <= func.blocks@.len() == blocks.len(),
            blocks == old(func).blocks@,
            same_header(*func, *old(func)),
            forall|v: IRValueId| #[trigger] used@.contains(v) <==> blocks_mark(blocks, v),
            forall|j: int|
                0 <= j < blocks.len() ==> {
                    let ob = blocks[j];
                    let nb = #[trigger] func.blocks@[j];
                    if j < i && ob.reachable && kept(ob.instructions@, blocks) != ob.instructions@ {
                        &&& nb.label == ob.label
                        &&& nb.predecessors == ob.predecessors
                        &&& nb.successors == ob.successors
                        &&& nb.reachable == ob.reachable
                        &&& nb.instructions@ == kept(ob.instructions@, blocks)
                    } else {
                        nb == ob
                    }
                },
            changed == exists|j: int|
                0 <= j < i && #[trigger] blocks[j].reachable && kept(blocks[j].instructions@, blocks) != blocks[j].instructions@,
        decreases blocks.len() - i,
    {
        if func.blocks[i].reachable {
            let d = drops_some(&func.blocks[i].instructions, &used, Ghost(blocks));
            if d {
                let mut insts: Vec<IRInst> = Vec::new();
                std::mem::swap(&mut insts, &mut func.blocks[i].instructions);
                let mut kept_insts = filter_kept(insts, &used, Ghost(blocks));
                std::mem::swap(&mut kept_insts, &mut func.blocks[i].instructions);
                changed = true;
            }
        }
        i = i + 1;
    }
    proof {
        if !changed {
            assert(func.blocks@ =~= blocks);
        }
    }
    changed
}

/// Sweeps the blocks marked reachable again and again, while a sweep
/// removes something; returns whether the first one removed anything.
fn remove_unused_instructions(func: &mut IRFunction) -> (changed: bool)
    ensures
        same_header(*final(func), *old(func)),
        final(func).blocks@.len() == old(func).blocks@.len(),
        swept_to_fixpoint(old(func).blocks@, final(func).blocks@),
        changed == !no_unused(old(func).blocks@),
        forall|i: int|
            0 <= i < old(func).blocks@.len() ==> {
                let ob = old(func).blocks@[i];
                let nb = #[trigger] final(func).blocks@[i];
                &&& nb.label == ob.label
                &&& nb.predecessors == ob.predecessors
                &&& nb.successors == ob.successors
                &&& nb.reachable == ob.reachable
                &&& !ob.reachable ==> nb == ob
            },
{
    let ghost b0 = func.blocks@;
    let first = sweep_unused(func);
    let ghost mut fs: Seq<Seq<BasicBlock>> = if first { seq![b0, func.blocks@] } else { seq![b0] };
    proof {
        lemma_sweep_shrinks(b0, func.blocks@);
    }
    let mut again = first;
    while again
        invariant
            same_header(*func, *old(func)),
            func.blocks@.len() == b0.len(),
            b0 == old(func).blocks@,
            fs.len() >= 1,
            fs[0] == b0,
            forall|k: int| 0 <= k < fs.len() - 1 ==> #[trigger] sweep_once(fs[k], fs[k + 1]) && !no_unused(fs[k]),
            fs.last() == func.blocks@,
            !again ==> no_unused(func.blocks@),
            forall|i: int|
                0 <= i < b0.len() ==> {
                    let ob = b0[i];
                    let nb = #[trigger] func.blocks@[i];
                    &&& nb.label == ob.label
                    &&& nb.predecessors == ob.predecessors
                    &&& nb.successors == ob.successors
                    &&& nb.reachable == ob.reachable
                    &&& !ob.reachable ==> nb == ob
                },
        decreases live_insts(func.blocks@) + if again { 1nat } else { 0nat },
    {
        let ghost before = func.blocks@;
        again = sweep_unused(func);
        proof {
            lemma_sweep_shrinks(before, func.blocks@);
            assert forall|i: int| 0 <= i < b0.len() implies {
                let ob = b0[i];
                let nb = #[trigger] func.blocks@[i];
                &&& nb.label == ob.label
                &&& nb.predecessors == ob.predecessors
                &&& nb.successors == ob.successors
                &&& nb.reachable == ob.reachable
                &&& !ob.reachable ==> nb == ob
            } by {
                assert(before[i].reachable == b0[i].reachable);
                if !b0[i].reachable {
                    assert(func.blocks@[i].instructions == before[i].instructions);
                }
            }
            if again {
                let ghost fs0 = fs;
                fs = fs.push(func.blocks@);
                assert forall|k: int| 0 <= k < fs.len() - 1 implies #[trigger] sweep_once(fs[k], fs[k + 1]) && !no_unused(fs[k]) by {
                    if k < fs.len() - 2 {
                        assert(fs[k] == fs0[k]);
                        assert(fs[k + 1] == fs0[k + 1]);
                    }
                }
            }
        }
    }
    assert(swept_to_fixpoint(b0, func.blocks@));
    first
}


// ── The pass ──────────────────────────────────────────────────────────────

/// The first phase, from `old` to `mid`: a block that the entry cannot
/// reach is cleared unless it was already marked unreachable; every
/// other block stays as it is.
pub open spec fn unreachable_cleared(old: Seq<BasicBlock>, entry: int, mid: Seq<BasicBlock>) -> bool {
    &&& mid.len() == old.len()
    &&& forall|i: int|
        0 <= i < old.len() ==> if !graph_reachable(succ_lists(old), entry, i) && old[i].reachable {
            cleared_from(#[trigger] mid[i], old[i])
        } else {
            mid[i] == old[i]
        }
}

/// Dead code elimination keeps every block in its place with its label and
/// predecessors.  A block that the entry cannot reach is cleared, unless it
/// was already marked unreachable (then it stays as it is); a reachable
/// block keeps its successors and flag.  After clearing, the blocks marked
/// reachable are swept again and again until no instruction is left whose
/// result is unused and that has no side effect.  A change is reported
/// exactly when a block is newly found unreachable or the first sweep
/// removes an instruction.
pub open spec fn dce_post(old: IRFunction, new: IRFunction, changed: bool) -> bool {
    &&& same_header(new, old)
    &&& new.blocks@.len() == old.blocks@.len()
    &&& exists|mid: Seq<BasicBlock>|
        #![trigger unreachable_cleared(old.blocks@, old.entry_block.0 as int, mid)]
        {
            &&& unreachable_cleared(old.blocks@, old.entry_block.0 as int, mid)
            &&& swept_to_fixpoint(mid, new.blocks@)
            &&& forall|i: int|
                0 <= i < old.blocks@.len() ==> {
                    let nb = #[trigger] new.blocks@[i];
                    &&& nb.label == mid[i].label
                    &&& nb.predecessors == mid[i].predecessors
                    &&& nb.successors == mid[i].successors
                    &&& nb.reachable == mid[i].reachable
                    &&& !mid[i].reachable ==> nb == mid[i]
                }
            &&& changed == ((exists|i: int|
                0 <= i < old.blocks@.len() && !graph_reachable(
                    succ_lists(old.blocks@),
                    old.entry_block.0 as int,
                    i,
                ) && #[trigger] old.blocks@[i].reachable) || !no_unused(mid))
        }
}

/// Eliminates dead code: clears the blocks that the entry block cannot
/// reach (and that are still marked reachable), then removes from the
/// blocks marked reachable every instruction whose result no instruction
/// uses (as an operand or in its kind's own fields) and that has no side
/// effect, again and again until none is left.  Returns whether it
/// changed anything.
pub fn eliminate_dead_code(func: &mut IRFunction) -> (changed: bool)
    requires
        old(func).wf(),
    ensures
        dce_post(*old(func), *final(func), changed),
{
    let ghost ob = func.blocks@;
    let ghost entry = func.entry_block.0 as int;
    let reachable = mark_reachable(func);
    let c1 = remove_unreachable_blocks(func, &reachable);
    let ghost mid = func.blocks@;
    let c2 = remove_unused_instructions(func);
    proof {
        assert forall|i: int| 0 <= i < ob.len() implies if !graph_reachable(succ_lists(ob), entry, i) && ob[i].reachable {
            cleared_from(#[trigger] mid[i], ob[i])
        } else {
            mid[i] == ob[i]
        } by {
            assert(reachable@[i] == graph_reachable(succ_lists(ob), entry, i));
        }
        assert(unreachable_cleared(ob, entry, mid));
        assert(c1 == exists|i: int| 0 <= i < ob.len() && !graph_reachable(succ_lists(ob), entry, i) && #[trigger] ob[i].reachable) by {
            if c1 {
                let i = choose|i: int| 0 <= i < ob.len() && !reachable@[i] && #[trigger] ob[i].reachable;
                assert(reachable@[i] == graph_reachable(succ_lists(ob), entry, i));
            }
            if exists|i: int| 0 <= i < ob.len() && !graph_reachable(succ_lists(ob), entry, i) && #[trigger] ob[i].reachable {
                let i = choose|i: int| 0 <= i < ob.len() && !graph_reachable(succ_lists(ob), entry, i) && #[trigger] ob[i].reachable;
                assert(reachable@[i] == graph_reachable(succ_lists(ob), entry, i));
            }
        }
    }
    c1 || c2
}


proof fn lemma_sub_graph_reachable(a: Seq<BasicBlock>, b: Seq<BasicBlock>, entry: int)
    requires
        a.len() == b.len(),
        0 <= entry < a.len(),
        successors_in_range(a),
        forall|i: int|
            0 <= i < a.len() ==> #[trigger] b[i].successors@ == a[i].successors@ || (b[i].successors@.len() == 0
                && !graph_reachable(succ_lists(a), entry, i)),
    ensures
        forall|i: int| 0 <= i < a.len() ==> #[trigger] graph_reachable(succ_lists(b), entry, i) == graph_reachable(succ_lists(a), entry, i),
{
    let sa = succ_lists(a);
    let sb = succ_lists(b);
    assert forall|i: int| 0 <= i < a.len() implies #[trigger] graph_reachable(sb, entry, i) == graph_reachable(sa, entry, i) by {
        if graph_reachable(sb, entry, i) {
            assert forall|c: Seq<bool>| #[trigger] closed_set(sa, entry, c) implies c[i] by {
                assert forall|j: int, k: int| 0 <= j < sb.len() && c[j] && 0 <= k < sb[j].len() implies c[#[trigger] successor_index(sb, j, k)] by {
                    assert(b[j].successors@ == a[j].successors@);
                    assert(successor_index(sb, j, k) == successor_index(sa, j, k));
                }
                assert(closed_set(sb, entry, c));
            }
        }
        if graph_reachable(sa, entry, i) {
            assert forall|c: Seq<bool>| #[trigger] closed_set(sb, entry, c) implies c[i] by {
                let c2 = Seq::new(c.len(), |j: int| c[j] && graph_reachable(sa, entry, j));
                assert(graph_reachable(sa, entry, entry));
                assert forall|j: int, k: int| 0 <= j < sa.len() && c2[j] && 0 <= k < sa[j].len() implies c2[#[trigger] successor_index(sa, j, k)] by {
                    let t = successor_index(sa, j, k);
                    assert(a[j].successors@[k].0 < a.len());
                    assert(b[j].successors@ == a[j].successors@);
                    assert(successor_index(sb, j, k) == t);
                    assert forall|c3: Seq<bool>| #[trigger] closed_set(sa, entry, c3) implies c3[t] by {
                        assert(c3[j]);
                    }
                }
                assert(closed_set(sa, entry, c2));
                assert(c2[i]);
            }
        }
    }
}

proof fn lemma_fixpoint_holds(a: Seq<BasicBlock>, b: Seq<BasicBlock>)
    requires
        swept_to_fixpoint(a, b),
    ensures
        no_unused(b),
{
}

proof fn lemma_fixpoint_stays(a: Seq<BasicBlock>, b: Seq<BasicBlock>)
    requires
        swept_to_fixpoint(a, b),
        no_unused(a),
    ensures
        b == a,
{
    let fs = choose|fs: Seq<Seq<BasicBlock>>|
        #![trigger fs.len(), fs[0]]
        {
            &&& fs.len() >= 1
            &&& fs[0] == a
            &&& fs.last() == b
            &&& forall|k: int| 0 <= k < fs.len() - 1 ==> #[trigger] sweep_once(fs[k], fs[k + 1]) && !no_unused(fs[k])
            &&& no_unused(b)
        };
    if fs.len() > 1 {
        assert forall|k: int| 0 <= k < fs.len() - 1 implies !no_unused(#[trigger] fs[k]) by {
            assert(sweep_once(fs[k], fs[k + 1]) && !no_unused(fs[k]));
        }
        assert(!no_unused(fs[0]));
    }
}

/// An instruction that a list holds and that dead code elimination keeps
/// is still among the instructions kept.
proof fn lemma_kept_contains(insts: Seq<IRInst>, blocks: Seq<BasicBlock>, inst: IRInst)
    requires
        insts.contains(inst),
        keep_inst(inst, blocks),
    ensures
        kept(insts, blocks).contains(inst),
    decreases insts.len(),
{
    let p = insts.drop_last();
    if insts.last() == inst {
        let r = kept(insts, blocks);
        assert(r[r.len() - 1] == inst);
    } else {
        let j = choose|j: int| 0 <= j < insts.len() && insts[j] == inst;
        assert(j < insts.len() - 1);
        assert(p[j] == inst);
        lemma_kept_contains(p, blocks, inst);
        let k = kept(p, blocks);
        let m = choose|m: int| 0 <= m < k.len() && k[m] == inst;
        if keep_inst(insts.last(), blocks) {
            assert(kept(insts, blocks)[m] == inst);
        }
    }
}

/// Dead code elimination never removes an instruction with an effect from
/// a block that the entry reaches: every allocation, store, register or
/// stack pointer write, branch, switch, return, call (local, tail or to a
/// built-in function), throw, catch, send, receive, GC safepoint and
/// reduction count of such a block is still in it afterwards, whether or
/// not its result is used.
pub proof fn law_dce_keeps_effects(old: IRFunction, new: IRFunction, changed: bool, i: int, inst: IRInst)
    requires
        dce_post(old, new, changed),
        0 <= i < old.blocks@.len(),
        graph_reachable(succ_lists(old.blocks@), old.entry_block.0 as int, i),
        old.blocks@[i].instructions@.contains(inst),
        inst.kind is Alloc || inst.kind is Store || inst.kind is SetReg || inst.kind is SetStackPtr
            || inst.kind is Br || inst.kind is BrIf || inst.kind is Switch || inst.kind is Ret
            || inst.kind is Call || inst.kind is TailCall || inst.kind is CallBif || inst.kind is Throw
            || inst.kind is Catch || inst.kind is CatchPop || inst.kind is Send || inst.kind is Recv
            || inst.kind is GcSafe || inst.kind is ConsumeReductions,
    ensures
        new.blocks@[i].instructions@.contains(inst),
{
    let entry = old.entry_block.0 as int;
    let mid = choose|mid: Seq<BasicBlock>| #![trigger unreachable_cleared(old.blocks@, entry, mid)]
        {
            &&& unreachable_cleared(old.blocks@, entry, mid)
            &&& swept_to_fixpoint(mid, new.blocks@)
            &&& forall|i: int|
                0 <= i < old.blocks@.len() ==> {
                    let nb = #[trigger] new.blocks@[i];
                    &&& nb.label == mid[i].label
                    &&& nb.predecessors == mid[i].predecessors
                    &&& nb.successors == mid[i].successors
                    &&& nb.reachable == mid[i].reachable
                    &&& !mid[i].reachable ==> nb == mid[i]
                }
            &&& changed == ((exists|i: int|
                0 <= i < old.blocks@.len() && !graph_reachable(succ_lists(old.blocks@), entry, i)
                    && #[trigger] old.blocks@[i].reachable) || !no_unused(mid))
        };
    assert(mid[i] == old.blocks@[i]);
    let fs = choose|fs: Seq<Seq<BasicBlock>>|
        #![trigger fs.len(), fs[0]]
        {
            &&& fs.len() >= 1
            &&& fs[0] == mid
            &&& fs.last() == new.blocks@
            &&& forall|k: int| 0 <= k < fs.len() - 1 ==> #[trigger] sweep_once(fs[k], fs[k + 1]) && !no_unused(fs[k])
            &&& no_unused(new.blocks@)
        };
    assert(dce_effect_kind(inst.kind));
    lemma_sweeps_keep(fs, i, inst, 0);
}

/// Repeated sweeps keep an instruction with an effect.
proof fn lemma_sweeps_keep(fs: Seq<Seq<BasicBlock>>, i: int, inst: IRInst, k: int)
    requires
        0 <= k < fs.len(),
        forall|j: int| 0 <= j < fs.len() - 1 ==> #[trigger] sweep_once(fs[j], fs[j + 1]),
        0 <= i < fs[k].len(),
        dce_effect_kind(inst.kind),
        fs[k][i].instructions@.contains(inst),
    ensures
        fs.last()[i].instructions@.contains(inst),
    decreases fs.len() - k,
{
    if k < fs.len() - 1 {
        assert(sweep_once(fs[k], fs[k + 1]));
        let a = fs[k];
        let b = fs[k + 1];
        if a[i].reachable {
            assert(keep_inst(inst, a));
            lemma_kept_contains(a[i].instructions@, a, inst);
            assert(b[i].instructions@ == kept(a[i].instructions@, a));
        } else {
            assert(b[i].instructions == a[i].instructions);
        }
        assert(b.len() == a.len());
        assert(fs[k + 1][i].instructions@.contains(inst));
        lemma_sweeps_keep(fs, i, inst, k + 1);
    }
}

proof fn lemma_insts_mark_use(insts: Seq<IRInst>, j: int, v: IRValueId)
    requires
        0 <= j < insts.len(),
        insts[j].operands@.contains(v),
    ensures
        insts_mark(insts, v),
    decreases insts.len(),
{
    if j < insts.len() - 1 {
        assert(insts.drop_last()[j] == insts[j]);
        lemma_insts_mark_use(insts.drop_last(), j, v);
    }
}

proof fn lemma_blocks_mark_use(blocks: Seq<BasicBlock>, c: int, j: int, v: IRValueId)
    requires
        0 <= c < blocks.len(),
        blocks[c].reachable,
        0 <= j < blocks[c].instructions@.len(),
        blocks[c].instructions@[j].operands@.contains(v),
    ensures
        blocks_mark(blocks, v),
    decreases blocks.len(),
{
    if c < blocks.len() - 1 {
        assert(blocks.drop_last()[c] == blocks[c]);
        lemma_blocks_mark_use(blocks.drop_last(), c, j, v);
    } else {
        lemma_insts_mark_use(blocks[c].instructions@, j, v);
    }
}

/// A sweep of dead code elimination keeps, in each block marked reachable,
/// every instruction without a result and every instruction whose result
/// some instruction of a block marked reachable takes as an operand.
pub proof fn law_sweep_keeps_used(a: Seq<BasicBlock>, b: Seq<BasicBlock>, i: int, inst: IRInst, c: int, j: int)
    requires
        sweep_once(a, b),
        0 <= i < a.len(),
        a[i].reachable,
        a[i].instructions@.contains(inst),
        inst.result is None || (0 <= c < a.len() && a[c].reachable && 0 <= j < a[c].instructions@.len()
            && a[c].instructions@[j].operands@.contains(inst.result.unwrap())),
    ensures
        b[i].instructions@.contains(inst),
{
    if inst.result is Some {
        lemma_blocks_mark_use(a, c, j, inst.result.unwrap());
    }
    lemma_kept_contains(a[i].instructions@, a, inst);
}

/// Dead code elimination is idempotent: run again on what it produced, it
/// leaves the blocks as they are and reports no change.
pub proof fn law_dce_idempotent(f0: IRFunction, f1: IRFunction, c1: bool, f2: IRFunction, c2: bool)
    requires
        f0.wf(),
        dce_post(f0, f1, c1),
        dce_post(f1, f2, c2),
    ensures
        !c2,
        f2.blocks@ == f1.blocks@,
{
    let entry = f0.entry_block.0 as int;
    let mid1 = choose|mid: Seq<BasicBlock>| #![trigger unreachable_cleared(f0.blocks@, entry, mid)]
        {
            &&& unreachable_cleared(f0.blocks@, entry, mid)
            &&& swept_to_fixpoint(mid, f1.blocks@)
            &&& forall|i: int|
                0 <= i < f0.blocks@.len() ==> {
                    let nb = #[trigger] f1.blocks@[i];
                    &&& nb.label == mid[i].label
                    &&& nb.predecessors == mid[i].predecessors
                    &&& nb.successors == mid[i].successors
                    &&& nb.reachable == mid[i].reachable
                    &&& !mid[i].reachable ==> nb == mid[i]
                }
            &&& c1 == ((exists|i: int|
                0 <= i < f0.blocks@.len() && !graph_reachable(succ_lists(f0.blocks@), entry, i)
                    && #[trigger] f0.blocks@[i].reachable) || !no_unused(mid))
        };
    let mid2 = choose|mid: Seq<BasicBlock>| #![trigger unreachable_cleared(f1.blocks@, f1.entry_block.0 as int, mid)]
        {
            &&& unreachable_cleared(f1.blocks@, f1.entry_block.0 as int, mid)
            &&& swept_to_fixpoint(mid, f2.blocks@)
            &&& forall|i: int|
                0 <= i < f1.blocks@.len() ==> {
                    let nb = #[trigger] f2.blocks@[i];
                    &&& nb.label == mid[i].label
                    &&& nb.predecessors == mid[i].predecessors
                    &&& nb.successors == mid[i].successors
                    &&& nb.reachable == mid[i].reachable
                    &&& !mid[i].reachable ==> nb == mid[i]
                }
            &&& c2 == ((exists|i: int|
                0 <= i < f1.blocks@.len() && !graph_reachable(succ_lists(f1.blocks@), f1.entry_block.0 as int, i)
                    && #[trigger] f1.blocks@[i].reachable) || !no_unused(mid))
        };
    assert(swept_to_fixpoint(mid2, f2.blocks@));
    let a = f0.blocks@;
    let b = f1.blocks@;
    assert forall|i: int| 0 <= i < a.len() implies #[trigger] b[i].successors@ == a[i].successors@ || (b[i].successors@.len() == 0
        && !graph_reachable(succ_lists(a), entry, i)) by {
        assert(b[i].successors == mid1[i].successors);
        if !graph_reachable(succ_lists(a), entry, i) && a[i].reachable {
            assert(cleared_from(mid1[i], a[i]));
        } else {
            assert(mid1[i] == a[i]);
        }
    }
    lemma_sub_graph_reachable(a, b, entry);
    assert forall|i: int| 0 <= i < b.len() && !graph_reachable(succ_lists(b), entry, i) implies !#[trigger] b[i].reachable by {
        assert(b[i].reachable == mid1[i].reachable);
        if a[i].reachable {
            assert(cleared_from(mid1[i], a[i]));
        } else {
            assert(mid1[i] == a[i]);
        }
    }
    lemma_fixpoint_holds(mid1, b);
    assert(no_unused(b));
    assert forall|i: int| 0 <= i < b.len() implies mid2[i] == #[trigger] b[i] by {
        if !graph_reachable(succ_lists(b), entry, i) && b[i].reachable {
        }
    }
    assert(mid2 =~= b);
    lemma_fixpoint_stays(mid2, f2.blocks@);
}

} // verus!
