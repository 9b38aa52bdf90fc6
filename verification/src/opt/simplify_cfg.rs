//! Control flow graph simplification.
//!
//! The pass removes unconditional branches to the next block
//! (fall-through), merges a block into its only predecessor when that
//! predecessor has it as only successor, and clears the blocks that the
//! entry block no longer reaches.

use crate::function::{BasicBlock, BlockV, IRFunction, blocks_view, same_header, successors_in_range};
use crate::instruction::{IRInst, IRInstKind, Label};
use crate::opt::dce::{cleared_from, graph_reachable, mark_reachable, remove_unreachable_blocks, succ_lists};
use vstd::prelude::*;

verus! {

broadcast use vstd::seq::group_seq_axioms, vstd::std_specs::vec::group_vec_axioms,
    vstd::seq_lib::group_seq_properties;

// ── Fall-through branches ─────────────────────────────────────────────────

/// The labels of a sequence other than `t`, in order.
pub open spec fn without_label(s: Seq<Label>, t: Label) -> Seq<Label>
    decreases s.len(),
{
    if s.len() == 0 {
        s
    } else if s.last() == t {
        without_label(s.drop_last(), t)
    } else {
        without_label(s.drop_last(), t).push(s.last())
    }
}

/// The target of a block's final unconditional branch to the block
/// labelled next after it, if it ends with one.
pub open spec fn fallthrough_target(b: BlockV) -> Option<Label> {
    if b.reachable && b.instructions.len() > 0 {
        match b.instructions.last().kind {
            IRInstKind::Br { target } => if target.0 == b.label.0 + 1 {
                Some(target)
            } else {
                None
            },
            _ => None,
        }
    } else {
        None
    }
}

/// A block without its fall-through branch: the branch is dropped and
/// its target leaves the successors.
pub open spec fn drop_fallthrough(b: BlockV) -> BlockV {
    match fallthrough_target(b) {
        Some(t) => BlockV {
            instructions: b.instructions.drop_last(),
            successors: without_label(b.successors, t),
            ..b
        },
        None => b,
    }
}

/// Taking a label out of a list keeps every other label and drops it.
proof fn lemma_without_label_contains(s: Seq<Label>, t: Label, l: Label)
    ensures
        without_label(s, t).contains(l) == (s.contains(l) && l != t),
    decreases s.len(),
{
    if s.len() > 0 {
        let p = s.drop_last();
        lemma_without_label_contains(p, t, l);
        let w = without_label(p, t);
        if s.contains(l) && l != t {
            let j = choose|j: int| 0 <= j < s.len() && s[j] == l;
            if j < s.len() - 1 {
                assert(p[j] == l);
                let m = choose|m: int| 0 <= m < w.len() && w[m] == l;
                if s.last() != t {
                    assert(w.push(s.last())[m] == l);
                }
            } else {
                assert(w.push(s.last())[w.len() as int] == l);
            }
        }
        if without_label(s, t).contains(l) {
            let r = without_label(s, t);
            let m = choose|m: int| 0 <= m < r.len() && r[m] == l;
            if s.last() != t && m == w.len() {
                assert(s[s.len() - 1] == l);
            } else {
                assert(w[m] == l);
                let j = choose|j: int| 0 <= j < p.len() && p[j] == l;
                assert(s[j] == l);
            }
        }
    }
}

/// Removing fall-through branches drops exactly the final unconditional
/// branch of a block marked reachable to the block labelled right after
/// it, and takes that label out of its successors (keeping the others);
/// a block that does not end with such a branch, in particular one whose
/// final branch goes to any other label, is left as it is.
pub proof fn law_fallthrough_next_block_only(bs: Seq<BlockV>, i: int, l: Label)
    requires
        0 <= i < bs.len(),
    ensures
        ({
            let b = bs[i];
            let n = after_fallthrough(bs)[i];
            let falls = b.reachable && b.instructions.len() > 0 && match b.instructions.last().kind {
                IRInstKind::Br { target } => target.0 == b.label.0 + 1,
                _ => false,
            };
            &&& falls ==> {
                &&& n.instructions == b.instructions.drop_last()
                &&& n.label == b.label
                &&& n.predecessors == b.predecessors
                &&& n.reachable == b.reachable
                &&& n.successors.contains(l) == (b.successors.contains(l) && l.0 != b.label.0 + 1)
            }
            &&& !falls ==> n == b
        }),
{
    let b = bs[i];
    if let Some(t) = fallthrough_target(b) {
        lemma_without_label_contains(b.successors, t, l);
    }
}

/// Whether the label of a block that ends with an unconditional branch
/// has a successor label.
pub open spec fn labels_fit(blocks: Seq<BasicBlock>) -> bool {
    forall|i: int|
        0 <= i < blocks.len() && #[trigger] blocks[i].reachable && blocks[i].instructions@.len() > 0
            && blocks[i].instructions@.last().kind is Br ==> blocks[i].label.0 < u32::MAX
}

proof fn lemma_without_label_sub(s: Seq<Label>, t: Label, n: nat)
    requires
        forall|k: int| 0 <= k < s.len() ==> (#[trigger] s[k]).0 < n,
    ensures
        forall|k: int| 0 <= k < without_label(s, t).len() ==> (#[trigger] without_label(s, t)[k]).0 < n,
    decreases s.len(),
{
    if s.len() > 0 {
        lemma_without_label_sub(s.drop_last(), t, n);
        assert(s.last() == s[s.len() - 1]);
        assert forall|k: int| 0 <= k < s.drop_last().len() implies (#[trigger] s.drop_last()[k]).0 < n by {
            assert(s.drop_last()[k] == s[k]);
        }
        lemma_without_label_sub(s.drop_last(), t, n);
        let w = without_label(s.drop_last(), t);
        if s.last() != t {
            assert forall|k: int| 0 <= k < w.push(s.last()).len() implies (#[trigger] w.push(s.last())[k]).0 < n by {
                if k < w.len() {
                    assert(w.push(s.last())[k] == w[k]);
                }
            }
        }
    }
}

/// Removes from every block marked reachable its final branch to the
/// next block; returns whether it removed any.
fn eliminate_fallthrough_branches(func: &mut IRFunction) -> (changed: bool)
    requires
        labels_fit(old(func).blocks@),
    ensures
        same_header(*final(func), *old(func)),
        blocks_view(final(func).blocks@) == blocks_view(old(func).blocks@).map_values(
            |b: BlockV| drop_fallthrough(b),
        ),
        changed == exists|i: int|
            0 <= i < old(func).blocks@.len() && (#[trigger] fallthrough_target(old(func).blocks@[i]@)) is Some,
        successors_in_range(old(func).blocks@) ==> successors_in_range(final(func).blocks@),
{
    let ghost ob = func.blocks@;
    let mut changed = false;
    let mut i: usize = 0;
    while i < func.blocks.len()
        invariant
            i <= func.blocks@.len() == ob.len(),
            ob == old(func).blocks@,
            labels_fit(ob),
            same_header(*func, *old(func)),
            forall|j: int|
                0 <= j < ob.len() ==> (#[trigger] func.blocks@[j])@ == if j < i {
                    drop_fallthrough(ob[j]@)
                } else {
                    ob[j]@
                },
            forall|j: int| 0 <= j < ob.len() ==> (#[trigger] func.blocks@[j]).label == ob[j].label,
            successors_in_range(ob) ==> successors_in_range(func.blocks@),
            changed == exists|j: int| 0 <= j < i && (#[trigger] fallthrough_target(ob[j]@)) is Some,
        decreases ob.len() - i,
    {
        let ghost changed_before = changed;
        let ghost at_i = func.blocks@[i as int];
        assert(at_i@ == ob[i as int]@);
        if func.blocks[i].reachable && func.blocks[i].instructions.len() > 0 {
            let last = func.blocks[i].instructions.len() - 1;
            let label = func.blocks[i].label;
            if let IRInstKind::Br { target } = func.blocks[i].instructions[last].kind {
                let target = target;
                if target.0 == label.0 + 1 {
                    let mut blk = BasicBlock::new(label);
                    std::mem::swap(&mut blk, &mut func.blocks[i]);
                    blk.instructions.pop();
                    let mut kept: Vec<Label> = Vec::new();
                    let mut k: usize = 0;
                    while k < blk.successors.len()
                        invariant
                            k <= blk.successors@.len(),
                            kept@ == without_label(blk.successors@.take(k as int), target),
                        decreases blk.successors@.len() - k,
                    {
                        proof {
                            assert(blk.successors@.take(k + 1).drop_last() == blk.successors@.take(k as int));
                        }
                        if blk.successors[k] != target {
                            kept.push(blk.successors[k]);
                        }
                        k = k + 1;
                    }
                    proof {
                        assert(blk.successors@.take(blk.successors@.len() as int) == blk.successors@);
                    }
                    blk.successors = kept;
                    let ghost before = func.blocks@;
                    std::mem::swap(&mut blk, &mut func.blocks[i]);
                    proof {
                        if successors_in_range(ob) {
                            lemma_without_label_sub(ob[i as int].successors@, target, ob.len());
                            assert forall|a: int, b: int|
                                0 <= a < func.blocks@.len() && 0 <= b < func.blocks@[a].successors@.len()
                                    implies (#[trigger] func.blocks@[a].successors@[b]).0 < func.blocks@.len() by {
                                if a != i {
                                    assert(func.blocks@[a] == before[a]);
                                }
                            }
                        }
                    }
                    changed = true;
                    proof {
                        assert(fallthrough_target(ob[i as int]@) == Some(target));
                    }
                }
            }
        }
        proof {
            if !changed || changed_before {
                if fallthrough_target(ob[i as int]@) is Some {
                    assert(at_i.instructions@.last() == at_i.instructions@[at_i.instructions@.len() - 1]);
                }
            }
        }
        i = i + 1;
    }
    proof {
        assert(blocks_view(func.blocks@) =~= blocks_view(ob).map_values(|b: BlockV| drop_fallthrough(b)));
    }
    changed
}


// ── Merging blocks ────────────────────────────────────────────────────────

/// Whether every successor label of every block model names a block.
pub open spec fn succ_in_range_v(bs: Seq<BlockV>) -> bool {
    forall|i: int, k: int|
        0 <= i < bs.len() && 0 <= k < bs[i].successors.len() ==> (#[trigger] bs[i].successors[k]).0 < bs.len()
}

proof fn lemma_succ_in_range_view(blocks: Seq<BasicBlock>)
    ensures
        successors_in_range(blocks) <==> succ_in_range_v(blocks_view(blocks)),
{
    if successors_in_range(blocks) {
        assert forall|i: int, k: int|
            0 <= i < blocks_view(blocks).len() && 0 <= k < blocks_view(blocks)[i].successors.len()
                implies (#[trigger] blocks_view(blocks)[i].successors[k]).0 < blocks_view(blocks).len() by {
            assert(blocks_view(blocks)[i] == blocks[i]@);
            assert(blocks[i].successors@[k] == blocks_view(blocks)[i].successors[k]);
        }
    }
    if succ_in_range_v(blocks_view(blocks)) {
        assert forall|i: int, k: int|
            0 <= i < blocks.len() && 0 <= k < blocks[i].successors@.len()
                implies (#[trigger] blocks[i].successors@[k]).0 < blocks.len() by {
            assert(blocks_view(blocks)[i] == blocks[i]@);
            assert(blocks[i].successors@[k] == blocks_view(blocks)[i].successors[k]);
        }
    }
}

/// The number of entries of `s` naming block `t`.
pub open spec fn count_label(s: Seq<Label>, t: int) -> nat
    decreases s.len(),
{
    if s.len() == 0 {
        0
    } else {
        count_label(s.drop_last(), t) + if s.last().0 == t { 1nat } else { 0nat }
    }
}

/// The number of successor entries, over all blocks, naming block `t`.
pub open spec fn pred_count(bs: Seq<BlockV>, t: int) -> nat
    decreases bs.len(),
{
    if bs.len() == 0 {
        0
    } else {
        pred_count(bs.drop_last(), t) + count_label(bs.last().successors, t)
    }
}

/// The merges that the pass plans among the first `n` blocks, in block
/// order: each block marked reachable with exactly one successor that is
/// named by exactly one successor entry in the whole function, paired
/// with that successor.
pub open spec fn planned_merges(bs: Seq<BlockV>, n: int) -> Seq<(usize, usize)>
    decreases n,
{
    if n <= 0 {
        Seq::empty()
    } else {
        let rest = planned_merges(bs, n - 1);
        let b = bs[n - 1];
        if b.reachable && b.successors.len() == 1 && pred_count(bs, b.successors[0].0 as int) == 1 {
            rest.push(((n - 1) as usize, b.successors[0].0 as usize))
        } else {
            rest
        }
    }
}

/// The planned merges pair exactly the blocks marked reachable whose only
/// successor is named by no other successor entry of the function with
/// that successor, in block order.
pub proof fn law_planned_merges(bs: Seq<BlockV>, n: int)
    requires
        0 <= n <= bs.len(),
        bs.len() <= usize::MAX,
        forall|i: int, k: int|
            0 <= i < bs.len() && 0 <= k < bs[i].successors.len() ==> (#[trigger] bs[i].successors[k]).0
                < bs.len(),
    ensures
        forall|k: int|
            0 <= k < planned_merges(bs, n).len() ==> {
                let (s, d) = #[trigger] planned_merges(bs, n)[k];
                &&& (s as int) < n
                &&& bs[s as int].reachable
                &&& bs[s as int].successors.len() == 1
                &&& bs[s as int].successors[0].0 == d
                &&& pred_count(bs, d as int) == 1
            },
        forall|s: int|
            0 <= s < n && bs[s].reachable && bs[s].successors.len() == 1 && pred_count(
                bs,
                bs[s].successors[0].0 as int,
            ) == 1 ==> planned_merges(bs, n).contains((s as usize, bs[s].successors[0].0 as usize)),
    decreases n,
{
    if n > 0 {
        law_planned_merges(bs, n - 1);
        let rest = planned_merges(bs, n - 1);
        let m = planned_merges(bs, n);
        let b = bs[n - 1];
        assert forall|k: int| 0 <= k < m.len() implies {
            let (s, d) = #[trigger] m[k];
            &&& (s as int) < n
            &&& bs[s as int].reachable
            &&& bs[s as int].successors.len() == 1
            &&& bs[s as int].successors[0].0 == d
            &&& pred_count(bs, d as int) == 1
        } by {
            if k < rest.len() {
                assert(m[k] == rest[k]);
            } else {
                assert(b.successors[0].0 < bs.len());
            }
        }
        assert forall|s: int|
            0 <= s < n && bs[s].reachable && bs[s].successors.len() == 1 && pred_count(
                bs,
                bs[s].successors[0].0 as int,
            ) == 1 implies m.contains((s as usize, bs[s].successors[0].0 as usize)) by {
            if s < n - 1 {
                assert(rest.contains((s as usize, bs[s].successors[0].0 as usize)));
                let j = choose|j: int| 0 <= j < rest.len() && rest[j] == (s as usize, bs[s].successors[0].0 as usize);
                assert(m[j] == rest[j]);
            } else {
                assert(m[m.len() - 1] == (s as usize, bs[s].successors[0].0 as usize));
            }
        }
    }
}

/// Whether a planned merge is skipped: an index is out of range, or the
/// merged block would hold more than 1000 instructions.
pub open spec fn merge_skipped(bs: Seq<BlockV>, src: int, dst: int) -> bool {
    !(0 <= src < bs.len() && 0 <= dst < bs.len()) || bs[src].instructions.len()
        + bs[dst].instructions.len() > 1000
}

/// A sequence without its last element, if it has one.
pub open spec fn pop_seq<A>(s: Seq<A>) -> Seq<A> {
    if s.len() > 0 {
        s.drop_last()
    } else {
        s
    }
}

/// A block whose final unconditional branch to block `dst` now targets
/// the block's own label.
pub open spec fn retarget(b: BlockV, dst: int) -> BlockV {
    if b.instructions.len() > 0 {
        let last = b.instructions.last();
        match last.kind {
            IRInstKind::Br { target } => if target.0 as int == dst {
                BlockV {
                    instructions: b.instructions.update(
                        b.instructions.len() - 1,
                        IRInst { kind: IRInstKind::Br { target: b.label }, ..last },
                    ),
                    ..b
                }
            } else {
                b
            },
            _ => b,
        }
    } else {
        b
    }
}

/// Merging block `dst` into block `src`: the last instruction of `src`
/// goes, the instructions of `dst` move to the end of `src`, the
/// successors of `dst` become those of `src`, a final branch of `src` to
/// `dst` is retargeted to `src` itself, and `dst` is marked unreachable.
pub open spec fn apply_merge(bs: Seq<BlockV>, src: int, dst: int) -> Seq<BlockV> {
    if merge_skipped(bs, src, dst) {
        bs
    } else {
        let bs1 = bs.update(src, BlockV { instructions: pop_seq(bs[src].instructions), ..bs[src] });
        let moved = bs1[dst].instructions;
        let bs2 = bs1.update(dst, BlockV { instructions: Seq::empty(), ..bs1[dst] });
        let bs3 = bs2.update(src, BlockV { instructions: bs2[src].instructions + moved, ..bs2[src] });
        let succs = bs3[dst].successors;
        let bs4 = bs3.update(dst, BlockV { successors: Seq::empty(), ..bs3[dst] });
        let bs5 = bs4.update(src, BlockV { successors: succs, ..bs4[src] });
        let bs6 = bs5.update(src, retarget(bs5[src], dst));
        bs6.update(dst, BlockV { reachable: false, ..bs6[dst] })
    }
}

/// The merges applied from the last to the first.
pub open spec fn apply_merges(bs: Seq<BlockV>, m: Seq<(usize, usize)>) -> Seq<BlockV>
    decreases m.len(),
{
    if m.len() == 0 {
        bs
    } else {
        apply_merges(apply_merge(bs, m.last().0 as int, m.last().1 as int), m.drop_last())
    }
}

/// Whether applying the merges from the last to the first merges any.
pub open spec fn merges_change(bs: Seq<BlockV>, m: Seq<(usize, usize)>) -> bool
    decreases m.len(),
{
    if m.len() == 0 {
        false
    } else {
        !merge_skipped(bs, m.last().0 as int, m.last().1 as int) || merges_change(
            apply_merge(bs, m.last().0 as int, m.last().1 as int),
            m.drop_last(),
        )
    }
}

proof fn lemma_apply_merge_in_range(bs: Seq<BlockV>, src: int, dst: int)
    requires
        succ_in_range_v(bs),
    ensures
        succ_in_range_v(apply_merge(bs, src, dst)),
        apply_merge(bs, src, dst).len() == bs.len(),
{
    let r = apply_merge(bs, src, dst);
    if !merge_skipped(bs, src, dst) {
        assert forall|i: int, k: int| 0 <= i < r.len() && 0 <= k < r[i].successors.len() implies (#[trigger] r[i].successors[k]).0 < r.len() by {
            if i == dst {
            } else if i == src {
                assert(r[i].successors == bs[dst].successors);
            } else {
                assert(r[i].successors == bs[i].successors);
            }
        }
    }
}

/// Merges block `dst` into block `src` unless the merge is skipped;
/// returns whether it merged.
fn merge_pair(func: &mut IRFunction, src: usize, dst: usize) -> (merged: bool)
    ensures
        same_header(*final(func), *old(func)),
        final(func).blocks@.len() == old(func).blocks@.len(),
        blocks_view(final(func).blocks@) == apply_merge(blocks_view(old(func).blocks@), src as int, dst as int),
        merged == !merge_skipped(blocks_view(old(func).blocks@), src as int, dst as int),
{
    let ghost bs = blocks_view(func.blocks@);
    if src >= func.blocks.len() || dst >= func.blocks.len() {
        return false;
    }
    let src_len = func.blocks[src].instructions.len();
    let dst_len = func.blocks[dst].instructions.len();
    assert(bs[src as int] == func.blocks@[src as int]@);
    assert(bs[dst as int] == func.blocks@[dst as int]@);
    if src_len > 1000 || dst_len > 1000 - src_len {
        return false;
    }
    let ghost bs1 = bs.update(src as int, BlockV { instructions: pop_seq(bs[src as int].instructions), ..bs[src as int] });
    func.blocks[src].instructions.pop();
    assert(blocks_view(func.blocks@) =~= bs1);
    let ghost moved = bs1[dst as int].instructions;
    let ghost bs2 = bs1.update(dst as int, BlockV { instructions: Seq::empty(), ..bs1[dst as int] });
    let mut dst_insts: Vec<IRInst> = Vec::new();
    std::mem::swap(&mut dst_insts, &mut func.blocks[dst].instructions);
    assert(blocks_view(func.blocks@) =~= bs2);
    let ghost bs3 = bs2.update(src as int, BlockV { instructions: bs2[src as int].instructions + moved, ..bs2[src as int] });
    func.blocks[src].instructions.append(&mut dst_insts);
    assert(blocks_view(func.blocks@) =~= bs3);
    let ghost succs = bs3[dst as int].successors;
    let ghost bs4 = bs3.update(dst as int, BlockV { successors: Seq::empty(), ..bs3[dst as int] });
    let mut dst_succ: Vec<Label> = Vec::new();
    std::mem::swap(&mut dst_succ, &mut func.blocks[dst].successors);
    assert(blocks_view(func.blocks@) =~= bs4);
    let ghost bs5 = bs4.update(src as int, BlockV { successors: succs, ..bs4[src as int] });
    std::mem::swap(&mut dst_succ, &mut func.blocks[src].successors);
    assert(blocks_view(func.blocks@) =~= bs5);
    let src_label = func.blocks[src].label;
    let l = func.blocks[src].instructions.len();
    let ghost bs6 = bs5.update(src as int, retarget(bs5[src as int], dst as int));
    if l > 0 {
        if let IRInstKind::Br { target } = func.blocks[src].instructions[l - 1].kind {
            if target.0 as usize == dst {
                func.blocks[src].instructions[l - 1].kind = IRInstKind::Br { target: src_label };
            }
        }
    }
    assert(blocks_view(func.blocks@) =~= bs6);
    func.blocks[dst].reachable = false;
    assert(blocks_view(func.blocks@) =~= bs6.update(dst as int, BlockV { reachable: false, ..bs6[dst as int] }));
    true
}


/// The number of successor entries naming each block, capped at
/// `u32::MAX`.
fn count_predecessors(blocks: &Vec<BasicBlock>) -> (pc: Vec<u32>)
    requires
        successors_in_range(blocks@),
    ensures
        pc@.len() == blocks@.len(),
        forall|t: int|
            0 <= t < blocks@.len() ==> #[trigger] pc@[t] as int == if pred_count(blocks_view(blocks@), t) < u32::MAX {
                pred_count(blocks_view(blocks@), t) as int
            } else {
                u32::MAX as int
            },
{
    let ghost bs = blocks_view(blocks@);
    let n = blocks.len();
    let mut pc: Vec<u32> = Vec::new();
    let mut z: usize = 0;
    while z < n
        invariant
            z <= n,
            pc@ == Seq::new(z as nat, |j: int| 0u32),
        decreases n - z,
    {
        pc.push(0);
        z = z + 1;
        proof {
            assert(pc@ =~= Seq::new(z as nat, |j: int| 0u32));
        }
    }
    let mut b: usize = 0;
    while b < n
        invariant
            b <= n == blocks@.len() == bs.len(),
            bs == blocks_view(blocks@),
            successors_in_range(blocks@),
            pc@.len() == n,
            forall|t: int|
                0 <= t < n ==> #[trigger] pc@[t] as int == if pred_count(bs.take(b as int), t) < u32::MAX {
                    pred_count(bs.take(b as int), t) as int
                } else {
                    u32::MAX as int
                },
        decreases n - b,
    {
        let succ = &blocks[b].successors;
        assert(bs[b as int].successors == succ@);
        let mut k: usize = 0;
        while k < succ.len()
            invariant
                b < n == blocks@.len() == bs.len(),
                bs == blocks_view(blocks@),
                successors_in_range(blocks@),
                *succ == blocks@[b as int].successors,
                k <= succ@.len(),
                pc@.len() == n,
                forall|t: int|
                    0 <= t < n ==> #[trigger] pc@[t] as int == if pred_count(bs.take(b as int), t)
                        + count_label(succ@.take(k as int), t) < u32::MAX {
                        (pred_count(bs.take(b as int), t) + count_label(succ@.take(k as int), t)) as int
                    } else {
                        u32::MAX as int
                    },
            decreases succ@.len() - k,
        {
            let t = succ[k].0 as usize;
            proof {
                assert(succ@.take(k + 1).drop_last() == succ@.take(k as int));
                assert(blocks@[b as int].successors@[k as int].0 < n);
            }
            let v = pc[t];
            if v < u32::MAX {
                pc.set(t, v + 1);
            }
            k = k + 1;
        }
        proof {
            assert(succ@.take(succ@.len() as int) == succ@);
            assert(bs.take(b + 1).drop_last() == bs.take(b as int));
            assert(bs.take(b + 1).last() == bs[b as int]);
        }
        b = b + 1;
    }
    proof {
        assert(bs.take(n as int) == bs);
    }
    pc
}

/// Merges each block into its only predecessor when that predecessor has
/// it as only successor, applying the planned merges from the last to
/// the first; returns whether it merged any.
fn merge_blocks(func: &mut IRFunction) -> (changed: bool)
    requires
        successors_in_range(old(func).blocks@),
    ensures
        same_header(*final(func), *old(func)),
        final(func).blocks@.len() == old(func).blocks@.len(),
        blocks_view(final(func).blocks@) == apply_merges(
            blocks_view(old(func).blocks@),
            planned_merges(blocks_view(old(func).blocks@), old(func).blocks@.len() as int),
        ),
        changed == merges_change(
            blocks_view(old(func).blocks@),
            planned_merges(blocks_view(old(func).blocks@), old(func).blocks@.len() as int),
        ),
        successors_in_range(final(func).blocks@),
{
    let ghost bs = blocks_view(func.blocks@);
    let n = func.blocks.len();
    let pc = count_predecessors(&func.blocks);
    let mut merges: Vec<(usize, usize)> = Vec::new();
    let mut i: usize = 0;
    while i < n
        invariant
            i <= n == func.blocks@.len() == bs.len(),
            bs == blocks_view(func.blocks@),
            successors_in_range(func.blocks@),
            pc@.len() == n,
            forall|t: int|
                0 <= t < n ==> #[trigger] pc@[t] as int == if pred_count(bs, t) < u32::MAX {
                    pred_count(bs, t) as int
                } else {
                    u32::MAX as int
                },
            merges@ == planned_merges(bs, i as int),
        decreases n - i,
    {
        assert(bs[i as int] == func.blocks@[i as int]@);
        if func.blocks[i].reachable && func.blocks[i].successors.len() == 1 {
            let succ = func.blocks[i].successors[0];
            assert(func.blocks@[i as int].successors@[0].0 < n);
            if pc[succ.0 as usize] == 1 {
                merges.push((i, succ.0 as usize));
            }
        }
        i = i + 1;
    }
    let ghost plan = merges@;
    let mut changed = false;
    let mut j: usize = merges.len();
    proof {
        assert(plan.take(j as int) == plan);
        lemma_succ_in_range_view(func.blocks@);
    }
    while j > 0
        invariant
            j <= plan.len(),
            merges@ == plan,
            same_header(*func, *old(func)),
            func.blocks@.len() == n,
            apply_merges(blocks_view(func.blocks@), plan.take(j as int)) == apply_merges(bs, plan),
            changed || merges_change(blocks_view(func.blocks@), plan.take(j as int)) == merges_change(bs, plan),
            changed ==> merges_change(bs, plan),
            succ_in_range_v(blocks_view(func.blocks@)),
        decreases j,
    {
        let (src, dst) = merges[j - 1];
        let ghost cur = blocks_view(func.blocks@);
        proof {
            assert(plan.take(j as int).drop_last() == plan.take(j - 1));
            assert(plan.take(j as int).last() == plan[j - 1]);
            lemma_apply_merge_in_range(cur, src as int, dst as int);
        }
        let m = merge_pair(func, src, dst);
        if m {
            changed = true;
        }
        j = j - 1;
    }
    proof {
        assert(plan.take(0) == Seq::<(usize, usize)>::empty());
        lemma_succ_in_range_view(func.blocks@);
    }
    changed
}


// ── Unreachable blocks ────────────────────────────────────────────────────

/// The successor labels of each block model.
pub open spec fn succ_lists_v(bs: Seq<BlockV>) -> Seq<Seq<Label>> {
    Seq::new(bs.len(), |i: int| bs[i].successors)
}

/// Whether block `i` is still marked reachable though the entry block
/// does not reach it.
pub open spec fn stale_block(bs: Seq<BlockV>, entry: int, i: int) -> bool {
    !graph_reachable(succ_lists_v(bs), entry, i) && bs[i].reachable
}

/// The blocks with every stale block cleared: no instruction, no
/// successor, marked unreachable.
pub open spec fn sweep_v(bs: Seq<BlockV>, entry: int) -> Seq<BlockV> {
    Seq::new(
        bs.len(),
        |i: int|
            if stale_block(bs, entry, i) {
                BlockV {
                    reachable: false,
                    instructions: Seq::empty(),
                    successors: Seq::empty(),
                    ..bs[i]
                }
            } else {
                bs[i]
            },
    )
}

/// The marks of the blocks reachable from the entry block.
fn compute_reachable(func: &IRFunction) -> (r: Vec<bool>)
    requires
        func.wf(),
    ensures
        r@.len() == func.blocks@.len(),
        forall|i: int|
            0 <= i < r@.len() ==> #[trigger] r@[i] == graph_reachable(
                succ_lists_v(blocks_view(func.blocks@)),
                func.entry_block.0 as int,
                i,
            ),
{
    proof {
        assert(succ_lists(func.blocks@) =~= succ_lists_v(blocks_view(func.blocks@)));
    }
    mark_reachable(func)
}

/// Clears the stale blocks; returns whether there were any.
fn remove_unreachable(func: &mut IRFunction) -> (changed: bool)
    requires
        old(func).wf(),
    ensures
        same_header(*final(func), *old(func)),
        final(func).blocks@.len() == old(func).blocks@.len(),
        blocks_view(final(func).blocks@) == sweep_v(
            blocks_view(old(func).blocks@),
            old(func).entry_block.0 as int,
        ),
        changed == exists|i: int|
            0 <= i < old(func).blocks@.len() && #[trigger] stale_block(
                blocks_view(old(func).blocks@),
                old(func).entry_block.0 as int,
                i,
            ),
        final(func).wf(),
{
    let ghost bs = blocks_view(func.blocks@);
    let ghost entry = func.entry_block.0 as int;
    let ghost ob = func.blocks@;
    let reachable = compute_reachable(func);
    let changed = remove_unreachable_blocks(func, &reachable);
    proof {
        assert forall|i: int| 0 <= i < ob.len() implies #[trigger] blocks_view(final(func).blocks@)[i] == sweep_v(bs, entry)[i] by {
            assert(reachable@[i] == graph_reachable(succ_lists_v(bs), entry, i));
            assert(bs[i] == ob[i]@);
            if stale_block(bs, entry, i) {
                assert(final(func).blocks@[i].instructions@ =~= Seq::<IRInst>::empty());
                assert(final(func).blocks@[i].successors@ =~= Seq::<Label>::empty());
            }
        }
        assert(blocks_view(final(func).blocks@) =~= sweep_v(bs, entry));
        if changed {
            let i = choose|i: int| 0 <= i < ob.len() && !reachable@[i] && #[trigger] ob[i].reachable;
            assert(stale_block(bs, entry, i));
        }
        if exists|i: int| 0 <= i < ob.len() && #[trigger] stale_block(bs, entry, i) {
            let i = choose|i: int| 0 <= i < ob.len() && #[trigger] stale_block(bs, entry, i);
            assert(reachable@[i] == graph_reachable(succ_lists_v(bs), entry, i));
            assert(bs[i] == ob[i]@);
        }
        assert forall|i: int, k: int|
            0 <= i < final(func).blocks@.len() && 0 <= k < final(func).blocks@[i].successors@.len()
                implies (#[trigger] final(func).blocks@[i].successors@[k]).0 < final(func).blocks@.len() by {
            if !(!reachable@[i] && ob[i].reachable) {
                assert(final(func).blocks@[i] == ob[i]);
            }
        }
    }
    changed
}

// ── The pass ──────────────────────────────────────────────────────────────

/// The blocks after the fall-through branches are removed.
pub open spec fn after_fallthrough(bs: Seq<BlockV>) -> Seq<BlockV> {
    bs.map_values(|b: BlockV| drop_fallthrough(b))
}

/// The blocks after the fall-through branches are removed and the planned
/// merges applied.
pub open spec fn after_merges(bs: Seq<BlockV>) -> Seq<BlockV> {
    let b1 = after_fallthrough(bs);
    apply_merges(b1, planned_merges(b1, b1.len() as int))
}

/// Simplification keeps the function well formed and its header, and its
/// blocks become, by their models, the blocks after removing fallthrough
/// branches and merging chains, with those the entry no longer reaches
/// cleared (`sweep_v`); a change is reported exactly when one of these
/// steps finds something to do.
pub open spec fn simplify_post(old: IRFunction, new: IRFunction, changed: bool) -> bool {
    &&& same_header(new, old)
    &&& new.wf()
    &&& blocks_view(new.blocks@) == sweep_v(after_merges(blocks_view(old.blocks@)), old.entry_block.0 as int)
    &&& changed == ((exists|i: int|
        0 <= i < old.blocks@.len() && (#[trigger] fallthrough_target(old.blocks@[i]@)) is Some)
        || merges_change(
        after_fallthrough(blocks_view(old.blocks@)),
        planned_merges(after_fallthrough(blocks_view(old.blocks@)), old.blocks@.len() as int),
    ) || (exists|i: int|
        0 <= i < old.blocks@.len() && #[trigger] stale_block(
            after_merges(blocks_view(old.blocks@)),
            old.entry_block.0 as int,
            i,
        )))
}

/// Simplifies the control flow graph: removes every final branch of a
/// block marked reachable to the block labelled next after it, merges
/// blocks into their only predecessor when it has them as only
/// successor, then clears the blocks the entry block no longer reaches.
/// Returns whether any of the three steps changed anything.
pub fn simplify(func: &mut IRFunction) -> (changed: bool)
    requires
        old(func).wf(),
        labels_fit(old(func).blocks@),
    ensures
        simplify_post(*old(func), *final(func), changed),
{
    let ghost b0 = blocks_view(func.blocks@);
    let c1 = eliminate_fallthrough_branches(func);
    let ghost b1 = blocks_view(func.blocks@);
    proof {
        assert(b1 == after_fallthrough(b0));
        assert(b1.len() == b0.len());
    }
    let c2 = merge_blocks(func);
    let ghost b2 = blocks_view(func.blocks@);
    proof {
        assert(b2 == after_merges(b0));
    }
    let c3 = remove_unreachable(func);
    c1 || c2 || c3
}

} // verus!
