//! Optimization passes over the SSA IR.
//!
//! Each pass is composable: `optimize` runs them in a fixed order until
//! none changes anything, at most ten rounds, and `run_pass` runs one by
//! name.

pub mod const_prop;
pub mod cse;
pub mod dce;
pub mod escape_analysis;
pub mod native_specialize;
pub mod pattern_match;
pub mod simplify_cfg;
pub mod speculative;
pub mod tail_call;
pub mod type_inference;
pub mod validation;

use crate::function::{BasicBlock, BlockV, IRFunction, blocks_view, same_header, successors_in_range};
use crate::instruction::IRInstKind;
use crate::opt::simplify_cfg::{
    after_fallthrough, after_merges, apply_merge, apply_merges, drop_fallthrough, labels_fit, planned_merges,
    retarget, sweep_v,
};
use vstd::prelude::*;

verus! {

broadcast use vstd::seq::group_seq_axioms, vstd::std_specs::vec::group_vec_axioms;

/// Whether every block label has a successor label.
pub open spec fn labels_bounded(blocks: Seq<BasicBlock>) -> bool {
    forall|i: int| 0 <= i < blocks.len() ==> (#[trigger] blocks[i]).label.0 < u32::MAX
}

/// Whether two sequences of blocks have the same length and labels.
pub open spec fn same_labels(a: Seq<BasicBlock>, b: Seq<BasicBlock>) -> bool {
    a.len() == b.len() && forall|i: int| 0 <= i < a.len() ==> (#[trigger] a[i]).label == b[i].label
}

/// Whether two sequences of block models have the same length and labels.
pub open spec fn same_labels_v(a: Seq<BlockV>, b: Seq<BlockV>) -> bool {
    a.len() == b.len() && forall|i: int| 0 <= i < a.len() ==> (#[trigger] a[i]).label == b[i].label
}

/// What every pass keeps: the header, well-formedness and the labels of
/// the blocks.
pub open spec fn keeps_shape(old: IRFunction, new: IRFunction) -> bool {
    &&& same_header(new, old)
    &&& old.wf() ==> new.wf()
    &&& same_labels(old.blocks@, new.blocks@)
}

proof fn lemma_apply_merge_labels(bs: Seq<BlockV>, src: int, dst: int)
    ensures
        same_labels_v(bs, apply_merge(bs, src, dst)),
{
    let r = apply_merge(bs, src, dst);
    if !simplify_cfg::merge_skipped(bs, src, dst) {
        assert forall|i: int| 0 <= i < bs.len() implies (#[trigger] bs[i]).label == r[i].label by {
            let b5 = r;
            if i == src {
                let s5 = bs[src];
                assert(retarget(BlockV { label: bs[src].label, ..s5 }, dst).label == bs[src].label);
            }
        }
    }
}

proof fn lemma_apply_merges_labels(bs: Seq<BlockV>, m: Seq<(usize, usize)>)
    ensures
        same_labels_v(bs, apply_merges(bs, m)),
    decreases m.len(),
{
    if m.len() > 0 {
        let nb = apply_merge(bs, m.last().0 as int, m.last().1 as int);
        lemma_apply_merge_labels(bs, m.last().0 as int, m.last().1 as int);
        lemma_apply_merges_labels(nb, m.drop_last());
    }
}

proof fn lemma_simplify_shape(old: IRFunction, new: IRFunction, changed: bool)
    requires
        simplify_cfg::simplify_post(old, new, changed),
    ensures
        keeps_shape(old, new),
{
    let b0 = blocks_view(old.blocks@);
    let b1 = after_fallthrough(b0);
    lemma_apply_merges_labels(b1, planned_merges(b1, b1.len() as int));
    let b2 = after_merges(b0);
    assert(b1.len() == b0.len());
    assert(b2.len() == b1.len());
    assert(blocks_view(new.blocks@).len() == new.blocks@.len());
    assert(new.blocks@.len() == old.blocks@.len());
    assert forall|i: int| 0 <= i < old.blocks@.len() implies (#[trigger] old.blocks@[i]).label == new.blocks@[i].label by {
        assert(b0[i] == old.blocks@[i]@);
        assert(b1[i] == drop_fallthrough(b0[i]));
        assert(blocks_view(new.blocks@)[i] == new.blocks@[i]@);
        assert(b2[i].label == b1[i].label);
    }
}

proof fn lemma_keeps_trans(a: IRFunction, b: IRFunction, c: IRFunction)
    requires
        keeps_shape(a, b),
        keeps_shape(b, c),
    ensures
        keeps_shape(a, c),
{
    assert forall|i: int| 0 <= i < a.blocks@.len() implies (#[trigger] a.blocks@[i]).label == c.blocks@[i].label by {
        assert(a.blocks@[i].label == b.blocks@[i].label);
    }
}

proof fn lemma_same_succs_wf(old: IRFunction, new: IRFunction)
    requires
        same_header(new, old),
        new.blocks@.len() == old.blocks@.len(),
        forall|i: int|
            0 <= i < old.blocks@.len() ==> (#[trigger] new.blocks@[i]).successors == old.blocks@[i].successors
                || new.blocks@[i].successors@.len() == 0,
    ensures
        old.wf() ==> new.wf(),
{
    if old.wf() {
        assert forall|i: int, k: int|
            0 <= i < new.blocks@.len() && 0 <= k < new.blocks@[i].successors@.len()
                implies (#[trigger] new.blocks@[i].successors@[k]).0 < new.blocks@.len() by {
            assert(new.blocks@[i].successors == old.blocks@[i].successors);
            assert(old.blocks@[i].successors@[k] == new.blocks@[i].successors@[k]);
        }
    }
}

/// Whether a string names the given pass.
fn is_pass(name: &str, pass: &str) -> (r: bool)
    ensures
        r == (name@ == pass@),
{
    let a = String::from_str(name);
    let b = String::from_str(pass);
    a == b
}

/// One round of the pipeline from `f0` to `f7`: dead code elimination,
/// constant propagation, constant folding, common subexpression
/// elimination, control flow simplification, tail call analysis and
/// pattern matching, in order, each doing what its own contract says;
/// `changed` tells whether any of them reported a change.
pub open spec fn round_post(f0: IRFunction, f7: IRFunction, changed: bool) -> bool {
    exists|f1: IRFunction, f2: IRFunction, f3: IRFunction, f4: IRFunction, f5: IRFunction, f6: IRFunction, c: Seq<bool>|
        #![trigger dce::dce_post(f0, f1, c[0]), const_prop::propagate_post(f1, f2, c[1]), const_prop::fold_post(f2, f3, c[2]), cse::cse_post(f3, f4, c[3]), simplify_cfg::simplify_post(f4, f5, c[4]), tail_call::tail_call_post(f5, f6, c[5]), pattern_match::pattern_match_post(f6, f7, c[6])]
        {
            &&& c.len() == 7
            &&& dce::dce_post(f0, f1, c[0])
            &&& const_prop::propagate_post(f1, f2, c[1])
            &&& const_prop::fold_post(f2, f3, c[2])
            &&& cse::cse_post(f3, f4, c[3])
            &&& simplify_cfg::simplify_post(f4, f5, c[4])
            &&& tail_call::tail_call_post(f5, f6, c[5])
            &&& pattern_match::pattern_match_post(f6, f7, c[6])
            &&& changed == (c[0] || c[1] || c[2] || c[3] || c[4] || c[5] || c[6])
        }
}

/// Whether `fs` are the states of the pipeline after each round from
/// `fs[0]`, and `cs` whether each round changed anything: rounds run while
/// the previous one changed something, at most ten.
pub open spec fn pipeline_run(fs: Seq<IRFunction>, cs: Seq<bool>) -> bool {
    &&& 1 <= cs.len() <= 10
    &&& fs.len() == cs.len() + 1
    &&& forall|i: int| 0 <= i < cs.len() ==> #[trigger] round_post(fs[i], fs[i + 1], cs[i])
    &&& forall|i: int| 0 <= i < cs.len() - 1 ==> #[trigger] cs[i]
    &&& !cs.last() || cs.len() == 10
}

/// Runs every optimization pass in order (dead code elimination,
/// constant propagation, constant folding, common subexpression
/// elimination, control flow simplification, tail call analysis,
/// pattern matching) until a round changes nothing, at most ten rounds.
/// The result is the last state of such a run, and every pass keeps the
/// function's header, its well-formedness and the labels of its blocks.
pub fn optimize(func: &mut IRFunction)
    requires
        old(func).wf(),
        labels_bounded(old(func).blocks@),
        old(func).blocks@.len() * 16 <= usize::MAX,
    ensures
        keeps_shape(*old(func), *final(func)),
        exists|fs: Seq<IRFunction>, cs: Seq<bool>|
            #![trigger pipeline_run(fs, cs)]
            pipeline_run(fs, cs) && fs[0] == *old(func) && fs.last() == *final(func),
{
    let mut changed = true;
    let mut iteration: u32 = 0;
    let max_iterations: u32 = 10;
    let ghost mut fs: Seq<IRFunction> = seq![*func];
    let ghost mut cs: Seq<bool> = Seq::empty();
    while changed && iteration < max_iterations
        invariant
            keeps_shape(*old(func), *func),
            func.wf(),
            labels_bounded(old(func).blocks@),
            labels_bounded(func.blocks@),
            func.blocks@.len() == old(func).blocks@.len(),
            old(func).blocks@.len() * 16 <= usize::MAX,
            iteration <= max_iterations == 10,
            fs.len() == iteration + 1,
            cs.len() == iteration,
            fs[0] == *old(func),
            fs.last() == *func,
            forall|i: int| 0 <= i < cs.len() ==> #[trigger] round_post(fs[i], fs[i + 1], cs[i]),
            forall|i: int| 0 <= i < cs.len() - 1 ==> #[trigger] cs[i],
            changed == (cs.len() == 0 || cs.last()),
        decreases max_iterations - iteration,
    {
        iteration = iteration + 1;
        let ghost f0 = *func;
        let c0 = dce::eliminate_dead_code(func);
        proof {
            lemma_same_succs_wf(f0, *func);
            lemma_keeps_trans(*old(func), f0, *func);
        }
        let ghost f1 = *func;
        let c1 = const_prop::propagate_constants(func);
        let ghost f2 = *func;
        let c2 = const_prop::fold_constants(func);
        let ghost f3 = *func;
        let c3 = cse::eliminate_common_subexprs(func);
        proof {
            lemma_same_succs_wf(f3, *func);
            lemma_keeps_trans(*old(func), f3, *func);
        }
        let ghost f4 = *func;
        let c4 = simplify_cfg::simplify(func);
        proof {
            lemma_simplify_shape(f4, *func, c4);
            lemma_keeps_trans(*old(func), f4, *func);
        }
        let ghost f5 = *func;
        let c5 = tail_call::analyze(func);
        proof {
            lemma_same_succs_wf(f5, *func);
            lemma_keeps_trans(*old(func), f5, *func);
        }
        let ghost f6 = *func;
        let c6 = pattern_match::optimize(func);
        proof {
            lemma_same_succs_wf(f6, *func);
            lemma_keeps_trans(*old(func), f6, *func);
            assert forall|i: int| 0 <= i < func.blocks@.len() implies (#[trigger] func.blocks@[i]).label.0 < u32::MAX by {
                assert(old(func).blocks@[i].label == func.blocks@[i].label);
            }
        }
        changed = c0 || c1 || c2 || c3 || c4 || c5 || c6;
        proof {
            let c = seq![c0, c1, c2, c3, c4, c5, c6];
            assert(dce::dce_post(f0, f1, c[0]));
            assert(const_prop::propagate_post(f1, f2, c[1]));
            assert(const_prop::fold_post(f2, f3, c[2]));
            assert(cse::cse_post(f3, f4, c[3]));
            assert(simplify_cfg::simplify_post(f4, f5, c[4]));
            assert(tail_call::tail_call_post(f5, f6, c[5]));
            assert(pattern_match::pattern_match_post(f6, *func, c[6]));
            assert(round_post(f0, *func, changed));
            let ghost old_cs = cs;
            fs = fs.push(*func);
            cs = cs.push(changed);
            assert forall|i: int| 0 <= i < cs.len() implies #[trigger] round_post(fs[i], fs[i + 1], cs[i]) by {
                if i < cs.len() - 1 {
                    assert(fs[i] == fs.drop_last()[i]);
                    assert(fs[i + 1] == fs.drop_last()[i + 1]);
                    assert(cs[i] == old_cs[i]);
                }
            }
            assert forall|i: int| 0 <= i < cs.len() - 1 implies #[trigger] cs[i] by {
                assert(cs[i] == old_cs[i]);
            }
        }
    }
    proof {
        assert(pipeline_run(fs, cs));
    }
}


/// Runs one optimization pass by name: `dce`, `const-prop`, `fold`,
/// `cse`, `simplify-cfg`, `tail-call` or `pattern-match`, and returns
/// what the pass returns; any other name changes nothing and gives
/// `false`.
pub fn run_pass(func: &mut IRFunction, pass_name: &str) -> (changed: bool)
    requires
        pass_name@ == "dce"@ ==> old(func).wf(),
        pass_name@ == "const-prop"@ ==> old(func).blocks@.len() * 16 <= usize::MAX,
        pass_name@ == "fold"@ ==> old(func).blocks@.len() * 16 <= usize::MAX,
        pass_name@ == "simplify-cfg"@ ==> old(func).wf() && labels_fit(old(func).blocks@),
    ensures
        pass_name@ == "dce"@ ==> dce::dce_post(*old(func), *final(func), changed),
        pass_name@ == "const-prop"@ ==> const_prop::propagate_post(*old(func), *final(func), changed),
        pass_name@ == "fold"@ ==> const_prop::fold_post(*old(func), *final(func), changed),
        pass_name@ == "cse"@ ==> cse::cse_post(*old(func), *final(func), changed),
        pass_name@ == "simplify-cfg"@ ==> simplify_cfg::simplify_post(*old(func), *final(func), changed),
        pass_name@ == "tail-call"@ ==> tail_call::tail_call_post(*old(func), *final(func), changed),
        pass_name@ == "pattern-match"@ ==> pattern_match::pattern_match_post(*old(func), *final(func), changed),
        !(pass_name@ == "dce"@ || pass_name@ == "const-prop"@ || pass_name@ == "fold"@ || pass_name@ == "cse"@ || pass_name@ == "simplify-cfg"@ || pass_name@ == "tail-call"@ || pass_name@ == "pattern-match"@) ==> !changed && *final(func) == *old(func),
{
    proof {
        reveal_strlit("dce");
        reveal_strlit("const-prop");
        reveal_strlit("fold");
        reveal_strlit("cse");
        reveal_strlit("simplify-cfg");
        reveal_strlit("tail-call");
        reveal_strlit("pattern-match");
        assert("dce"@.len() == 3);
        assert("const-prop"@.len() == 10);
        assert("fold"@.len() == 4);
        assert("cse"@.len() == 3);
        assert("simplify-cfg"@.len() == 12);
        assert("tail-call"@.len() == 9);
        assert("pattern-match"@.len() == 13);
        assert("dce"@[0] != "cse"@[0]);
    }
    if is_pass(pass_name, "dce") {
        dce::eliminate_dead_code(func)
    } else if is_pass(pass_name, "const-prop") {
        const_prop::propagate_constants(func)
    } else if is_pass(pass_name, "fold") {
        const_prop::fold_constants(func)
    } else if is_pass(pass_name, "cse") {
        cse::eliminate_common_subexprs(func)
    } else if is_pass(pass_name, "simplify-cfg") {
        simplify_cfg::simplify(func)
    } else if is_pass(pass_name, "tail-call") {
        tail_call::analyze(func)
    } else if is_pass(pass_name, "pattern-match") {
        pattern_match::optimize(func)
    } else {
        false
    }
}

} // verus!
