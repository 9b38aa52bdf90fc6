//! Pattern matching optimization.
//!
//! A run of type tests on the same value becomes one `Switch` over type
//! tags (tagged dispatch instead of a chain of generic tests), and a
//! `TupleGet` at a small index becomes a direct `Move` from a known
//! offset (stable tuple destructuring without runtime checks).

use crate::function::{BasicBlock, IRFunction, same_header};
use crate::instruction::{IRInst, IRInstKind, Label, Reg, SideEffects, no_effects};
use crate::value::IRValueId;
use vstd::prelude::*;

verus! {

broadcast use vstd::seq::group_seq_axioms, vstd::std_specs::vec::group_vec_axioms;

/// The tag that a switch over type tests gives each type test.
pub open spec fn type_tag(k: IRInstKind) -> Option<i64> {
    match k {
        IRInstKind::IsTuple => Some(0),
        IRInstKind::IsAtom => Some(1),
        IRInstKind::IsList => Some(2),
        IRInstKind::IsMap => Some(3),
        IRInstKind::IsBinary => Some(4),
        IRInstKind::IsPid => Some(5),
        IRInstKind::IsFloat => Some(6),
        IRInstKind::IsFun => Some(7),
        IRInstKind::IsSmallInt => Some(8),
        IRInstKind::IsNil => Some(9),
        _ => None,
    }
}

/// The tag of a type test.
fn tag_of(k: &IRInstKind) -> (r: Option<i64>)
    ensures
        r == type_tag(*k),
{
    match k {
        IRInstKind::IsTuple => Some(0),
        IRInstKind::IsAtom => Some(1),
        IRInstKind::IsList => Some(2),
        IRInstKind::IsMap => Some(3),
        IRInstKind::IsBinary => Some(4),
        IRInstKind::IsPid => Some(5),
        IRInstKind::IsFloat => Some(6),
        IRInstKind::IsFun => Some(7),
        IRInstKind::IsSmallInt => Some(8),
        IRInstKind::IsNil => Some(9),
        _ => None,
    }
}

/// Whether an instruction is a type test whose first operand is `v`.
pub open spec fn in_chain(inst: IRInst, v: IRValueId) -> bool {
    inst.operands@.len() > 0 && inst.operands@[0] == v && type_tag(inst.kind) is Some
}

/// The end of the run of type tests on `v` that starts at `j`.
pub open spec fn chain_run(insts: Seq<IRInst>, v: IRValueId, j: int) -> int
    decreases insts.len() - j,
{
    if 0 <= j < insts.len() && in_chain(insts[j], v) {
        chain_run(insts, v, j + 1)
    } else {
        j
    }
}

/// The length of the run of type tests on the first operand of the first
/// instruction, when there are at least two instructions and the first
/// is a type test with an operand; 0 otherwise.
pub open spec fn chain_at(insts: Seq<IRInst>) -> int {
    if insts.len() < 2 || insts[0].operands@.len() == 0 || type_tag(insts[0].kind) is None {
        0
    } else {
        chain_run(insts, insts[0].operands@[0], 0)
    }
}

/// The switch targets of a run of `c` type tests: each test's tag with
/// the label of its position.
pub open spec fn chain_targets(insts: Seq<IRInst>, c: int) -> Seq<(i64, Label)> {
    Seq::new(c as nat, |j: int| (type_tag(insts[j].kind).unwrap(), Label(j as u32)))
}

proof fn lemma_chain_run(insts: Seq<IRInst>, v: IRValueId, j: int)
    requires
        0 <= j,
    ensures
        j <= chain_run(insts, v, j) <= if j <= insts.len() { insts.len() as int } else { j },
        forall|m: int| j <= m < chain_run(insts, v, j) ==> #[trigger] in_chain(insts[m], v),
        chain_run(insts, v, j) < insts.len() ==> !in_chain(insts[chain_run(insts, v, j)], v),
    decreases insts.len() - j,
{
    if 0 <= j < insts.len() && in_chain(insts[j], v) {
        lemma_chain_run(insts, v, j + 1);
    }
}

/// A run of type tests on one value, to be replaced by a switch.
#[derive(Debug, Clone)]
pub struct TypeChainSwitch {
    /// The number of type tests in the run
    pub chain_length: usize,
    /// The value tested
    pub test_value: IRValueId,
    /// Each test's tag with the label of its position
    pub targets: Vec<(i64, Label)>,
    /// The label after the run
    pub default: Label,
}

/// Whether `sw` is the switch instruction of the run of `c` type tests at
/// the start of `insts`.
pub open spec fn is_chain_switch(sw: IRInst, insts: Seq<IRInst>, c: int) -> bool {
    &&& sw.kind matches IRInstKind::Switch { value, default, targets } && value
        == insts[0].operands@[0] && default == Label(c as u32) && targets@ == chain_targets(insts, c)
    &&& sw.result is None
    &&& sw.operands@.len() == 0
    &&& sw.beam_offset == 0
    &&& sw.side_effects == no_effects()
}

impl TypeChainSwitch {
    /// The switch instruction of the run.
    pub fn into_inst(self) -> (r: IRInst)
        ensures
            r.kind matches IRInstKind::Switch { value, default, targets } && value == self.test_value
                && default == self.default && targets == self.targets,
            r.result is None,
            r.operands@.len() == 0,
            r.beam_offset == 0,
            r.side_effects == no_effects(),
    {
        IRInst {
            kind: IRInstKind::Switch { value: self.test_value, default: self.default, targets: self.targets },
            result: None,
            operands: Vec::new(),
            beam_offset: 0,
            side_effects: SideEffects::none(),
        }
    }
}

/// The run of type tests at position `start`, if it has at least two.
fn convert_chain_at(insts: &[IRInst], start: usize) -> (r: Option<TypeChainSwitch>)
    requires
        start <= insts@.len(),
    ensures
        r is Some <==> chain_at(insts@.skip(start as int)) >= 2,
        r matches Some(sw) ==> {
            let s = insts@.skip(start as int);
            let c = chain_at(s);
            &&& sw.chain_length == c
            &&& sw.test_value == s[0].operands@[0]
            &&& sw.targets@ == chain_targets(s, c)
            &&& sw.default == Label(c as u32)
        },
{
    let ghost s = insts@.skip(start as int);
    if insts.len() - start < 2 {
        return None;
    }
    let first = &insts[start];
    assert(*first == s[0]);
    if first.operands.len() == 0 {
        return None;
    }
    let test_value = first.operands[0];
    if tag_of(&first.kind).is_none() {
        return None;
    }
    proof {
        lemma_chain_run(s, test_value, 0);
    }
    let mut targets: Vec<(i64, Label)> = Vec::new();
    let mut chain_len: usize = 0;
    let mut j: usize = start;
    let mut stop = false;
    while !stop && j < insts.len()
        invariant
            start <= j <= insts@.len(),
            s == insts@.skip(start as int),
            chain_len == j - start,
            forall|m: int| 0 <= m < chain_len ==> #[trigger] in_chain(s[m], test_value),
            chain_run(s, test_value, 0) == chain_run(s, test_value, chain_len as int),
            targets@ == chain_targets(s, chain_len as int),
            stop ==> chain_len < s.len() && !in_chain(s[chain_len as int], test_value),
        decreases insts@.len() - j, if stop { 0int } else { 1int },
    {
        let inst = &insts[j];
        assert(*inst == s[chain_len as int]);
        let tag = if inst.operands.len() > 0 && inst.operands[0] == test_value {
            tag_of(&inst.kind)
        } else {
            None
        };
        match tag {
            Some(t) => {
                targets.push((t, Label(chain_len as u32)));
                proof {
                    assert(targets@ =~= chain_targets(s, chain_len + 1));
                }
                chain_len = chain_len + 1;
                j = j + 1;
            },
            None => {
                stop = true;
            },
        }
    }
    proof {
        lemma_chain_run(s, test_value, chain_len as int);
        assert(chain_run(s, test_value, chain_len as int) == chain_len);
    }
    if targets.len() >= 2 {
        Some(TypeChainSwitch { chain_length: chain_len, test_value, targets, default: Label(chain_len as u32) })
    } else {
        None
    }
}

/// The run of type tests on one value at the start of `insts`, if it has
/// at least two tests: its length, the value, each test's tag (tuple 0,
/// atom 1, list 2, map 3, binary 4, pid 5, float 6, fun 7, small
/// integer 8, nil 9) with the label of its position, and the label after
/// the run.
pub fn try_convert_type_chain(insts: &[IRInst]) -> (r: Option<TypeChainSwitch>)
    ensures
        r is Some <==> chain_at(insts@) >= 2,
        r matches Some(sw) ==> {
            let c = chain_at(insts@);
            &&& sw.chain_length == c
            &&& sw.test_value == insts@[0].operands@[0]
            &&& sw.targets@ == chain_targets(insts@, c)
            &&& sw.default == Label(c as u32)
        },
{
    proof {
        assert(insts@.skip(0) == insts@);
    }
    convert_chain_at(insts, 0)
}

/// Whether `m` is the direct move that replaces the tuple access `t`.
pub open spec fn is_fast_access(m: IRInst, t: IRInst) -> bool {
    &&& t.kind matches IRInstKind::TupleGet { tuple, index } && index < 8 && m.kind
        == IRInstKind::Move { src: Reg::X(index), dst: Reg::X(0) } && m.operands@ == seq![tuple]
    &&& m.result == t.result
    &&& m.beam_offset == t.beam_offset
    &&& m.side_effects == no_effects()
}

/// Whether an instruction is a tuple access at an index below 8.
pub open spec fn fast_tuple_access(t: IRInst) -> bool {
    t.kind matches IRInstKind::TupleGet { index, .. } && index < 8
}

/// Whether `out` is what the pass makes of `inp`: from the front, a run
/// of at least two type tests on one value becomes its switch, a tuple
/// access at an index below 8 becomes a direct move, and every other
/// instruction stays.
pub open spec fn pm_rel(inp: Seq<IRInst>, out: Seq<IRInst>) -> bool
    decreases inp.len(),
{
    if inp.len() == 0 {
        out.len() == 0
    } else if out.len() == 0 {
        false
    } else if chain_at(inp) >= 2 {
        &&& chain_at(inp) <= inp.len()
        &&& is_chain_switch(out[0], inp, chain_at(inp))
        &&& pm_rel(inp.skip(chain_at(inp)), out.skip(1))
    } else if fast_tuple_access(inp[0]) {
        is_fast_access(out[0], inp[0]) && pm_rel(inp.skip(1), out.skip(1))
    } else {
        out[0] == inp[0] && pm_rel(inp.skip(1), out.skip(1))
    }
}

/// Whether the pass rewrites anything in `inp`.
pub open spec fn pm_changes(inp: Seq<IRInst>) -> bool
    decreases inp.len(),
{
    if inp.len() == 0 {
        false
    } else if chain_at(inp) >= 2 {
        chain_at(inp) <= inp.len()
    } else if fast_tuple_access(inp[0]) {
        true
    } else {
        pm_changes(inp.skip(1))
    }
}

proof fn lemma_chain_at_bound(inp: Seq<IRInst>)
    ensures
        chain_at(inp) >= 2 ==> chain_at(inp) <= inp.len(),
{
    if inp.len() >= 2 && inp[0].operands@.len() > 0 && type_tag(inp[0].kind) is Some {
        lemma_chain_run(inp, inp[0].operands@[0], 0);
    }
}

/// Rewrites the type test runs and small tuple accesses of one block;
/// returns whether it rewrote any.
fn optimize_block(block: &mut BasicBlock) -> (changed: bool)
    ensures
        pm_rel(old(block).instructions@, final(block).instructions@),
        final(block).label == old(block).label,
        final(block).predecessors == old(block).predecessors,
        final(block).successors == old(block).successors,
        final(block).reachable == old(block).reachable,
        changed == pm_changes(old(block).instructions@),
{
    let ghost orig = block.instructions@;
    let ghost mut consumed: int = 0;
    let mut changed = false;
    let mut i: usize = 0;
    proof {
        assert(orig.skip(0) =~= orig);
        assert(block.instructions@.take(0) =~= Seq::<IRInst>::empty());
        assert forall|o: Seq<IRInst>| #[trigger] pm_rel(orig.skip(consumed), o) implies pm_rel(orig, block.instructions@.take(i as int) + o) by {
            assert(block.instructions@.take(i as int) + o =~= o);
        }
    }
    while i < block.instructions.len()
        invariant
            0 <= consumed <= orig.len(),
            i <= block.instructions@.len(),
            block.instructions@ == block.instructions@.take(i as int) + orig.skip(consumed),
            forall|o: Seq<IRInst>| #[trigger] pm_rel(orig.skip(consumed), o) ==> pm_rel(orig, block.instructions@.take(i as int) + o),
            changed || pm_changes(orig.skip(consumed)) == pm_changes(orig),
            changed ==> pm_changes(orig),
            block.label == old(block).label,
            block.predecessors == old(block).predecessors,
            block.successors == old(block).successors,
            block.reachable == old(block).reachable,
        decreases block.instructions@.len() - i,
    {
        let ghost rest = orig.skip(consumed);
        let ghost prefix = block.instructions@.take(i as int);
        proof {
            assert(block.instructions@.skip(i as int) == rest);
            lemma_chain_at_bound(rest);
        }
        let sw = convert_chain_at(block.instructions.as_slice(), i);
        match sw {
            Some(sw) => {
                let chain_len = sw.chain_length;
                let inst = sw.into_inst();
                let mut k: usize = 0;
                while k < chain_len
                    invariant
                        k <= chain_len == chain_at(rest) <= rest.len(),
                        block.instructions@ == prefix + rest.skip(k as int),
                        i == prefix.len(),
                        block.label == old(block).label,
                        block.predecessors == old(block).predecessors,
                        block.successors == old(block).successors,
                        block.reachable == old(block).reachable,
                    decreases chain_len - k,
                {
                    block.instructions.remove(i);
                    proof {
                        assert(block.instructions@ =~= prefix + rest.skip(k + 1));
                    }
                    k = k + 1;
                }
                block.instructions.insert(i, inst);
                proof {
                    let c = chain_at(rest);
                    assert(block.instructions@ =~= prefix.push(inst) + rest.skip(c));
                    assert forall|o: Seq<IRInst>| #[trigger] pm_rel(rest.skip(c), o) implies pm_rel(orig, prefix.push(inst) + o) by {
                        let o2 = seq![inst] + o;
                        assert(o2.skip(1) =~= o);
                        assert(o2[0] == inst);
                        assert(pm_rel(rest, o2));
                        assert(prefix + o2 =~= prefix.push(inst) + o);
                    }
                    assert(orig.skip(consumed + c) =~= rest.skip(c));
                    consumed = consumed + c;
                    assert(block.instructions@.take(i + 1) =~= prefix.push(inst));
                }
                changed = true;
            },
            None => {
                let is_fast = match &block.instructions[i].kind {
                    IRInstKind::TupleGet { index, .. } => *index < 8,
                    _ => false,
                };
                let ghost cur = block.instructions@[i as int];
                proof {
                    assert(cur == rest[0]);
                }
                if is_fast {
                    if let IRInstKind::TupleGet { tuple, index } = block.instructions[i].kind {
                        let mut ops: Vec<IRValueId> = Vec::new();
                        ops.push(tuple);
                        let fast_inst = IRInst {
                            kind: IRInstKind::Move { src: Reg::X(index), dst: Reg::X(0) },
                            result: block.instructions[i].result,
                            operands: ops,
                            beam_offset: block.instructions[i].beam_offset,
                            side_effects: SideEffects::none(),
                        };
                        assert(ops@ =~= seq![tuple]);
                        block.instructions.set(i, fast_inst);
                        proof {
                            assert forall|o: Seq<IRInst>| #[trigger] pm_rel(rest.skip(1), o) implies pm_rel(orig, prefix.push(fast_inst) + o) by {
                                let o2 = seq![fast_inst] + o;
                                assert(o2.skip(1) =~= o);
                                assert(pm_rel(rest, o2));
                                assert(prefix + o2 =~= prefix.push(fast_inst) + o);
                            }
                            assert(block.instructions@ =~= prefix.push(fast_inst) + rest.skip(1));
                        }
                    }
                    changed = true;
                } else {
                    proof {
                        assert forall|o: Seq<IRInst>| #[trigger] pm_rel(rest.skip(1), o) implies pm_rel(orig, prefix.push(cur) + o) by {
                            let o2 = seq![cur] + o;
                            assert(o2.skip(1) =~= o);
                            assert(pm_rel(rest, o2));
                            assert(prefix + o2 =~= prefix.push(cur) + o);
                        }
                        assert(block.instructions@ =~= prefix.push(cur) + rest.skip(1));
                    }
                }
                proof {
                    assert(orig.skip(consumed + 1) =~= rest.skip(1));
                    consumed = consumed + 1;
                    assert(block.instructions@.take(i + 1) =~= prefix.push(block.instructions@[i as int]));
                }
            },
        }
        i = i + 1;
    }
    proof {
        assert(block.instructions@.take(i as int) =~= block.instructions@);
        assert(orig.skip(consumed).len() == 0);
        assert(pm_rel(orig.skip(consumed), Seq::<IRInst>::empty()));
        assert(block.instructions@ + Seq::<IRInst>::empty() =~= block.instructions@);
    }
    changed
}

/// Pattern match optimization rewrites the instructions of each block
/// marked reachable as `pm_rel` describes and touches nothing else; a
/// change is reported exactly when a block has something to rewrite.
pub open spec fn pattern_match_post(old: IRFunction, new: IRFunction, changed: bool) -> bool {
    &&& same_header(new, old)
    &&& new.blocks@.len() == old.blocks@.len()
    &&& forall|i: int|
        0 <= i < old.blocks@.len() ==> {
            let ob = old.blocks@[i];
            let nb = #[trigger] new.blocks@[i];
            &&& nb.label == ob.label
            &&& nb.predecessors == ob.predecessors
            &&& nb.successors == ob.successors
            &&& nb.reachable == ob.reachable
            &&& ob.reachable ==> pm_rel(ob.instructions@, nb.instructions@)
            &&& !ob.reachable ==> nb.instructions == ob.instructions
        }
    &&& changed == exists|i: int|
        0 <= i < old.blocks@.len() && #[trigger] old.blocks@[i].reachable
            && pm_changes(old.blocks@[i].instructions@)
}

/// Optimizes pattern matching in every block marked reachable: each run
/// of at least two type tests on the same value becomes a switch over
/// their tags, and each tuple access at an index below 8 becomes a
/// direct move.  Returns whether it rewrote anything.
pub fn optimize(func: &mut IRFunction) -> (changed: bool)
    ensures
        pattern_match_post(*old(func), *final(func), changed),
{
    let ghost ob = func.blocks@;
    let mut changed = false;
    let mut idx: usize = 0;
    while idx < func.blocks.len()
        invariant
            idx <= func.blocks@.len() == ob.len(),
            ob == old(func).blocks@,
            same_header(*func, *old(func)),
            forall|j: int|
                0 <= j < ob.len() ==> {
                    let nb = #[trigger] func.blocks@[j];
                    &&& nb.label == ob[j].label
                    &&& nb.predecessors == ob[j].predecessors
                    &&& nb.successors == ob[j].successors
                    &&& nb.reachable == ob[j].reachable
                    &&& (j < idx && ob[j].reachable) ==> pm_rel(ob[j].instructions@, nb.instructions@)
                    &&& !(j < idx && ob[j].reachable) ==> nb.instructions == ob[j].instructions
                },
            changed == exists|j: int|
                0 <= j < idx && #[trigger] ob[j].reachable && pm_changes(ob[j].instructions@),
        decreases ob.len() - idx,
    {
        if func.blocks[idx].reachable {
            let c = optimize_block(&mut func.blocks[idx]);
            if c {
                changed = true;
            }
        }
        idx = idx + 1;
    }
    changed
}


/// What the pass leaves has nothing left to rewrite.
proof fn lemma_pm_settled(inp: Seq<IRInst>, out: Seq<IRInst>)
    requires
        pm_rel(inp, out),
    ensures
        !pm_changes(out),
    decreases inp.len(),
{
    if inp.len() > 0 {
        lemma_chain_at_bound(inp);
        let c = chain_at(inp);
        if c >= 2 {
            lemma_pm_settled(inp.skip(c), out.skip(1));
            assert(type_tag(out[0].kind) is None);
            assert(chain_at(out) == 0);
            assert(!fast_tuple_access(out[0]));
        } else if fast_tuple_access(inp[0]) {
            lemma_pm_settled(inp.skip(1), out.skip(1));
            assert(type_tag(out[0].kind) is None);
            assert(chain_at(out) == 0);
            assert(!fast_tuple_access(out[0]));
        } else {
            lemma_pm_settled(inp.skip(1), out.skip(1));
            if chain_at(out) >= 2 {
                let v = out[0].operands@[0];
                assert(out[0] == inp[0]);
                lemma_pm_first(inp.skip(1), out.skip(1));
                assert(out.skip(1)[0] == out[1]);
                assert(inp.skip(1)[0] == inp[1]);
                if inp.len() >= 2 {
                    assert(chain_at(inp) == chain_run(inp, v, 0));
                    lemma_chain_run(inp, v, 0);
                    lemma_chain_run(inp, v, 1);
                    assert(!in_chain(inp[1], v));
                }
                lemma_chain_run(out, v, 0);
                lemma_chain_run(out, v, 1);
                assert(!in_chain(out[1], v));
                assert(chain_run(out, v, 1) == 1);
                assert(false);
            }
        }
        assert(out.skip(1) =~= out.skip(1));
    }
}

/// The first instruction that the pass makes of a non-empty sequence is
/// its switch, its move, or the first instruction itself; a one-element
/// sequence gives one instruction.
proof fn lemma_pm_first(inp: Seq<IRInst>, out: Seq<IRInst>)
    requires
        pm_rel(inp, out),
    ensures
        inp.len() == 0 <==> out.len() == 0,
        inp.len() > 0 && out[0] != inp[0] ==> type_tag(out[0].kind) is None,
        inp.len() > 0 && out[0] == inp[0] ==> !(chain_at(inp) >= 2),
        inp.len() == 1 ==> out.len() == 1,
{
    if inp.len() > 0 {
        lemma_chain_at_bound(inp);
        if chain_at(inp) >= 2 {
            assert(out[0].kind is Switch);
            assert(type_tag(inp[0].kind) is Some);
        } else if fast_tuple_access(inp[0]) {
            assert(out[0].kind is Move);
            assert(inp[0].kind is TupleGet);
        }
        if inp.len() == 1 {
            assert(inp.skip(1).len() == 0);
            assert(chain_at(inp) == 0);
            assert(pm_rel(inp.skip(1), out.skip(1)));
            assert(out.skip(1).len() == 0);
        }
    }
}

/// A sequence with nothing to rewrite comes out as it went in.
proof fn lemma_pm_unchanged(inp: Seq<IRInst>, out: Seq<IRInst>)
    requires
        pm_rel(inp, out),
        !pm_changes(inp),
    ensures
        out == inp,
    decreases inp.len(),
{
    if inp.len() > 0 {
        lemma_chain_at_bound(inp);
        lemma_pm_unchanged(inp.skip(1), out.skip(1));
        assert(out =~= inp) by {
            assert forall|k: int| 0 <= k < inp.len() implies out[k] == inp[k] by {
                if k > 0 {
                    assert(out.skip(1)[k - 1] == out[k]);
                    assert(inp.skip(1)[k - 1] == inp[k]);
                }
            }
        }
    }
}

/// Pattern match optimization is idempotent: run again on what it
/// produced, it finds nothing to rewrite, reports no change and leaves
/// every block's instructions as they are.
pub proof fn law_pattern_match_idempotent(f0: IRFunction, f1: IRFunction, c1: bool, f2: IRFunction, c2: bool)
    requires
        pattern_match_post(f0, f1, c1),
        pattern_match_post(f1, f2, c2),
    ensures
        !c2,
        f2.blocks@.len() == f1.blocks@.len(),
        forall|i: int| 0 <= i < f1.blocks@.len() ==> (#[trigger] f2.blocks@[i]).instructions@ == f1.blocks@[i].instructions@,
{
    assert forall|i: int| 0 <= i < f1.blocks@.len() && #[trigger] f1.blocks@[i].reachable implies !pm_changes(
        f1.blocks@[i].instructions@,
    ) by {
        assert(f0.blocks@[i].reachable);
        lemma_pm_settled(f0.blocks@[i].instructions@, f1.blocks@[i].instructions@);
    }
    assert forall|i: int| 0 <= i < f1.blocks@.len() implies (#[trigger] f2.blocks@[i]).instructions@
        == f1.blocks@[i].instructions@ by {
        if f1.blocks@[i].reachable {
            lemma_pm_settled(f0.blocks@[i].instructions@, f1.blocks@[i].instructions@);
            lemma_pm_unchanged(f1.blocks@[i].instructions@, f2.blocks@[i].instructions@);
        }
    }
}

} // verus!
