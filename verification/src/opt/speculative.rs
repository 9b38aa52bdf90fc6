//! Speculative optimization: specialized fast paths under type
//! assumptions, guarded, with a deoptimizing slow path.
//!
//! A type test is an opportunity when the benefit of assuming its type
//! (no boxing, no runtime checks) exceeds the cost of the guard that
//! checks the assumption; opportunities are ranked by benefit per unit
//! of guard cost.

use crate::function::{BasicBlock, IRFunction};
use crate::instruction::{IRInst, IRInstKind, Label, SideEffects, no_effects};
use crate::type_system::{
    ConstantValue, GuardV, IRType, KindV, SpeculativeGuard, TypeKind, guard_cost, guard_view, kind_view,
    tys_view,
};
use crate::value::IRValueId;
use vstd::prelude::*;

verus! {

broadcast use vstd::seq::group_seq_axioms, vstd::std_specs::vec::group_vec_axioms;

/// A type test worth specializing for.
#[derive(Debug, Clone)]
pub struct SpeculativeOpportunity {
    /// The value tested
    pub test_value: IRValueId,
    /// The type assumed
    pub assumed_type: IRType,
    /// The guard that checks the assumption
    pub guard: SpeculativeGuard,
    /// The label of the fast path
    pub fast_path: Label,
    /// The label of the slow path
    pub slow_path: Label,
    /// The estimated benefit
    pub benefit: u32,
    /// The cost of the guard
    pub guard_cost: u32,
}

/// The benefit of knowing a value's type: immediate types and known
/// shapes gain most, constants the most of all, the dynamic, top and
/// bottom types nothing; a union gains half of its first part.
pub open spec fn benefit_spec(k: KindV) -> int
    decreases k,
{
    match k {
        KindV::SmallInt | KindV::NonNegInt | KindV::Int64 => 10,
        KindV::Float => 10,
        KindV::Atom | KindV::Boolean | KindV::Nil => 8,
        KindV::Tuple { .. } => 6,
        KindV::StableTuple { .. } => 8,
        KindV::List | KindV::Cons => 5,
        KindV::AnyMap => 5,
        KindV::MapShape { .. } => 9,
        KindV::Tensor { .. } => 12,
        KindV::Message { .. } => 7,
        KindV::Actor { .. } => 7,
        KindV::Fun { .. } => 4,
        KindV::Constant(_) => 15,
        KindV::Union(a, _) => benefit_spec(*a) / 2,
        KindV::Intersection(a, _) => benefit_spec(*a),
        KindV::Difference(a, _) => benefit_spec(*a),
        KindV::RecursiveVar { bound, .. } => match bound {
            Some(b) => benefit_spec(*b),
            None => 2,
        },
        KindV::Speculative { assumed, .. } => benefit_spec(*assumed),
        KindV::Dynamic => 0,
        KindV::Any | KindV::Bottom => 0,
        _ => 3,
    }
}

proof fn lemma_benefit_bound(k: KindV)
    ensures
        0 <= benefit_spec(k) <= 15,
    decreases k,
{
    match k {
        KindV::Union(a, _) => lemma_benefit_bound(*a),
        KindV::Intersection(a, _) => lemma_benefit_bound(*a),
        KindV::Difference(a, _) => lemma_benefit_bound(*a),
        KindV::RecursiveVar { bound, .. } => if let Some(b) = bound {
            lemma_benefit_bound(*b);
        },
        KindV::Speculative { assumed, .. } => lemma_benefit_bound(*assumed),
        _ => {},
    }
}

/// The benefit of knowing a value's type.
pub fn estimate_speculative_benefit(ty: &IRType) -> (r: u32)
    ensures
        r == benefit_spec(ty@),
    decreases ty,
{
    proof {
        lemma_benefit_bound(ty@);
    }
    match &ty.kind {
        TypeKind::SmallInt | TypeKind::NonNegInt | TypeKind::Int64 => 10,
        TypeKind::Float => 10,
        TypeKind::Atom | TypeKind::Boolean | TypeKind::Nil => 8,
        TypeKind::Tuple { .. } => 6,
        TypeKind::StableTuple { .. } => 8,
        TypeKind::List | TypeKind::Cons => 5,
        TypeKind::AnyMap => 5,
        TypeKind::MapShape { .. } => 9,
        TypeKind::Tensor { .. } => 12,
        TypeKind::Message { .. } => 7,
        TypeKind::Actor { .. } => 7,
        TypeKind::Fun { .. } => 4,
        TypeKind::Constant(_) => 15,
        TypeKind::Union(a, _) => estimate_speculative_benefit(a) / 2,
        TypeKind::Intersection(a, _) => estimate_speculative_benefit(a),
        TypeKind::Difference(a, _) => estimate_speculative_benefit(a),
        TypeKind::RecursiveVar { bound, .. } => match bound {
            Some(b) => estimate_speculative_benefit(b),
            None => 2,
        },
        TypeKind::Speculative { assumed, .. } => estimate_speculative_benefit(assumed),
        TypeKind::Dynamic => 0,
        TypeKind::Any | TypeKind::Bottom => 0,
        _ => 3,
    }
}

/// The model of an opportunity.
pub struct OppV {
    /// The value tested
    pub test_value: IRValueId,
    /// The type assumed
    pub assumed: KindV,
    /// The guard
    pub guard: GuardV,
    /// The label of the fast path
    pub fast_path: Label,
    /// The label of the slow path
    pub slow_path: Label,
    /// The estimated benefit
    pub benefit: u32,
    /// The cost of the guard
    pub guard_cost: u32,
}

/// The model of an opportunity.
pub open spec fn opp_view(o: SpeculativeOpportunity) -> OppV {
    OppV {
        test_value: o.test_value,
        assumed: o.assumed_type@,
        guard: guard_view(o.guard),
        fast_path: o.fast_path,
        slow_path: o.slow_path,
        benefit: o.benefit,
        guard_cost: o.guard_cost,
    }
}

/// The type assumed for a type test, and its guard.
pub open spec fn test_assumption(k: IRInstKind) -> Option<(KindV, GuardV)> {
    match k {
        IRInstKind::IsSmallInt => Some((KindV::SmallInt, GuardV::IsImmediate(Box::new(KindV::SmallInt)))),
        IRInstKind::IsTuple => Some(
            (KindV::Tuple { arity: 0 }, GuardV::IsComposite(Box::new(KindV::Tuple { arity: 0 }))),
        ),
        IRInstKind::IsAtom => Some((KindV::Atom, GuardV::IsImmediate(Box::new(KindV::Atom)))),
        IRInstKind::IsFloat => Some((KindV::Float, GuardV::IsImmediate(Box::new(KindV::Float)))),
        IRInstKind::IsList => Some((KindV::List, GuardV::IsComposite(Box::new(KindV::List)))),
        IRInstKind::IsMap => Some((KindV::AnyMap, GuardV::IsComposite(Box::new(KindV::AnyMap)))),
        IRInstKind::IsStableTuple => Some(
            (
                KindV::StableTuple { element_types: Seq::empty(), immutable: true },
                GuardV::StableTupleShape { element_types: Seq::empty() },
            ),
        ),
        IRInstKind::IsNil => Some((KindV::Nil, GuardV::IsConstant(ConstantValue::Nil))),
        _ => None,
    }
}

/// The opportunity of an instruction: a type test with an operand whose
/// assumed type gains more than its guard costs; both paths are label 0.
pub open spec fn inst_opportunity(inst: IRInst) -> Option<OppV> {
    match test_assumption(inst.kind) {
        Some((t, g)) => if inst.operands@.len() > 0 && benefit_spec(t) > guard_cost(g) {
            Some(
                OppV {
                    test_value: inst.operands@[0],
                    assumed: t,
                    guard: g,
                    fast_path: Label(0),
                    slow_path: Label(0),
                    benefit: benefit_spec(t) as u32,
                    guard_cost: guard_cost(g) as u32,
                },
            )
        } else {
            None
        },
        None => None,
    }
}

/// The opportunity of an instruction, found.
fn analyze_type_test(inst: &IRInst) -> (r: Option<SpeculativeOpportunity>)
    ensures
        match r {
            Some(o) => inst_opportunity(*inst) == Some(opp_view(o)),
            None => inst_opportunity(*inst) is None,
        },
{
    if inst.operands.len() == 0 {
        return None;
    }
    let val = inst.operands[0];
    let (assumed_type, guard) = match &inst.kind {
        IRInstKind::IsSmallInt => (IRType::new(TypeKind::SmallInt), SpeculativeGuard::IsImmediate(Box::new(TypeKind::SmallInt))),
        IRInstKind::IsTuple => (IRType::new(TypeKind::Tuple { arity: 0 }), SpeculativeGuard::IsComposite(Box::new(TypeKind::Tuple { arity: 0 }))),
        IRInstKind::IsAtom => (IRType::new(TypeKind::Atom), SpeculativeGuard::IsImmediate(Box::new(TypeKind::Atom))),
        IRInstKind::IsFloat => (IRType::new(TypeKind::Float), SpeculativeGuard::IsImmediate(Box::new(TypeKind::Float))),
        IRInstKind::IsList => (IRType::new(TypeKind::List), SpeculativeGuard::IsComposite(Box::new(TypeKind::List))),
        IRInstKind::IsMap => (IRType::new(TypeKind::AnyMap), SpeculativeGuard::IsComposite(Box::new(TypeKind::AnyMap))),
        IRInstKind::IsStableTuple => {
            let e1: Vec<IRType> = Vec::new();
            let e2: Vec<IRType> = Vec::new();
            assert(tys_view(e1@) =~= Seq::<KindV>::empty());
            assert(tys_view(e2@) =~= Seq::<KindV>::empty());
            (IRType::new(TypeKind::StableTuple { element_types: e1, immutable: true }), SpeculativeGuard::StableTupleShape { element_types: e2 })
        },
        IRInstKind::IsNil => (IRType::new(TypeKind::Nil), SpeculativeGuard::IsConstant(ConstantValue::Nil)),
        _ => return None,
    };
    let benefit = estimate_speculative_benefit(&assumed_type);
    let cost = guard.cost();
    if benefit > cost {
        Some(SpeculativeOpportunity {
            test_value: val,
            assumed_type,
            guard,
            fast_path: Label(0),
            slow_path: Label(0),
            benefit,
            guard_cost: cost,
        })
    } else {
        None
    }
}

/// The opportunities of a sequence of instructions, in order.
pub open spec fn insts_opps(insts: Seq<IRInst>) -> Seq<OppV>
    decreases insts.len(),
{
    if insts.len() == 0 {
        Seq::empty()
    } else {
        match inst_opportunity(insts.last()) {
            Some(o) => insts_opps(insts.drop_last()).push(o),
            None => insts_opps(insts.drop_last()),
        }
    }
}

/// The opportunities of the first `n` blocks marked reachable, in order.
pub open spec fn blocks_opps(blocks: Seq<BasicBlock>, n: int) -> Seq<OppV>
    decreases n,
{
    if n <= 0 {
        Seq::empty()
    } else if blocks[n - 1].reachable {
        blocks_opps(blocks, n - 1) + insts_opps(blocks[n - 1].instructions@)
    } else {
        blocks_opps(blocks, n - 1)
    }
}

/// Whether `a` ranks strictly below `b`: its benefit per unit of guard
/// cost (a cost of 0 counting as 1) is smaller.
pub open spec fn ranks_below(a: OppV, b: OppV) -> bool {
    a.benefit * (if b.guard_cost > 0 { b.guard_cost as int } else { 1 }) < b.benefit * (if a.guard_cost > 0 {
        a.guard_cost as int
    } else {
        1
    })
}

/// The position where `x` goes in a ranked sequence: after every
/// opportunity that does not rank below it.
pub open spec fn insert_pos(s: Seq<OppV>, x: OppV, k: int) -> int
    decreases s.len() - k,
{
    if k >= s.len() || ranks_below(s[k], x) {
        k
    } else {
        insert_pos(s, x, k + 1)
    }
}

/// A stable sort by rank, highest first.
pub open spec fn rank_sort(s: Seq<OppV>) -> Seq<OppV>
    decreases s.len(),
{
    if s.len() == 0 {
        s
    } else {
        let sorted = rank_sort(s.drop_last());
        sorted.insert(insert_pos(sorted, s.last(), 0), s.last())
    }
}

proof fn lemma_insert_pos(s: Seq<OppV>, x: OppV, k: int)
    requires
        0 <= k <= s.len(),
    ensures
        k <= insert_pos(s, x, k) <= s.len(),
    decreases s.len() - k,
{
    if k < s.len() && !ranks_below(s[k], x) {
        lemma_insert_pos(s, x, k + 1);
    }
}

proof fn lemma_rank_sort_len(s: Seq<OppV>)
    ensures
        rank_sort(s).len() == s.len(),
    decreases s.len(),
{
    if s.len() > 0 {
        lemma_rank_sort_len(s.drop_last());
        lemma_insert_pos(rank_sort(s.drop_last()), s.last(), 0);
    }
}

/// Whether `a` ranks below `b`, computed.
fn rank_lt(a: &SpeculativeOpportunity, b: &SpeculativeOpportunity) -> (r: bool)
    ensures
        r == ranks_below(opp_view(*a), opp_view(*b)),
{
    let cb: u64 = if b.guard_cost > 0 { b.guard_cost as u64 } else { 1 };
    let ca: u64 = if a.guard_cost > 0 { a.guard_cost as u64 } else { 1 };
    assert(a.benefit as u64 * cb <= u32::MAX as u64 * u32::MAX as u64) by (nonlinear_arith)
        requires
            a.benefit <= u32::MAX,
            cb <= u32::MAX,
    ;
    assert(b.benefit as u64 * ca <= u32::MAX as u64 * u32::MAX as u64) by (nonlinear_arith)
        requires
            b.benefit <= u32::MAX,
            ca <= u32::MAX,
    ;
    (a.benefit as u64) * cb < (b.benefit as u64) * ca
}

/// The opportunities of a function: the type tests with an operand in the
/// blocks marked reachable whose assumed type gains more than its guard
/// costs, ranked by benefit per unit of guard cost, highest first, equal
/// ranks in program order.
pub fn find_opportunities(func: &IRFunction) -> (r: Vec<SpeculativeOpportunity>)
    ensures
        r@.map_values(|o: SpeculativeOpportunity| opp_view(o)) == rank_sort(blocks_opps(func.blocks@, func.blocks@.len() as int)),
{
    let ghost blocks = func.blocks@;
    let mut opportunities: Vec<SpeculativeOpportunity> = Vec::new();
    let ghost mut found: Seq<OppV> = Seq::empty();
    let mut b: usize = 0;
    while b < func.blocks.len()
        invariant
            b <= blocks.len(),
            blocks == func.blocks@,
            found == blocks_opps(blocks, b as int),
            opportunities@.map_values(|o: SpeculativeOpportunity| opp_view(o)) == rank_sort(found),
        decreases blocks.len() - b,
    {
        if func.blocks[b].reachable {
            let insts = &func.blocks[b].instructions;
            let ghost base = found;
            let mut i: usize = 0;
            proof {
                assert(base + insts_opps(insts@.take(0)) =~= base);
            }
            while i < insts.len()
                invariant
                    b < blocks.len(),
                    blocks == func.blocks@,
                    *insts == blocks[b as int].instructions,
                    i <= insts@.len(),
                    found == base + insts_opps(insts@.take(i as int)),
                    opportunities@.map_values(|o: SpeculativeOpportunity| opp_view(o)) == rank_sort(found),
                decreases insts@.len() - i,
            {
                proof {
                    assert(insts@.take(i + 1).drop_last() == insts@.take(i as int));
                    assert(insts@.take(i + 1).last() == insts@[i as int]);
                }
                match analyze_type_test(&insts[i]) {
                    Some(opp) => {
                        let ghost sorted = rank_sort(found);
                        let ghost x = opp_view(opp);
                        proof {
                            lemma_rank_sort_len(found);
                        }
                        let mut pos: usize = 0;
                        while pos < opportunities.len() && !rank_lt(&opportunities[pos], &opp)
                            invariant
                                pos <= opportunities@.len() == sorted.len(),
                                opportunities@.map_values(|o: SpeculativeOpportunity| opp_view(o)) == sorted,
                                x == opp_view(opp),
                                insert_pos(sorted, x, 0) == insert_pos(sorted, x, pos as int),
                            decreases opportunities@.len() - pos,
                        {
                            proof {
                                assert(sorted[pos as int] == opp_view(opportunities@[pos as int]));
                            }
                            pos = pos + 1;
                        }
                        proof {
                            if pos < opportunities@.len() {
                                assert(sorted[pos as int] == opp_view(opportunities@[pos as int]));
                            }
                        }
                        let ghost before = opportunities@;
                        opportunities.insert(pos, opp);
                        proof {
                            assert(found.push(x).drop_last() == found);
                            assert(opportunities@.map_values(|o: SpeculativeOpportunity| opp_view(o)) =~= sorted.insert(pos as int, x));
                            found = found.push(x);
                            assert(found =~= base + insts_opps(insts@.take(i + 1)));
                        }
                    },
                    None => {
                        proof {
                            assert(found =~= base + insts_opps(insts@.take(i + 1)));
                        }
                    },
                }
                i = i + 1;
            }
            proof {
                assert(insts@.take(insts@.len() as int) == insts@);
            }
        }
        proof {
            assert(found =~= blocks_opps(blocks, b + 1));
        }
        b = b + 1;
    }
    opportunities
}


/// Whether an instruction of a block marked reachable defines `v`.
pub open spec fn defined_in_reachable(blocks: Seq<BasicBlock>, v: IRValueId) -> bool {
    exists|b: int, i: int|
        0 <= b < blocks.len() && 0 <= i < blocks[b].instructions@.len() && blocks[b].reachable
            && #[trigger] blocks[b].instructions@[i].result == Some(v)
}

/// Whether an opportunity applies: an instruction of a block marked
/// reachable defines the value it tests.
fn apply_speculative(func: &IRFunction, opp: &SpeculativeOpportunity) -> (r: bool)
    ensures
        r == defined_in_reachable(func.blocks@, opp.test_value),
{
    let ghost blocks = func.blocks@;
    let mut b: usize = 0;
    while b < func.blocks.len()
        invariant
            b <= blocks.len(),
            blocks == func.blocks@,
            forall|bb: int, i: int|
                0 <= bb < b && 0 <= i < blocks[bb].instructions@.len() && blocks[bb].reachable
                    ==> #[trigger] blocks[bb].instructions@[i].result != Some(opp.test_value),
        decreases blocks.len() - b,
    {
        if func.blocks[b].reachable {
            let insts = &func.blocks[b].instructions;
            let mut i: usize = 0;
            while i < insts.len()
                invariant
                    b < blocks.len(),
                    blocks == func.blocks@,
                    *insts == blocks[b as int].instructions,
                    blocks[b as int].reachable,
                    i <= insts@.len(),
                    forall|j: int| 0 <= j < i ==> #[trigger] insts@[j].result != Some(opp.test_value),
                decreases insts@.len() - i,
            {
                if insts[i].result == Some(opp.test_value) {
                    assert(blocks[b as int].instructions@[i as int].result == Some(opp.test_value));
                    return true;
                }
                i = i + 1;
            }
        }
        b = b + 1;
    }
    false
}

/// Speculative optimization only plans: the function stays unchanged, and
/// the pass reports a change exactly when a ranked opportunity has a
/// benefit above its guard cost and tests a value defined in a block
/// marked reachable.
pub open spec fn speculative_post(old: IRFunction, new: IRFunction, changed: bool) -> bool {
    &&& new == old
    &&& changed == exists|k: int|
        0 <= k < rank_sort(blocks_opps(old.blocks@, old.blocks@.len() as int)).len() && {
            let o = #[trigger] rank_sort(blocks_opps(old.blocks@, old.blocks@.len() as int))[k];
            o.benefit > o.guard_cost && defined_in_reachable(old.blocks@, o.test_value)
        }
}

/// Applies speculative optimization: returns whether some opportunity
/// whose benefit exceeds its guard cost tests a value that an instruction
/// of a block marked reachable defines.  The function itself is left as
/// it is: code generation emits the guarded fast paths.
pub fn optimize(func: &mut IRFunction) -> (changed: bool)
    ensures
        speculative_post(*old(func), *final(func), changed),
{
    let opportunities = find_opportunities(func);
    let ghost sorted = rank_sort(blocks_opps(func.blocks@, func.blocks@.len() as int));
    let mut changed = false;
    let mut k: usize = 0;
    while k < opportunities.len()
        invariant
            k <= opportunities@.len(),
            *func == *old(func),
            opportunities@.map_values(|o: SpeculativeOpportunity| opp_view(o)) == sorted,
            sorted == rank_sort(blocks_opps(func.blocks@, func.blocks@.len() as int)),
            changed == exists|j: int|
                0 <= j < k && {
                    let o = #[trigger] sorted[j];
                    o.benefit > o.guard_cost && defined_in_reachable(func.blocks@, o.test_value)
                },
        decreases opportunities@.len() - k,
    {
        let opp = &opportunities[k];
        proof {
            assert(sorted[k as int] == opp_view(opportunities@[k as int]));
        }
        if opp.benefit > opp.guard_cost {
            if apply_speculative(func, opp) {
                changed = true;
            }
        }
        k = k + 1;
    }
    changed
}

/// The guard of a speculation: a conditional branch on the tested value
/// to the fast path when it holds and to the slow path otherwise.
pub fn create_deopt_guard(test_value: IRValueId, assumed_type: &IRType, fast_path: Label, slow_path: Label) -> (r: IRInst)
    ensures
        r.kind matches IRInstKind::BrIf { cond, true_target, false_target } && cond == test_value
            && true_target == fast_path && false_target == slow_path,
        r.result is None,
        r.operands@ == seq![test_value],
        r.beam_offset == 0,
        r.side_effects == no_effects(),
{
    let mut operands: Vec<IRValueId> = Vec::new();
    operands.push(test_value);
    assert(operands@ =~= seq![test_value]);
    IRInst {
        kind: IRInstKind::BrIf { cond: test_value, true_target: fast_path, false_target: slow_path },
        result: None,
        operands,
        beam_offset: 0,
        side_effects: SideEffects::none(),
    }
}

} // verus!
