//! Type inference: propagates types through the SSA IR.
//!
//! Each instruction yields constraints on values (a type test constrains
//! its operand, arithmetic wants small integers, a constant has its exact
//! type, a narrowing gives its type); the solver then takes, for each
//! value in turn, the meet of its constraints, over a worklist bounded to
//! one hundred steps.

use crate::function::{BasicBlock, IRFunction};
use crate::instruction::{IRInst, IRInstKind};
use crate::type_system::{
    ConstantValue, IRType, KindV, TypeKind, contains_spec, copy_type, kind_view, law_lattice_idempotent, meet_spec,
    join_spec, type_eq,
};
use crate::value::IRValueId;
use vstd::prelude::*;

verus! {

broadcast use vstd::seq::group_seq_axioms, vstd::std_specs::vec::group_vec_axioms,
    vstd::seq_lib::group_seq_properties;

/// A constraint on a value.
#[derive(Debug, Clone)]
pub enum Constraint {
    /// The value is a subtype of this type
    SubtypeOf(IRType),
    /// The value has exactly this type
    IsType(IRType),
    /// The value is within the join of the types of two values
    Join(IRValueId, IRValueId),
    /// The value is within the meet of the types of two values
    Meet(IRValueId, IRValueId),
}

/// The model of a constraint.
pub enum ConstraintV {
    /// A subtype constraint
    Sub(KindV),
    /// An exact type constraint
    Is(KindV),
    /// A join constraint
    JoinOf(IRValueId, IRValueId),
    /// A meet constraint
    MeetOf(IRValueId, IRValueId),
}

/// The model of a constraint.
pub open spec fn constraint_view(c: Constraint) -> ConstraintV {
    match c {
        Constraint::SubtypeOf(t) => ConstraintV::Sub(t@),
        Constraint::IsType(t) => ConstraintV::Is(t@),
        Constraint::Join(a, b) => ConstraintV::JoinOf(a, b),
        Constraint::Meet(a, b) => ConstraintV::MeetOf(a, b),
    }
}

/// The inferred types: a list of insertions, the last one for a value
/// giving its type.
#[derive(Debug, Clone)]
pub struct TypeMap {
    /// The insertions, in order
    pub entries: Vec<(IRValueId, IRType)>,
}

/// The types that a list of insertions gives.
pub open spec fn type_map_view(entries: Seq<(IRValueId, IRType)>) -> Map<IRValueId, KindV>
    decreases entries.len(),
{
    if entries.len() == 0 {
        Map::empty()
    } else {
        type_map_view(entries.drop_last()).insert(entries.last().0, entries.last().1@)
    }
}

impl TypeMap {
    /// The inferred types by value.
    pub open spec fn view(&self) -> Map<IRValueId, KindV> {
        type_map_view(self.entries@)
    }

    /// The inferred type of a value, if any.
    pub fn get(&self, id: &IRValueId) -> (r: Option<&IRType>)
        ensures
            r is Some <==> self.view().contains_key(*id),
            r matches Some(t) ==> t@ == self.view()[*id],
    {
        let mut i: usize = self.entries.len();
        while i > 0
            invariant
                i <= self.entries@.len(),
                forall|j: int| i <= j < self.entries@.len() ==> (#[trigger] self.entries@[j]).0 != *id,
            decreases i,
        {
            proof {
                lemma_view_suffix_free(self.entries@, i as int, *id);
            }
            if self.entries[i - 1].0 == *id {
                proof {
                    lemma_view_last_at(self.entries@, (i - 1) as int, *id);
                }
                return Some(&self.entries[i - 1].1);
            }
            i = i - 1;
        }
        proof {
            lemma_view_suffix_free(self.entries@, 0, *id);
        }
        None
    }
}

proof fn lemma_view_suffix_free(entries: Seq<(IRValueId, IRType)>, i: int, v: IRValueId)
    requires
        0 <= i <= entries.len(),
        forall|j: int| i <= j < entries.len() ==> (#[trigger] entries[j]).0 != v,
    ensures
        type_map_view(entries).contains_key(v) == type_map_view(entries.take(i)).contains_key(v),
        type_map_view(entries).contains_key(v) ==> type_map_view(entries)[v] == type_map_view(entries.take(i))[v],
    decreases entries.len() - i,
{
    if i < entries.len() {
        assert(entries.drop_last().take(i) == entries.take(i));
        lemma_view_suffix_free(entries.drop_last(), i, v);
        assert(entries.last() == entries[entries.len() - 1]);
    } else {
        assert(entries.take(i) == entries);
    }
}

proof fn lemma_view_last_at(entries: Seq<(IRValueId, IRType)>, k: int, v: IRValueId)
    requires
        0 <= k < entries.len(),
        entries[k].0 == v,
        forall|j: int| k < j < entries.len() ==> (#[trigger] entries[j]).0 != v,
    ensures
        type_map_view(entries).contains_key(v),
        type_map_view(entries)[v] == entries[k].1@,
{
    lemma_view_suffix_free(entries, k + 1, v);
    assert(entries.take(k + 1).drop_last() == entries.take(k));
    assert(entries.take(k + 1).last() == entries[k]);
}

// ── Constraint generation ─────────────────────────────────────────────────

/// The constraints of a type test on operand `val` with result `res`.
pub open spec fn test_constraints(inst: IRInst, t: KindV) -> Seq<(IRValueId, ConstraintV)> {
    if inst.operands@.len() > 0 && inst.result is Some {
        seq![(inst.operands@[0], ConstraintV::Sub(t)), (inst.result.unwrap(), ConstraintV::Is(KindV::Boolean))]
    } else {
        Seq::empty()
    }
}

/// The constraint of an instruction's result, if it has one.
pub open spec fn result_constraint(inst: IRInst, c: ConstraintV) -> Seq<(IRValueId, ConstraintV)> {
    match inst.result {
        Some(r) => seq![(r, c)],
        None => Seq::empty(),
    }
}

/// The constraints that an instruction yields, in order.
pub open spec fn inst_constraints(inst: IRInst) -> Seq<(IRValueId, ConstraintV)> {
    match inst.kind {
        IRInstKind::IsTuple => test_constraints(inst, KindV::Tuple { arity: 0 }),
        IRInstKind::IsAtom => test_constraints(inst, KindV::Atom),
        IRInstKind::IsSmallInt => test_constraints(inst, KindV::SmallInt),
        IRInstKind::IsList => test_constraints(inst, KindV::List),
        IRInstKind::IsMap => test_constraints(inst, KindV::AnyMap),
        IRInstKind::IsFloat => test_constraints(inst, KindV::Float),
        IRInstKind::IsNil => test_constraints(inst, KindV::Nil),
        IRInstKind::Add | IRInstKind::Sub | IRInstKind::Mul => if inst.operands@.len() >= 2 {
            inst.operands@.map_values(|op: IRValueId| (op, ConstraintV::Sub(KindV::SmallInt)))
                + result_constraint(inst, ConstraintV::Sub(KindV::SmallInt))
        } else {
            Seq::empty()
        },
        IRInstKind::Eq | IRInstKind::Ne | IRInstKind::Gt | IRInstKind::Ge | IRInstKind::Lt
        | IRInstKind::Le => result_constraint(inst, ConstraintV::Is(KindV::Boolean)),
        IRInstKind::Narrow { value, new_type } => match inst.result {
            Some(r) => seq![(value, ConstraintV::Sub(new_type@)), (r, ConstraintV::Is(new_type@))],
            None => Seq::empty(),
        },
        IRInstKind::ConstSmallInt { value } => result_constraint(
            inst,
            ConstraintV::Is(KindV::Constant(ConstantValue::Int(value))),
        ),
        IRInstKind::ConstNil => result_constraint(inst, ConstraintV::Is(KindV::Nil)),
        IRInstKind::ConstTrue => result_constraint(inst, ConstraintV::Is(KindV::Boolean)),
        IRInstKind::ConstFalse => result_constraint(inst, ConstraintV::Is(KindV::Boolean)),
        IRInstKind::ConstAtom { .. } => result_constraint(inst, ConstraintV::Is(KindV::Atom)),
        IRInstKind::BrIf { cond, .. } => seq![(cond, ConstraintV::Sub(KindV::Boolean))],
        _ => Seq::empty(),
    }
}

/// The type that a subtype or exact constraint bounds a value by.
pub open spec fn bound_of(c: ConstraintV) -> Option<KindV> {
    match c {
        ConstraintV::Sub(t) => Some(t),
        ConstraintV::Is(t) => Some(t),
        _ => None,
    }
}

/// Whether every constraint of a list is on value `v` and bounds it by a
/// type that includes `k`.
pub open spec fn all_admit(cs: Seq<(IRValueId, ConstraintV)>, v: IRValueId, k: KindV) -> bool {
    forall|j: int|
        0 <= j < cs.len() ==> (#[trigger] cs[j]).0 == v && (bound_of(cs[j].1) matches Some(t)
            && contains_spec(t, k))
}

/// The constraints of a constant-loading instruction admit the constant it
/// loads: there is one, on its result when it has one, and its type
/// includes the atoms for an atom, `nil` for `nil`, each truth value for
/// `true` and `false`, and the loaded integer for a small integer.
pub proof fn law_constant_constraints_admit_constant(inst: IRInst)
    ensures
        (inst.kind is ConstAtom || inst.kind is ConstNil || inst.kind is ConstTrue || inst.kind is ConstFalse
            || inst.kind is ConstSmallInt) ==> inst_constraints(inst).len() == if inst.result is Some {
            1int
        } else {
            0int
        },
        inst.kind is ConstAtom && inst.result is Some ==> all_admit(
            inst_constraints(inst),
            inst.result.unwrap(),
            KindV::Atom,
        ),
        inst.kind is ConstNil && inst.result is Some ==> all_admit(
            inst_constraints(inst),
            inst.result.unwrap(),
            KindV::Constant(ConstantValue::Nil),
        ) && all_admit(inst_constraints(inst), inst.result.unwrap(), KindV::Nil),
        inst.kind is ConstTrue && inst.result is Some ==> all_admit(
            inst_constraints(inst),
            inst.result.unwrap(),
            KindV::Constant(ConstantValue::True),
        ),
        inst.kind is ConstFalse && inst.result is Some ==> all_admit(
            inst_constraints(inst),
            inst.result.unwrap(),
            KindV::Constant(ConstantValue::False),
        ),
        inst.result is Some ==> (inst.kind matches IRInstKind::ConstSmallInt { value } ==> all_admit(
            inst_constraints(inst),
            inst.result.unwrap(),
            KindV::Constant(ConstantValue::Int(value)),
        )),
{
    law_lattice_idempotent(KindV::Atom);
    law_lattice_idempotent(KindV::Nil);
    if let IRInstKind::ConstSmallInt { value } = inst.kind {
        law_lattice_idempotent(KindV::Constant(ConstantValue::Int(value)));
    }
}

/// A type test constrains its operand to exactly the tested type and its
/// result to the booleans, which hold both truth values: `is_atom` to the
/// atoms, `is_small_int` to the small integers, `is_list` to lists,
/// `is_map` to maps, `is_float` to floats and `is_nil` to `nil`.
pub proof fn law_type_test_constraints(inst: IRInst, t: KindV)
    requires
        inst.operands@.len() > 0,
        inst.result is Some,
        (inst.kind is IsAtom && t == KindV::Atom) || (inst.kind is IsSmallInt && t == KindV::SmallInt)
            || (inst.kind is IsList && t == KindV::List) || (inst.kind is IsMap && t == KindV::AnyMap)
            || (inst.kind is IsFloat && t == KindV::Float) || (inst.kind is IsNil && t == KindV::Nil),
    ensures
        inst_constraints(inst).len() == 2,
        inst_constraints(inst)[0].0 == inst.operands@[0],
        bound_of(inst_constraints(inst)[0].1) matches Some(u) && contains_spec(u, t) && contains_spec(t, u),
        inst_constraints(inst)[1].0 == inst.result.unwrap(),
        bound_of(inst_constraints(inst)[1].1) matches Some(u) && contains_spec(
            u,
            KindV::Constant(ConstantValue::True),
        ) && contains_spec(u, KindV::Constant(ConstantValue::False)),
{
    law_lattice_idempotent(t);
}

/// Arithmetic (`add`, `sub`, `mul` with at least two operands) bounds each
/// operand and its result by the small integers; a comparison bounds its
/// result by the booleans, which hold both truth values; a conditional
/// branch bounds its condition the same way.
pub proof fn law_arith_compare_constraints(inst: IRInst)
    ensures
        ((inst.kind is Add || inst.kind is Sub || inst.kind is Mul) && inst.operands@.len() >= 2) ==> {
            let cs = inst_constraints(inst);
            &&& cs.len() == inst.operands@.len() + if inst.result is Some { 1int } else { 0int }
            &&& forall|j: int| 0 <= j < inst.operands@.len() ==> (#[trigger] cs[j]).0 == inst.operands@[j]
            &&& inst.result is Some ==> cs.last().0 == inst.result.unwrap()
            &&& forall|j: int|
                0 <= j < cs.len() ==> (bound_of((#[trigger] cs[j]).1) matches Some(u) && contains_spec(
                    u,
                    KindV::SmallInt,
                ) && contains_spec(KindV::SmallInt, u))
        },
        ((inst.kind is Eq || inst.kind is Ne || inst.kind is Gt || inst.kind is Ge || inst.kind is Lt
            || inst.kind is Le) && inst.result is Some) ==> {
            let cs = inst_constraints(inst);
            &&& cs.len() == 1
            &&& cs[0].0 == inst.result.unwrap()
            &&& bound_of(cs[0].1) matches Some(u) && contains_spec(u, KindV::Constant(ConstantValue::True))
                && contains_spec(u, KindV::Constant(ConstantValue::False))
        },
        match inst.kind {
            IRInstKind::BrIf { cond, .. } => {
                let cs = inst_constraints(inst);
                &&& cs.len() == 1
                &&& cs[0].0 == cond
                &&& bound_of(cs[0].1) matches Some(u) && contains_spec(u, KindV::Constant(ConstantValue::True))
                    && contains_spec(u, KindV::Constant(ConstantValue::False))
            },
            _ => true,
        },
{
    law_lattice_idempotent(KindV::SmallInt);
}

/// The constraints of a sequence of instructions, in order.
pub open spec fn insts_constraints(insts: Seq<IRInst>) -> Seq<(IRValueId, ConstraintV)>
    decreases insts.len(),
{
    if insts.len() == 0 {
        Seq::empty()
    } else {
        insts_constraints(insts.drop_last()) + inst_constraints(insts.last())
    }
}

/// The constraints of the first `n` blocks marked reachable, in order.
pub open spec fn gen_constraints(blocks: Seq<BasicBlock>, n: int) -> Seq<(IRValueId, ConstraintV)>
    decreases n,
{
    if n <= 0 {
        Seq::empty()
    } else if blocks[n - 1].reachable {
        gen_constraints(blocks, n - 1) + insts_constraints(blocks[n - 1].instructions@)
    } else {
        gen_constraints(blocks, n - 1)
    }
}

/// The model of a list of generated constraints.
pub open spec fn cons_view(cons: Seq<(IRValueId, Constraint)>) -> Seq<(IRValueId, ConstraintV)> {
    cons.map_values(|p: (IRValueId, Constraint)| (p.0, constraint_view(p.1)))
}

/// Whether no constraint relates two values.
pub open spec fn no_relations(cons: Seq<(IRValueId, ConstraintV)>) -> bool {
    forall|k: int| 0 <= k < cons.len() ==> (#[trigger] cons[k]).1 is Sub || cons[k].1 is Is
}

proof fn lemma_cons_view_push(cons: Seq<(IRValueId, Constraint)>, p: (IRValueId, Constraint))
    ensures
        cons_view(cons.push(p)) == cons_view(cons).push((p.0, constraint_view(p.1))),
{
    assert(cons_view(cons.push(p)) =~= cons_view(cons).push((p.0, constraint_view(p.1))));
}

fn add_constraint(cons: &mut Vec<(IRValueId, Constraint)>, worklist: &mut Vec<IRValueId>, value: IRValueId, c: Constraint)
    ensures
        cons_view(final(cons)@) == cons_view(old(cons)@).push((value, constraint_view(c))),
        final(worklist)@ == old(worklist)@.push(value),
{
    proof {
        lemma_cons_view_push(old(cons)@, (value, c));
    }
    cons.push((value, c));
    worklist.push(value);
}

/// Adds the constraints of one instruction.
fn constrain_instruction(inst: &IRInst, cons: &mut Vec<(IRValueId, Constraint)>, worklist: &mut Vec<IRValueId>)
    ensures
        cons_view(final(cons)@) == cons_view(old(cons)@) + inst_constraints(*inst),
        final(worklist)@ == old(worklist)@ + inst_constraints(*inst).map_values(|p: (IRValueId, ConstraintV)| p.0),
{
    let ghost c0 = cons_view(cons@);
    let ghost w0 = worklist@;
    let test = match &inst.kind {
        IRInstKind::IsTuple => Some(TypeKind::Tuple { arity: 0 }),
        IRInstKind::IsAtom => Some(TypeKind::Atom),
        IRInstKind::IsSmallInt => Some(TypeKind::SmallInt),
        IRInstKind::IsList => Some(TypeKind::List),
        IRInstKind::IsMap => Some(TypeKind::AnyMap),
        IRInstKind::IsFloat => Some(TypeKind::Float),
        IRInstKind::IsNil => Some(TypeKind::Nil),
        _ => None,
    };
    match test {
        Some(t) => {
            if inst.operands.len() > 0 {
                if let Some(result) = inst.result {
                    let val = inst.operands[0];
                    let ghost tv = kind_view(t);
                    add_constraint(cons, worklist, val, Constraint::SubtypeOf(IRType::new(t)));
                    add_constraint(cons, worklist, result, Constraint::IsType(IRType::new(TypeKind::Boolean)));
                    proof {
                        assert(cons_view(cons@) =~= c0 + inst_constraints(*inst));
                        assert(worklist@ =~= w0 + inst_constraints(*inst).map_values(|p: (IRValueId, ConstraintV)| p.0));
                    }
                    return;
                }
            }
            proof {
                assert(cons_view(cons@) =~= c0 + inst_constraints(*inst));
                assert(worklist@ =~= w0 + inst_constraints(*inst).map_values(|p: (IRValueId, ConstraintV)| p.0));
            }
            return;
        },
        None => {},
    }
    match &inst.kind {
        IRInstKind::Add | IRInstKind::Sub | IRInstKind::Mul => {
            if inst.operands.len() >= 2 {
                let mut k: usize = 0;
                while k < inst.operands.len()
                    invariant
                        k <= inst.operands@.len(),
                        cons_view(cons@) == c0 + inst.operands@.take(k as int).map_values(|op: IRValueId| (op, ConstraintV::Sub(KindV::SmallInt))),
                        worklist@ == w0 + inst.operands@.take(k as int),
                    decreases inst.operands@.len() - k,
                {
                    add_constraint(cons, worklist, inst.operands[k], Constraint::SubtypeOf(IRType::new(TypeKind::SmallInt)));
                    proof {
                        assert(inst.operands@.take(k + 1) == inst.operands@.take(k as int).push(inst.operands@[k as int]));
                        assert(cons_view(cons@) =~= c0 + inst.operands@.take(k + 1).map_values(|op: IRValueId| (op, ConstraintV::Sub(KindV::SmallInt))));
                        assert(worklist@ =~= w0 + inst.operands@.take(k + 1));
                    }
                    k = k + 1;
                }
                proof {
                    assert(inst.operands@.take(k as int) == inst.operands@);
                }
                let ghost c1 = cons_view(cons@);
                let ghost w1 = worklist@;
                if let Some(result) = inst.result {
                    add_constraint(cons, worklist, result, Constraint::SubtypeOf(IRType::new(TypeKind::SmallInt)));
                }
                proof {
                    assert(cons_view(cons@) =~= c1 + result_constraint(*inst, ConstraintV::Sub(KindV::SmallInt)));
                    assert(cons_view(cons@) =~= c0 + inst_constraints(*inst));
                    assert(inst_constraints(*inst).map_values(|p: (IRValueId, ConstraintV)| p.0) =~= inst.operands@ + result_constraint(*inst, ConstraintV::Sub(KindV::SmallInt)).map_values(|p: (IRValueId, ConstraintV)| p.0));
                    assert(worklist@ =~= w0 + inst_constraints(*inst).map_values(|p: (IRValueId, ConstraintV)| p.0));
                }
            } else {
                proof {
                    assert(cons_view(cons@) =~= c0 + inst_constraints(*inst));
                    assert(worklist@ =~= w0 + inst_constraints(*inst).map_values(|p: (IRValueId, ConstraintV)| p.0));
                }
            }
        },
        IRInstKind::Narrow { value, new_type } => {
            if let Some(result) = inst.result {
                let t1 = copy_type(new_type);
                let t2 = copy_type(new_type);
                add_constraint(cons, worklist, *value, Constraint::SubtypeOf(t1));
                add_constraint(cons, worklist, result, Constraint::IsType(t2));
            }
            proof {
                assert(cons_view(cons@) =~= c0 + inst_constraints(*inst));
                assert(worklist@ =~= w0 + inst_constraints(*inst).map_values(|p: (IRValueId, ConstraintV)| p.0));
            }
        },
        IRInstKind::BrIf { cond, .. } => {
            add_constraint(cons, worklist, *cond, Constraint::SubtypeOf(IRType::new(TypeKind::Boolean)));
            proof {
                assert(cons_view(cons@) =~= c0 + inst_constraints(*inst));
                assert(worklist@ =~= w0 + inst_constraints(*inst).map_values(|p: (IRValueId, ConstraintV)| p.0));
            }
        },
        _ => {
            let exact = match &inst.kind {
                IRInstKind::Eq | IRInstKind::Ne | IRInstKind::Gt | IRInstKind::Ge | IRInstKind::Lt
                | IRInstKind::Le => Some(TypeKind::Boolean),
                IRInstKind::ConstSmallInt { value } => Some(TypeKind::Constant(ConstantValue::Int(*value))),
                IRInstKind::ConstNil => Some(TypeKind::Nil),
                IRInstKind::ConstTrue => Some(TypeKind::Boolean),
                IRInstKind::ConstFalse => Some(TypeKind::Boolean),
                IRInstKind::ConstAtom { .. } => Some(TypeKind::Atom),
                _ => None,
            };
            if let Some(t) = exact {
                if let Some(result) = inst.result {
                    add_constraint(cons, worklist, result, Constraint::IsType(IRType::new(t)));
                }
            }
            proof {
                assert(cons_view(cons@) =~= c0 + inst_constraints(*inst));
                assert(worklist@ =~= w0 + inst_constraints(*inst).map_values(|p: (IRValueId, ConstraintV)| p.0));
            }
        },
    }
}


/// Generates the constraints of the blocks marked reachable, in order,
/// with the worklist of the values they constrain.
fn generate_constraints(func: &IRFunction) -> (r: (Vec<(IRValueId, Constraint)>, Vec<IRValueId>))
    ensures
        cons_view(r.0@) == gen_constraints(func.blocks@, func.blocks@.len() as int),
        r.1@ == gen_constraints(func.blocks@, func.blocks@.len() as int).map_values(|p: (IRValueId, ConstraintV)| p.0),
{
    let ghost blocks = func.blocks@;
    let mut cons: Vec<(IRValueId, Constraint)> = Vec::new();
    let mut worklist: Vec<IRValueId> = Vec::new();
    let mut b: usize = 0;
    proof {
        assert(cons_view(cons@) =~= Seq::<(IRValueId, ConstraintV)>::empty());
    }
    while b < func.blocks.len()
        invariant
            b <= blocks.len(),
            blocks == func.blocks@,
            cons_view(cons@) == gen_constraints(blocks, b as int),
            worklist@ == gen_constraints(blocks, b as int).map_values(|p: (IRValueId, ConstraintV)| p.0),
        decreases blocks.len() - b,
    {
        if func.blocks[b].reachable {
            let insts = &func.blocks[b].instructions;
            let ghost c0 = cons_view(cons@);
            let mut i: usize = 0;
            proof {
                assert(c0 + insts_constraints(insts@.take(0)) =~= c0);
            }
            while i < insts.len()
                invariant
                    b < blocks.len(),
                    blocks == func.blocks@,
                    *insts == blocks[b as int].instructions,
                    i <= insts@.len(),
                    cons_view(cons@) == c0 + insts_constraints(insts@.take(i as int)),
                    worklist@ == cons_view(cons@).map_values(|p: (IRValueId, ConstraintV)| p.0),
                decreases insts@.len() - i,
            {
                proof {
                    assert(insts@.take(i + 1).drop_last() == insts@.take(i as int));
                    assert(insts@.take(i + 1).last() == insts@[i as int]);
                }
                let ghost cv = cons_view(cons@);
                constrain_instruction(&insts[i], &mut cons, &mut worklist);
                proof {
                    assert(cons_view(cons@) =~= c0 + insts_constraints(insts@.take(i + 1)));
                    assert(worklist@ =~= cons_view(cons@).map_values(|p: (IRValueId, ConstraintV)| p.0));
                }
                i = i + 1;
            }
            proof {
                assert(insts@.take(insts@.len() as int) == insts@);
            }
        }
        proof {
            assert(cons_view(cons@) =~= gen_constraints(blocks, b + 1));
        }
        b = b + 1;
    }
    (cons, worklist)
}

// ── Solving ───────────────────────────────────────────────────────────────

/// The type of a value in a table: the top type when the table has none.
pub open spec fn lookup_type(types: Map<IRValueId, KindV>, v: IRValueId) -> KindV {
    if types.contains_key(v) {
        types[v]
    } else {
        KindV::Any
    }
}

/// The constraints on `v`, in order.
pub open spec fn cons_for(cons: Seq<(IRValueId, ConstraintV)>, v: IRValueId) -> Seq<ConstraintV>
    decreases cons.len(),
{
    if cons.len() == 0 {
        Seq::empty()
    } else if cons.last().0 == v {
        cons_for(cons.drop_last(), v).push(cons.last().1)
    } else {
        cons_for(cons.drop_last(), v)
    }
}

/// A type narrowed by each constraint in turn: the meet with the type of
/// a subtype or exact constraint, or with the join (meet) of the current
/// types of the two values of a join (meet) constraint.
pub open spec fn apply_cons(t: KindV, cs: Seq<ConstraintV>, types: Map<IRValueId, KindV>) -> KindV
    decreases cs.len(),
{
    if cs.len() == 0 {
        t
    } else {
        let cur = apply_cons(t, cs.drop_last(), types);
        match cs.last() {
            ConstraintV::Sub(k) => meet_spec(cur, k),
            ConstraintV::Is(k) => meet_spec(cur, k),
            ConstraintV::JoinOf(a, b) => meet_spec(cur, join_spec(lookup_type(types, a), lookup_type(types, b))),
            ConstraintV::MeetOf(a, b) => meet_spec(cur, meet_spec(lookup_type(types, a), lookup_type(types, b))),
        }
    }
}

/// One solver step on value `v`: its constraints applied to its current
/// type; the table records the result when it differs.
pub open spec fn solve_step(types: Map<IRValueId, KindV>, cons: Seq<(IRValueId, ConstraintV)>, v: IRValueId) -> Map<IRValueId, KindV> {
    let cur = lookup_type(types, v);
    let new = apply_cons(cur, cons_for(cons, v), types);
    if new != cur {
        types.insert(v, new)
    } else {
        types
    }
}

/// The table after the first `k` steps of the worklist.
pub open spec fn solve_spec(cons: Seq<(IRValueId, ConstraintV)>, wl: Seq<IRValueId>, k: int) -> Map<IRValueId, KindV>
    decreases k,
{
    if k <= 0 {
        Map::empty()
    } else {
        solve_step(solve_spec(cons, wl, k - 1), cons, wl[k - 1])
    }
}

/// The largest number of solver steps.
pub const MAX_ITERATIONS: usize = 100;

fn lookup(types: &TypeMap, v: IRValueId) -> (r: IRType)
    ensures
        r@ == lookup_type(types.view(), v),
{
    match types.get(&v) {
        Some(t) => copy_type(t),
        None => IRType::new(TypeKind::Any),
    }
}

/// Solves the constraints over the worklist, at most `MAX_ITERATIONS`
/// steps.
fn solve(cons: &Vec<(IRValueId, Constraint)>, worklist: &mut Vec<IRValueId>) -> (types: TypeMap)
    requires
        no_relations(cons_view(cons@)),
    ensures
        types.view() == solve_spec(
            cons_view(cons@),
            old(worklist)@,
            if old(worklist)@.len() < MAX_ITERATIONS { old(worklist)@.len() as int } else { MAX_ITERATIONS as int },
        ),
{
    let ghost cv = cons_view(cons@);
    let ghost wl = worklist@;
    let mut types = TypeMap { entries: Vec::new() };
    let mut iterations: usize = 0;
    let mut head: usize = 0;
    proof {
        assert(type_map_view(types.entries@) =~= Map::<IRValueId, KindV>::empty());
    }
    while head < worklist.len()
        invariant
            worklist@ == wl,
            cv == cons_view(cons@),
            no_relations(cv),
            head <= wl.len(),
            iterations == head,
            head <= MAX_ITERATIONS,
            types.view() == solve_spec(cv, wl, head as int),
        ensures
            types.view() == solve_spec(
                cv,
                wl,
                if wl.len() < MAX_ITERATIONS { wl.len() as int } else { MAX_ITERATIONS as int },
            ),
        decreases wl.len() - head,
    {
        if iterations >= MAX_ITERATIONS {
            break;
        }
        iterations = iterations + 1;
        let value = worklist[head];
        head = head + 1;
        let current = lookup(&types, value);
        let mut new_type = copy_type(&current);
        let ghost tv = types.view();
        let mut k: usize = 0;
        proof {
            assert(cv.take(0) =~= Seq::<(IRValueId, ConstraintV)>::empty());
        }
        while k < cons.len()
            invariant
                k <= cons@.len(),
                cv == cons_view(cons@),
                cv.len() == cons@.len(),
                no_relations(cv),
                tv == types.view(),
                new_type@ == apply_cons(current@, cons_for(cv.take(k as int), value), tv),
            decreases cons@.len() - k,
        {
            proof {
                assert(cv.take(k + 1).drop_last() == cv.take(k as int));
                assert(cv.take(k + 1).last() == cv[k as int]);
                assert(cv[k as int] == (cons@[k as int].0, constraint_view(cons@[k as int].1)));
            }
            let ghost xs = cons_for(cv.take(k as int), value);
            proof {
                if cons@[k as int].0 == value {
                    assert(cons_for(cv.take(k + 1), value) == xs.push(cv[k as int].1));
                    assert(xs.push(cv[k as int].1).drop_last() == xs);
                } else {
                    assert(cons_for(cv.take(k + 1), value) == xs);
                }
            }
            if cons[k].0 == value {
                match &cons[k].1 {
                    Constraint::SubtypeOf(ty) => {
                        new_type = new_type.meet(ty);
                    },
                    Constraint::IsType(ty) => {
                        new_type = new_type.meet(ty);
                    },
                    Constraint::Join(a, b) => {
                        let ta = lookup(&types, *a);
                        let tb = lookup(&types, *b);
                        let joined = ta.join(&tb);
                        new_type = new_type.meet(&joined);
                    },
                    Constraint::Meet(a, b) => {
                        let ta = lookup(&types, *a);
                        let tb = lookup(&types, *b);
                        let met = ta.meet(&tb);
                        new_type = new_type.meet(&met);
                    },
                }
            }
            k = k + 1;
        }
        proof {
            assert(cv.take(k as int) == cv);
        }
        if !type_eq(&new_type, &current) {
            let ghost e0 = types.entries@;
            types.entries.push((value, new_type));
            proof {
                assert(types.entries@.drop_last() == e0);
            }
        }
        proof {
            assert(wl[head - 1] == value);
        }
    }
    types
}

/// Infers the types of the values of a function: the constraints of the
/// blocks marked reachable are solved over their worklist, at most one
/// hundred steps; a value is in the result when a step changed its type.
pub fn infer_types(func: &IRFunction) -> (r: TypeMap)
    ensures
        r.view() == solve_spec(
            gen_constraints(func.blocks@, func.blocks@.len() as int),
            gen_constraints(func.blocks@, func.blocks@.len() as int).map_values(|p: (IRValueId, ConstraintV)| p.0),
            if gen_constraints(func.blocks@, func.blocks@.len() as int).len() < MAX_ITERATIONS {
                gen_constraints(func.blocks@, func.blocks@.len() as int).len() as int
            } else {
                MAX_ITERATIONS as int
            },
        ),
{
    let (cons, mut worklist) = generate_constraints(func);
    proof {
        lemma_generated_no_relations(func.blocks@, func.blocks@.len() as int);
    }
    solve(&cons, &mut worklist)
}

proof fn lemma_insts_no_relations(insts: Seq<IRInst>)
    ensures
        no_relations(insts_constraints(insts)),
    decreases insts.len(),
{
    if insts.len() > 0 {
        lemma_insts_no_relations(insts.drop_last());
        let a = insts_constraints(insts.drop_last());
        let b = inst_constraints(insts.last());
        assert forall|k: int| 0 <= k < (a + b).len() implies (#[trigger] (a + b)[k]).1 is Sub || (a + b)[k].1 is Is by {
            if k < a.len() {
                assert((a + b)[k] == a[k]);
            } else {
                assert((a + b)[k] == b[k - a.len()]);
            }
        }
    }
}

proof fn lemma_generated_no_relations(blocks: Seq<BasicBlock>, n: int)
    ensures
        no_relations(gen_constraints(blocks, n)),
    decreases n,
{
    if n > 0 {
        lemma_generated_no_relations(blocks, n - 1);
        if blocks[n - 1].reachable {
            lemma_insts_no_relations(blocks[n - 1].instructions@);
            let a = gen_constraints(blocks, n - 1);
            let b = insts_constraints(blocks[n - 1].instructions@);
            assert forall|k: int| 0 <= k < (a + b).len() implies (#[trigger] (a + b)[k]).1 is Sub || (a + b)[k].1 is Is by {
                if k < a.len() {
                    assert((a + b)[k] == a[k]);
                } else {
                    assert((a + b)[k] == b[k - a.len()]);
                }
            }
        }
    }
}


proof fn lemma_view_has_last(entries: Seq<(IRValueId, IRType)>, v: IRValueId)
    requires
        type_map_view(entries).contains_key(v),
    ensures
        exists|k: int|
            0 <= k < entries.len() && (#[trigger] entries[k]).0 == v && (forall|j: int| k < j < entries.len() ==> (#[trigger] entries[j]).0 != v)
                && type_map_view(entries)[v] == entries[k].1@,
    decreases entries.len(),
{
    if entries.last().0 == v {
        let k = entries.len() - 1;
        assert(entries[k] == entries.last());
    } else {
        lemma_view_has_last(entries.drop_last(), v);
        let k = choose|k: int|
            0 <= k < entries.drop_last().len() && (#[trigger] entries.drop_last()[k]).0 == v && (forall|j: int| k < j < entries.drop_last().len() ==> (#[trigger] entries.drop_last()[j]).0 != v)
                && type_map_view(entries.drop_last())[v] == entries.drop_last()[k].1@;
        assert(entries[k] == entries.drop_last()[k]);
        assert forall|j: int| k < j < entries.len() implies (#[trigger] entries[j]).0 != v by {
            if j < entries.len() - 1 {
                assert(entries[j] == entries.drop_last()[j]);
            }
        }
    }
}

/// Type inference only reads the function: it stays unchanged, and the
/// pass reports a change exactly when some value is inferred a type other
/// than the top type.
pub open spec fn type_inference_post(old: IRFunction, new: IRFunction, changed: bool) -> bool {
    &&& new == old
    &&& changed == exists|v: IRValueId| #[trigger] infer_spec(old).contains_key(v) && infer_spec(old)[v] != KindV::Any
}

/// Infers the types of a function's values and reports whether any value
/// got a type other than the top type.  The function itself is left as it
/// is.
pub fn infer_and_annotate(func: &mut IRFunction) -> (changed: bool)
    ensures
        type_inference_post(*old(func), *final(func), changed),
{
    let inferred = infer_types(func);
    let ghost e = inferred.entries@;
    let mut changed = false;
    let mut k: usize = 0;
    while k < inferred.entries.len()
        invariant
            k <= e.len(),
            e == inferred.entries@,
            changed == exists|m: int| 0 <= m < k && #[trigger] last_of_key(e, m) && e[m].1@ != KindV::Any,
        decreases e.len() - k,
    {
        let key = inferred.entries[k].0;
        let mut j: usize = k + 1;
        let mut last = true;
        while j < inferred.entries.len()
            invariant
                k < j <= e.len(),
                e == inferred.entries@,
                key == e[k as int].0,
                last == forall|m: int| k < m < j ==> (#[trigger] e[m]).0 != key,
            decreases e.len() - j,
        {
            if inferred.entries[j].0 == key {
                last = false;
            }
            j = j + 1;
        }
        if last && !matches!(inferred.entries[k].1.kind, TypeKind::Any) {
            changed = true;
        }
        proof {
            assert(last == last_of_key(e, k as int));
        }
        k = k + 1;
    }
    proof {
        let view = type_map_view(e);
        if changed {
            let m = choose|m: int| 0 <= m < k && #[trigger] last_of_key(e, m) && e[m].1@ != KindV::Any;
            lemma_view_last_at(e, m, e[m].0);
            assert(view.contains_key(e[m].0));
        }
        if exists|v: IRValueId| #[trigger] view.contains_key(v) && view[v] != KindV::Any {
            let v = choose|v: IRValueId| #[trigger] view.contains_key(v) && view[v] != KindV::Any;
            lemma_view_has_last(e, v);
            let m = choose|m: int|
                0 <= m < e.len() && (#[trigger] e[m]).0 == v && (forall|j: int| m < j < e.len() ==> (#[trigger] e[j]).0 != v)
                    && view[v] == e[m].1@;
            assert(last_of_key(e, m));
        }
    }
    changed
}

/// Whether entry `m` is the last insertion for its value.
pub open spec fn last_of_key(e: Seq<(IRValueId, IRType)>, m: int) -> bool {
    forall|j: int| m < j < e.len() ==> (#[trigger] e[j]).0 != e[m].0
}

/// The types that inference gives the values of a function.
pub open spec fn infer_spec(func: IRFunction) -> Map<IRValueId, KindV> {
    let g = gen_constraints(func.blocks@, func.blocks@.len() as int);
    solve_spec(
        g,
        g.map_values(|p: (IRValueId, ConstraintV)| p.0),
        if g.len() < MAX_ITERATIONS { g.len() as int } else { MAX_ITERATIONS as int },
    )
}

} // verus!
