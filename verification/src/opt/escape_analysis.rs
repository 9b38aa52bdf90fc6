//! Escape analysis: finds the allocations that never leave the current
//! function, which can live on the stack instead of the heap.
//!
//! An allocation escapes when it is stored to the heap, sent as a
//! message, returned, passed to a call, or given to a spawned actor.  A
//! call of a built-in function, or any use the analysis does not know,
//! makes it escape conditionally.  Loads, tuple and register accesses,
//! moves, type tests and narrowing keep it local.

use crate::function::{BasicBlock, IRFunction};
use crate::instruction::{IRInst, IRInstKind};
use crate::type_system::{IRType, KindV, TypeKind, kind_view, tys_view};
use crate::value::{IRValueId, contains_id};
use vstd::prelude::*;

verus! {

broadcast use vstd::seq::group_seq_axioms, vstd::std_specs::vec::group_vec_axioms,
    vstd::seq_lib::group_seq_properties;

/// Whether an allocation escapes the function.
#[derive(Debug, Clone, Copy, PartialEq, Eq, Structural)]
pub enum EscapeStatus {
    /// It never leaves the function: it can be stack-allocated.
    NoEscape,
    /// It leaves the function: it must be heap-allocated.
    Escapes,
    /// It may leave the function, depending on a callee.
    Conditional,
}

/// The join of two escape statuses: escaping wins over conditional,
/// which wins over not escaping.
pub open spec fn escape_join(a: EscapeStatus, b: EscapeStatus) -> EscapeStatus {
    if a == EscapeStatus::Escapes || b == EscapeStatus::Escapes {
        EscapeStatus::Escapes
    } else if a == EscapeStatus::Conditional || b == EscapeStatus::Conditional {
        EscapeStatus::Conditional
    } else {
        EscapeStatus::NoEscape
    }
}

impl EscapeStatus {
    /// Whether the allocation can be stack-allocated: it does not escape.
    pub fn can_stack_allocate(&self) -> (r: bool)
        ensures
            r == (*self == EscapeStatus::NoEscape),
    {
        matches!(self, EscapeStatus::NoEscape)
    }

    /// The join of two statuses.
    pub fn join(self, other: Self) -> (r: Self)
        ensures
            r == escape_join(self, other),
    {
        match (self, other) {
            (EscapeStatus::Escapes, _) | (_, EscapeStatus::Escapes) => EscapeStatus::Escapes,
            (EscapeStatus::Conditional, _) | (_, EscapeStatus::Conditional) => EscapeStatus::Conditional,
            _ => EscapeStatus::NoEscape,
        }
    }
}

/// The join of escape statuses is a semilattice with not escaping as its
/// identity and escaping as its absorbing element: it is commutative,
/// associative and idempotent.
pub proof fn law_escape_join(a: EscapeStatus, b: EscapeStatus, c: EscapeStatus)
    ensures
        escape_join(a, b) == escape_join(b, a),
        escape_join(escape_join(a, b), c) == escape_join(a, escape_join(b, c)),
        escape_join(a, a) == a,
        escape_join(a, EscapeStatus::NoEscape) == a,
        escape_join(a, EscapeStatus::Escapes) == EscapeStatus::Escapes,
{
}

/// What the analysis found about one allocation.
#[derive(Debug, Clone)]
pub struct EscapeInfo {
    /// The allocated value
    pub value: IRValueId,
    /// Whether it escapes
    pub status: EscapeStatus,
    /// The type of the allocation
    pub alloc_type: Option<IRType>,
    /// Its size in bytes
    pub alloc_size: u32,
    /// The status, spelled out
    pub reason: String,
}

/// The result of the analysis: one entry per allocation, in the order of
/// the allocations; a later entry for the same value replaces an earlier
/// one.
#[derive(Debug, Clone)]
pub struct EscapeMap {
    /// The entries, in the order they were inserted
    pub entries: Vec<EscapeInfo>,
}

/// The index of the last entry for `v`, if any.
pub open spec fn last_entry(entries: Seq<EscapeInfo>, v: IRValueId) -> Option<int>
    decreases entries.len(),
{
    if entries.len() == 0 {
        None
    } else if entries.last().value == v {
        Some(entries.len() - 1)
    } else {
        last_entry(entries.drop_last(), v)
    }
}

proof fn lemma_last_entry(entries: Seq<EscapeInfo>, v: IRValueId)
    ensures
        last_entry(entries, v) matches Some(k) ==> 0 <= k < entries.len() && entries[k].value == v,
        last_entry(entries, v) is None ==> forall|k: int| 0 <= k < entries.len() ==> #[trigger] entries[k].value != v,
    decreases entries.len(),
{
    if entries.len() > 0 {
        lemma_last_entry(entries.drop_last(), v);
        if entries.last().value != v {
            assert forall|k: int| 0 <= k < entries.len() && last_entry(entries, v) is None implies #[trigger] entries[k].value != v by {
                if k < entries.len() - 1 {
                    assert(entries[k] == entries.drop_last()[k]);
                }
            }
        }
    }
}

impl EscapeMap {
    /// The entry of a value: the last one inserted for it.
    pub fn get(&self, id: &IRValueId) -> (r: Option<&EscapeInfo>)
        ensures
            r == match last_entry(self.entries@, *id) {
                Some(k) => Some(&self.entries@[k]),
                None => None,
            },
    {
        let mut i: usize = self.entries.len();
        while i > 0
            invariant
                i <= self.entries@.len(),
                last_entry(self.entries@, *id) == last_entry(self.entries@.take(i as int), *id),
            decreases i,
        {
            proof {
                assert(self.entries@.take(i as int).drop_last() == self.entries@.take(i - 1));
                assert(self.entries@.take(i as int).last() == self.entries@[i - 1]);
            }
            if self.entries[i - 1].value == *id {
                return Some(&self.entries[i - 1]);
            }
            i = i - 1;
        }
        None
    }

    /// The number of entries.
    pub fn len(&self) -> (r: usize)
        ensures
            r == self.entries@.len(),
    {
        self.entries.len()
    }

    /// Whether there is no entry.
    pub fn is_empty(&self) -> (r: bool)
        ensures
            r == (self.entries@.len() == 0),
    {
        self.entries.len() == 0
    }
}

// ── Allocations ───────────────────────────────────────────────────────────

/// Whether an instruction kind creates a composite value.
pub open spec fn composite_creation(k: IRInstKind) -> bool {
    k is MakeFun || k is BinaryNew || k is TensorNew || k is CapNew
}

/// The estimated size in bytes of a composite value.
pub open spec fn size_estimate(k: IRInstKind) -> int {
    match k {
        IRInstKind::MakeFun { fvs, .. } => (16 + fvs@.len() * 8) as int,
        IRInstKind::BinaryNew { .. } => 32,
        IRInstKind::TensorNew { .. } => 64,
        IRInstKind::CapNew { .. } => 16,
        _ => 8,
    }
}

/// Whether the size of the allocation an instruction kind makes fits in
/// a `u32`.
pub open spec fn alloc_size_fits(k: IRInstKind) -> bool {
    match k {
        IRInstKind::Alloc { words } => words * 8 <= u32::MAX,
        IRInstKind::AllocStable { words, .. } => words * 8 <= u32::MAX,
        IRInstKind::MakeFun { fvs, .. } => 16 + fvs@.len() * 8 <= u32::MAX,
        _ => true,
    }
}

/// Whether the sizes of all allocations of the blocks fit in a `u32`.
pub open spec fn sizes_fit(blocks: Seq<BasicBlock>) -> bool {
    forall|b: int, i: int|
        0 <= b < blocks.len() && 0 <= i < blocks[b].instructions@.len() ==> alloc_size_fits(
            #[trigger] blocks[b].instructions@[i].kind,
        )
}

/// The allocation an instruction makes: its result, the type allocated
/// and the size in bytes.
pub open spec fn inst_alloc(inst: IRInst) -> Option<(IRValueId, KindV, int)> {
    match inst.result {
        None => None,
        Some(r) => match inst.kind {
            IRInstKind::Alloc { words } => Some((r, KindV::Any, words * 8)),
            IRInstKind::AllocStable { words, .. } => Some(
                (r, KindV::StableTuple { element_types: Seq::empty(), immutable: true }, words * 8),
            ),
            IRInstKind::TupleGet { .. } => None,
            _ => if composite_creation(inst.kind) {
                Some((r, KindV::Any, size_estimate(inst.kind)))
            } else {
                None
            },
        },
    }
}

/// The allocations of a sequence of instructions, in order.
pub open spec fn insts_allocs(insts: Seq<IRInst>) -> Seq<(IRValueId, KindV, int)>
    decreases insts.len(),
{
    if insts.len() == 0 {
        Seq::empty()
    } else {
        match inst_alloc(insts.last()) {
            Some(a) => insts_allocs(insts.drop_last()).push(a),
            None => insts_allocs(insts.drop_last()),
        }
    }
}

/// The allocations of the first `n` blocks that are marked reachable.
pub open spec fn allocs_upto(blocks: Seq<BasicBlock>, n: int) -> Seq<(IRValueId, KindV, int)>
    decreases n,
{
    if n <= 0 {
        Seq::empty()
    } else if blocks[n - 1].reachable {
        allocs_upto(blocks, n - 1) + insts_allocs(blocks[n - 1].instructions@)
    } else {
        allocs_upto(blocks, n - 1)
    }
}

/// The model of a found allocation.
pub open spec fn alloc_model(a: (IRValueId, TypeKind, u32)) -> (IRValueId, KindV, int) {
    (a.0, kind_view(a.1), a.2 as int)
}

/// The allocations of the blocks marked reachable, in order: each result
/// of an `Alloc` (of the top type, eight bytes a word), of an
/// `AllocStable` (of the empty stable tuple), or of an instruction that
/// creates a composite value (a closure, a binary, a tensor, a
/// capability) with its estimated size.
pub fn find_allocations(func: &IRFunction) -> (r: Vec<(IRValueId, TypeKind, u32)>)
    requires
        sizes_fit(func.blocks@),
    ensures
        r@.map_values(|a: (IRValueId, TypeKind, u32)| alloc_model(a)) == allocs_upto(func.blocks@, func.blocks@.len() as int),
{
    let ghost blocks = func.blocks@;
    let mut allocations: Vec<(IRValueId, TypeKind, u32)> = Vec::new();
    let mut b: usize = 0;
    while b < func.blocks.len()
        invariant
            b <= blocks.len(),
            blocks == func.blocks@,
            sizes_fit(blocks),
            allocations@.map_values(|a: (IRValueId, TypeKind, u32)| alloc_model(a)) == allocs_upto(blocks, b as int),
        decreases blocks.len() - b,
    {
        if func.blocks[b].reachable {
            let insts = &func.blocks[b].instructions;
            let ghost base = allocations@.map_values(|a: (IRValueId, TypeKind, u32)| alloc_model(a));
            let mut i: usize = 0;
            proof {
                assert(base + insts_allocs(insts@.take(0)) =~= base);
            }
            while i < insts.len()
                invariant
                    b < blocks.len(),
                    blocks == func.blocks@,
                    sizes_fit(blocks),
                    *insts == blocks[b as int].instructions,
                    i <= insts@.len(),
                    allocations@.map_values(|a: (IRValueId, TypeKind, u32)| alloc_model(a)) == base + insts_allocs(insts@.take(i as int)),
                decreases insts@.len() - i,
            {
                proof {
                    assert(insts@.take(i + 1).drop_last() == insts@.take(i as int));
                    assert(insts@.take(i + 1).last() == insts@[i as int]);
                    assert(alloc_size_fits(blocks[b as int].instructions@[i as int].kind));
                }
                let ghost before = allocations@;
                let inst = &insts[i];
                if let Some(result) = inst.result {
                    match &inst.kind {
                        IRInstKind::Alloc { words } => {
                            allocations.push((result, TypeKind::Any, *words * 8));
                        },
                        IRInstKind::AllocStable { words, .. } => {
                            let ev: Vec<IRType> = Vec::new();
                            assert(ev@ =~= Seq::<IRType>::empty());
                            assert(tys_view(ev@) =~= Seq::<KindV>::empty());
                            let ty = TypeKind::StableTuple { element_types: ev, immutable: true };
                            assert(kind_view(ty) == KindV::StableTuple { element_types: Seq::empty(), immutable: true });
                            allocations.push((result, ty, *words * 8));
                        },
                        IRInstKind::TupleGet { .. } => {},
                        _ => {
                            if is_composite_creation(&inst.kind) {
                                let size = estimate_size(&inst.kind);
                                allocations.push((result, TypeKind::Any, size));
                            }
                        },
                    }
                }
                proof {
                    let f = |a: (IRValueId, TypeKind, u32)| alloc_model(a);
                    if allocations@.len() == before.len() {
                        assert(allocations@ == before);
                    } else {
                        assert(allocations@ == before.push(allocations@.last()));
                        assert(allocations@.map_values(f) =~= before.map_values(f).push(alloc_model(allocations@.last())));
                    }
                    assert(allocations@.map_values(f) =~= base + insts_allocs(insts@.take(i + 1)));
                }
                i = i + 1;
            }
            proof {
                assert(insts@.take(insts@.len() as int) == insts@);
            }
        }
        proof {
            assert(allocations@.map_values(|a: (IRValueId, TypeKind, u32)| alloc_model(a)) =~= allocs_upto(blocks, b + 1));
        }
        b = b + 1;
    }
    allocations
}

fn is_composite_creation(kind: &IRInstKind) -> (r: bool)
    ensures
        r == composite_creation(*kind),
{
    matches!(kind, IRInstKind::MakeFun { .. } | IRInstKind::BinaryNew { .. } | IRInstKind::TensorNew { .. } | IRInstKind::CapNew { .. })
}

fn estimate_size(kind: &IRInstKind) -> (r: u32)
    requires
        alloc_size_fits(*kind),
    ensures
        r == size_estimate(*kind),
{
    match kind {
        IRInstKind::MakeFun { fvs, .. } => 16 + fvs.len() as u32 * 8,
        IRInstKind::BinaryNew { .. } => 32,
        IRInstKind::TensorNew { .. } => 64,
        IRInstKind::CapNew { .. } => 16,
        _ => 8,
    }
}


// ── Escaping uses ─────────────────────────────────────────────────────────

/// The value IDs that an instruction kind names in its own fields.
pub open spec fn kind_ids(k: IRInstKind) -> Seq<IRValueId> {
    match k {
        IRInstKind::Load { base, .. } => seq![base],
        IRInstKind::Store { base, value, .. } => seq![base, value],
        IRInstKind::TupleGet { tuple, .. } => seq![tuple],
        IRInstKind::TupleSet { tuple, value, .. } => seq![tuple, value],
        IRInstKind::Push { value } => seq![value],
        IRInstKind::SetStackPtr { sp } => seq![sp],
        IRInstKind::SetReg { value, .. } => seq![value],
        IRInstKind::BrIf { cond, .. } => seq![cond],
        IRInstKind::Switch { value, .. } => seq![value],
        IRInstKind::Ret { value } => seq![value],
        IRInstKind::Call { func, args } => seq![func] + args@,
        IRInstKind::TailCall { func, args } => seq![func] + args@,
        IRInstKind::CallBif { module, function, args } => seq![module, function] + args@,
        IRInstKind::Throw { reason } => seq![reason],
        IRInstKind::Resume { exception } => seq![exception],
        IRInstKind::Send { dest, msg } => seq![dest, msg],
        IRInstKind::SpawnActor { module, args, .. } => seq![module] + args@,
        IRInstKind::SendTyped { target, msg, .. } => seq![target, msg],
        IRInstKind::PromoteStable { object } => seq![object],
        IRInstKind::TensorOp { inputs, .. } => inputs@,
        IRInstKind::CapRelease { cap } => seq![cap],
        IRInstKind::CapTransfer { cap, new_owner } => seq![cap, new_owner],
        IRInstKind::InferenceSubmit { model_id, input, .. } => seq![model_id, input],
        IRInstKind::InferenceAwait { request } => seq![request],
        IRInstKind::ArenaAlloc { arena, .. } => seq![arena],
        IRInstKind::ArenaReset { arena } => seq![arena],
        IRInstKind::BinaryNew { data } => seq![data],
        IRInstKind::BinarySize { binary } => seq![binary],
        IRInstKind::BinaryExtract { binary, offset, size, .. } => seq![binary, offset, size],
        IRInstKind::MakeFun { module, function, fvs, .. } => seq![module, function] + fvs@,
        IRInstKind::Narrow { value, .. } => seq![value],
        _ => Seq::empty(),
    }
}

/// Whether an instruction uses `v`: as an operand or in its own fields.
pub open spec fn mentions(inst: IRInst, v: IRValueId) -> bool {
    inst.operands@.contains(v) || kind_ids(inst.kind).contains(v)
}

proof fn lemma_contains_lits(a: IRValueId, b: IRValueId, c: IRValueId, v: IRValueId)
    ensures
        seq![a].contains(v) <==> a == v,
        seq![a, b].contains(v) <==> (a == v || b == v),
        seq![a, b, c].contains(v) <==> (a == v || b == v || c == v),
{
    assert(seq![a] == Seq::<IRValueId>::empty().push(a));
    assert(seq![a, b] == seq![a].push(b));
    assert(seq![a, b, c] == seq![a, b].push(c));
}

/// Whether an instruction kind names `v` in its own fields.
fn kind_mentions(k: &IRInstKind, v: IRValueId) -> (r: bool)
    ensures
        r == kind_ids(*k).contains(v),
{
    proof {
        assert(Seq::<IRValueId>::empty().contains(v) == false);
    }
    match k {
        IRInstKind::Load { base, .. } => {
            proof { lemma_contains_lits(*base, *base, *base, v); }
            *base == v
        },
        IRInstKind::Store { base, value, .. } => {
            proof { lemma_contains_lits(*base, *value, *value, v); }
            *base == v || *value == v
        },
        IRInstKind::TupleGet { tuple, .. } => {
            proof { lemma_contains_lits(*tuple, *tuple, *tuple, v); }
            *tuple == v
        },
        IRInstKind::TupleSet { tuple, value, .. } => {
            proof { lemma_contains_lits(*tuple, *value, *value, v); }
            *tuple == v || *value == v
        },
        IRInstKind::Push { value } | IRInstKind::SetReg { value, .. } | IRInstKind::Switch { value, .. }
        | IRInstKind::Ret { value } | IRInstKind::Narrow { value, .. } => {
            proof { lemma_contains_lits(*value, *value, *value, v); }
            *value == v
        },
        IRInstKind::SetStackPtr { sp } => {
            proof { lemma_contains_lits(*sp, *sp, *sp, v); }
            *sp == v
        },
        IRInstKind::BrIf { cond, .. } => {
            proof { lemma_contains_lits(*cond, *cond, *cond, v); }
            *cond == v
        },
        IRInstKind::Call { func, args } | IRInstKind::TailCall { func, args } => {
            proof { lemma_contains_lits(*func, *func, *func, v); }
            *func == v || contains_id(args, v)
        },
        IRInstKind::CallBif { module, function, args } => {
            proof { lemma_contains_lits(*module, *function, *function, v); }
            *module == v || *function == v || contains_id(args, v)
        },
        IRInstKind::Throw { reason } => {
            proof { lemma_contains_lits(*reason, *reason, *reason, v); }
            *reason == v
        },
        IRInstKind::Resume { exception } => {
            proof { lemma_contains_lits(*exception, *exception, *exception, v); }
            *exception == v
        },
        IRInstKind::Send { dest, msg } => {
            proof { lemma_contains_lits(*dest, *msg, *msg, v); }
            *dest == v || *msg == v
        },
        IRInstKind::SpawnActor { module, args, .. } => {
            proof { lemma_contains_lits(*module, *module, *module, v); }
            *module == v || contains_id(args, v)
        },
        IRInstKind::SendTyped { target, msg, .. } => {
            proof { lemma_contains_lits(*target, *msg, *msg, v); }
            *target == v || *msg == v
        },
        IRInstKind::PromoteStable { object } => {
            proof { lemma_contains_lits(*object, *object, *object, v); }
            *object == v
        },
        IRInstKind::TensorOp { inputs, .. } => contains_id(inputs, v),
        IRInstKind::CapRelease { cap } => {
            proof { lemma_contains_lits(*cap, *cap, *cap, v); }
            *cap == v
        },
        IRInstKind::CapTransfer { cap, new_owner } => {
            proof { lemma_contains_lits(*cap, *new_owner, *new_owner, v); }
            *cap == v || *new_owner == v
        },
        IRInstKind::InferenceSubmit { model_id, input, .. } => {
            proof { lemma_contains_lits(*model_id, *input, *input, v); }
            *model_id == v || *input == v
        },
        IRInstKind::InferenceAwait { request } => {
            proof { lemma_contains_lits(*request, *request, *request, v); }
            *request == v
        },
        IRInstKind::ArenaAlloc { arena, .. } | IRInstKind::ArenaReset { arena } => {
            proof { lemma_contains_lits(*arena, *arena, *arena, v); }
            *arena == v
        },
        IRInstKind::BinaryNew { data } => {
            proof { lemma_contains_lits(*data, *data, *data, v); }
            *data == v
        },
        IRInstKind::BinarySize { binary } => {
            proof { lemma_contains_lits(*binary, *binary, *binary, v); }
            *binary == v
        },
        IRInstKind::BinaryExtract { binary, offset, size, .. } => {
            proof { lemma_contains_lits(*binary, *offset, *size, v); }
            *binary == v || *offset == v || *size == v
        },
        IRInstKind::MakeFun { module, function, fvs, .. } => {
            proof { lemma_contains_lits(*module, *function, *function, v); }
            *module == v || *function == v || contains_id(fvs, v)
        },
        _ => false,
    }
}

/// How a use by an instruction lets `v` escape: storing, sending,
/// returning it, calling with it or spawning with it makes it escape; a
/// built-in call, or a use not listed, makes it escape conditionally;
/// loads, tuple and register accesses, moves, type tests and narrowing
/// keep it local, and so does an instruction that does not use it.
pub open spec fn inst_escape(v: IRValueId, inst: IRInst) -> EscapeStatus {
    if !mentions(inst, v) {
        EscapeStatus::NoEscape
    } else {
        match inst.kind {
            IRInstKind::Store { .. } | IRInstKind::Send { .. } | IRInstKind::SendTyped { .. }
            | IRInstKind::Call { .. } | IRInstKind::SpawnActor { .. } => EscapeStatus::Escapes,
            IRInstKind::Ret { value } => if value == v {
                EscapeStatus::Escapes
            } else {
                EscapeStatus::Conditional
            },
            IRInstKind::CallBif { .. } => EscapeStatus::Conditional,
            IRInstKind::Load { .. } | IRInstKind::TupleGet { .. } | IRInstKind::TupleSet { .. }
            | IRInstKind::GetReg { .. } | IRInstKind::SetReg { .. } | IRInstKind::Move { .. }
            | IRInstKind::IsTuple | IRInstKind::IsAtom | IRInstKind::IsList | IRInstKind::IsMap
            | IRInstKind::IsBinary | IRInstKind::IsPid | IRInstKind::IsFloat | IRInstKind::IsFun
            | IRInstKind::IsSmallInt | IRInstKind::IsNil | IRInstKind::IsStableTuple
            | IRInstKind::IsMessage | IRInstKind::IsActor | IRInstKind::IsTensor
            | IRInstKind::IsCapability | IRInstKind::Narrow { .. } => EscapeStatus::NoEscape,
            _ => EscapeStatus::Conditional,
        }
    }
}

fn check_instruction_escape(value: IRValueId, inst: &IRInst) -> (r: EscapeStatus)
    ensures
        r == inst_escape(value, *inst),
{
    let used = contains_id(&inst.operands, value) || kind_mentions(&inst.kind, value);
    if !used {
        return EscapeStatus::NoEscape;
    }
    match &inst.kind {
        IRInstKind::Store { .. } | IRInstKind::Send { .. } | IRInstKind::SendTyped { .. }
        | IRInstKind::Call { .. } | IRInstKind::SpawnActor { .. } => EscapeStatus::Escapes,
        IRInstKind::Ret { value: ret_value } => if *ret_value == value {
            EscapeStatus::Escapes
        } else {
            EscapeStatus::Conditional
        },
        IRInstKind::CallBif { .. } => EscapeStatus::Conditional,
        IRInstKind::Load { .. } | IRInstKind::TupleGet { .. } | IRInstKind::TupleSet { .. }
        | IRInstKind::GetReg { .. } | IRInstKind::SetReg { .. } | IRInstKind::Move { .. }
        | IRInstKind::IsTuple | IRInstKind::IsAtom | IRInstKind::IsList | IRInstKind::IsMap
        | IRInstKind::IsBinary | IRInstKind::IsPid | IRInstKind::IsFloat | IRInstKind::IsFun
        | IRInstKind::IsSmallInt | IRInstKind::IsNil | IRInstKind::IsStableTuple
        | IRInstKind::IsMessage | IRInstKind::IsActor | IRInstKind::IsTensor
        | IRInstKind::IsCapability | IRInstKind::Narrow { .. } => EscapeStatus::NoEscape,
        _ => EscapeStatus::Conditional,
    }
}

/// The status of `v` after the uses of a sequence of instructions,
/// starting from `acc`.
pub open spec fn fold_insts(acc: EscapeStatus, v: IRValueId, insts: Seq<IRInst>) -> EscapeStatus
    decreases insts.len(),
{
    if insts.len() == 0 {
        acc
    } else {
        escape_join(fold_insts(acc, v, insts.drop_last()), inst_escape(v, insts.last()))
    }
}

/// The status of `v` after the uses in the first `n` blocks marked
/// reachable.
pub open spec fn fold_blocks(v: IRValueId, blocks: Seq<BasicBlock>, n: int) -> EscapeStatus
    decreases n,
{
    if n <= 0 {
        EscapeStatus::NoEscape
    } else if blocks[n - 1].reachable {
        fold_insts(fold_blocks(v, blocks, n - 1), v, blocks[n - 1].instructions@)
    } else {
        fold_blocks(v, blocks, n - 1)
    }
}

/// Whether `v` escapes the function: the join of its uses in the blocks
/// marked reachable.
pub open spec fn escape_status(blocks: Seq<BasicBlock>, v: IRValueId) -> EscapeStatus {
    fold_blocks(v, blocks, blocks.len() as int)
}

proof fn lemma_fold_insts_escapes(v: IRValueId, insts: Seq<IRInst>)
    ensures
        fold_insts(EscapeStatus::Escapes, v, insts) == EscapeStatus::Escapes,
    decreases insts.len(),
{
    if insts.len() > 0 {
        lemma_fold_insts_escapes(v, insts.drop_last());
    }
}

proof fn lemma_fold_prefix_escapes(acc: EscapeStatus, v: IRValueId, insts: Seq<IRInst>, k: int)
    requires
        0 <= k <= insts.len(),
        fold_insts(acc, v, insts.take(k)) == EscapeStatus::Escapes,
    ensures
        fold_insts(acc, v, insts) == EscapeStatus::Escapes,
    decreases insts.len() - k,
{
    if k < insts.len() {
        assert(insts.take(k + 1).drop_last() == insts.take(k));
        lemma_fold_prefix_escapes(acc, v, insts, k + 1);
    } else {
        assert(insts.take(k) == insts);
    }
}

proof fn lemma_fold_blocks_escapes(v: IRValueId, blocks: Seq<BasicBlock>, n: int, m: int)
    requires
        0 <= n <= m <= blocks.len(),
        fold_blocks(v, blocks, n) == EscapeStatus::Escapes,
    ensures
        fold_blocks(v, blocks, m) == EscapeStatus::Escapes,
    decreases m - n,
{
    if n < m {
        lemma_fold_blocks_escapes(v, blocks, n, m - 1);
        lemma_fold_insts_escapes(v, blocks[m - 1].instructions@);
    }
}

/// Whether an instruction hands value `v` on to code or memory that the
/// function does not control: a call with `v` as callee or argument, a
/// store of `v` or into it, a send of `v` or to it, an actor spawned with
/// it, or the return of `v`.
pub open spec fn hands_on(inst: IRInst, v: IRValueId) -> bool {
    match inst.kind {
        IRInstKind::Call { func, args } => inst.operands@.contains(v) || func == v || args@.contains(v),
        IRInstKind::Store { base, value, .. } => inst.operands@.contains(v) || base == v || value == v,
        IRInstKind::Send { dest, msg } => inst.operands@.contains(v) || dest == v || msg == v,
        IRInstKind::SendTyped { target, msg, .. } => inst.operands@.contains(v) || target == v || msg == v,
        IRInstKind::SpawnActor { module, args, .. } => inst.operands@.contains(v) || module == v
            || args@.contains(v),
        IRInstKind::Ret { value } => value == v,
        _ => false,
    }
}

/// A value that an instruction of a block marked reachable hands on (to a
/// call, a store, a send, a spawned actor, or as the returned value)
/// escapes: it can never be placed on the stack.
pub proof fn law_handed_on_escapes(blocks: Seq<BasicBlock>, v: IRValueId, b: int, i: int)
    requires
        0 <= b < blocks.len(),
        blocks[b].reachable,
        0 <= i < blocks[b].instructions@.len(),
        hands_on(blocks[b].instructions@[i], v),
    ensures
        escape_status(blocks, v) == EscapeStatus::Escapes,
{
    let insts = blocks[b].instructions@;
    let inst = insts[i];
    match inst.kind {
        IRInstKind::Call { func, args } => {
            if func == v {
                assert(kind_ids(inst.kind)[0] == v);
            } else if args@.contains(v) && !inst.operands@.contains(v) {
                let j = choose|j: int| 0 <= j < args@.len() && args@[j] == v;
                assert(kind_ids(inst.kind)[j + 1] == v);
            }
        },
        IRInstKind::Store { base, value, .. } => {
            assert(kind_ids(inst.kind)[0] == base);
            assert(kind_ids(inst.kind)[1] == value);
        },
        IRInstKind::Send { dest, msg } => {
            assert(kind_ids(inst.kind)[0] == dest);
            assert(kind_ids(inst.kind)[1] == msg);
        },
        IRInstKind::SendTyped { target, msg, .. } => {
            assert(kind_ids(inst.kind)[0] == target);
            assert(kind_ids(inst.kind)[1] == msg);
        },
        IRInstKind::SpawnActor { module, args, .. } => {
            if module == v {
                assert(kind_ids(inst.kind)[0] == v);
            } else if args@.contains(v) && !inst.operands@.contains(v) {
                let j = choose|j: int| 0 <= j < args@.len() && args@[j] == v;
                assert(kind_ids(inst.kind)[j + 1] == v);
            }
        },
        IRInstKind::Ret { value } => {
            assert(kind_ids(inst.kind)[0] == value);
        },
        _ => {},
    }
    assert(mentions(inst, v));
    assert(inst_escape(v, inst) == EscapeStatus::Escapes);
    let acc = fold_blocks(v, blocks, b);
    assert(insts.take(i + 1).drop_last() == insts.take(i));
    assert(insts.take(i + 1).last() == inst);
    assert(fold_insts(acc, v, insts.take(i + 1)) == EscapeStatus::Escapes);
    lemma_fold_prefix_escapes(acc, v, insts, i + 1);
    assert(fold_blocks(v, blocks, b + 1) == EscapeStatus::Escapes);
    lemma_fold_blocks_escapes(v, blocks, b + 1, blocks.len() as int);
}

/// Whether an instruction kind only reads or moves a value locally: a
/// load, a tuple access, a register read or write, a move, a type test or
/// a narrowing.
pub open spec fn local_use_kind(k: IRInstKind) -> bool {
    ||| k is Load
    ||| k is TupleGet
    ||| k is TupleSet
    ||| k is GetReg
    ||| k is SetReg
    ||| k is Move
    ||| k is IsTuple
    ||| k is IsAtom
    ||| k is IsList
    ||| k is IsMap
    ||| k is IsBinary
    ||| k is IsPid
    ||| k is IsFloat
    ||| k is IsFun
    ||| k is IsSmallInt
    ||| k is IsNil
    ||| k is IsStableTuple
    ||| k is IsMessage
    ||| k is IsActor
    ||| k is IsTensor
    ||| k is IsCapability
    ||| k is Narrow
}

proof fn lemma_fold_insts_local(v: IRValueId, insts: Seq<IRInst>)
    requires
        forall|i: int| 0 <= i < insts.len() && mentions(#[trigger] insts[i], v) ==> local_use_kind(insts[i].kind),
    ensures
        fold_insts(EscapeStatus::NoEscape, v, insts) == EscapeStatus::NoEscape,
    decreases insts.len(),
{
    if insts.len() > 0 {
        let p = insts.drop_last();
        assert forall|i: int| 0 <= i < p.len() && mentions(#[trigger] p[i], v) implies local_use_kind(p[i].kind) by {
            assert(p[i] == insts[i]);
        }
        lemma_fold_insts_local(v, p);
        assert(insts.last() == insts[insts.len() - 1]);
    }
}

proof fn lemma_fold_blocks_local(v: IRValueId, blocks: Seq<BasicBlock>, n: int)
    requires
        0 <= n <= blocks.len(),
        forall|b: int, i: int|
            0 <= b < blocks.len() && blocks[b].reachable && 0 <= i < blocks[b].instructions@.len() && mentions(
                #[trigger] blocks[b].instructions@[i],
                v,
            ) ==> local_use_kind(blocks[b].instructions@[i].kind),
    ensures
        fold_blocks(v, blocks, n) == EscapeStatus::NoEscape,
    decreases n,
{
    if n > 0 {
        lemma_fold_blocks_local(v, blocks, n - 1);
        if blocks[n - 1].reachable {
            let insts = blocks[n - 1].instructions@;
            assert forall|i: int| 0 <= i < insts.len() && mentions(#[trigger] insts[i], v) implies local_use_kind(insts[i].kind) by {
                assert(blocks[n - 1].instructions@[i] == insts[i]);
            }
            lemma_fold_insts_local(v, insts);
        }
    }
}

/// A value that the instructions of the blocks marked reachable use only
/// locally (loads, tuple accesses, registers, moves, type tests,
/// narrowings), or not at all, does not escape.
pub proof fn law_local_uses_no_escape(blocks: Seq<BasicBlock>, v: IRValueId)
    requires
        forall|b: int, i: int|
            0 <= b < blocks.len() && blocks[b].reachable && 0 <= i < blocks[b].instructions@.len() && mentions(
                #[trigger] blocks[b].instructions@[i],
                v,
            ) ==> local_use_kind(blocks[b].instructions@[i].kind),
    ensures
        escape_status(blocks, v) == EscapeStatus::NoEscape,
{
    lemma_fold_blocks_local(v, blocks, blocks.len() as int);
}

proof fn lemma_fold_insts_kept(acc: EscapeStatus, v: IRValueId, insts: Seq<IRInst>)
    requires
        acc != EscapeStatus::NoEscape,
    ensures
        fold_insts(acc, v, insts) != EscapeStatus::NoEscape,
    decreases insts.len(),
{
    if insts.len() > 0 {
        lemma_fold_insts_kept(acc, v, insts.drop_last());
    }
}

proof fn lemma_fold_blocks_kept(v: IRValueId, blocks: Seq<BasicBlock>, n: int, m: int)
    requires
        0 <= n <= m <= blocks.len(),
        fold_blocks(v, blocks, n) != EscapeStatus::NoEscape,
    ensures
        fold_blocks(v, blocks, m) != EscapeStatus::NoEscape,
    decreases m - n,
{
    if n < m {
        lemma_fold_blocks_kept(v, blocks, n, m - 1);
        lemma_fold_insts_kept(fold_blocks(v, blocks, m - 1), v, blocks[m - 1].instructions@);
    }
}

/// A value used by an instruction of a block marked reachable in any way
/// other than locally (see `local_use_kind`) is not reported as
/// non-escaping: it escapes, or escapes conditionally.
pub proof fn law_other_uses_may_escape(blocks: Seq<BasicBlock>, v: IRValueId, b: int, i: int)
    requires
        0 <= b < blocks.len(),
        blocks[b].reachable,
        0 <= i < blocks[b].instructions@.len(),
        blocks[b].instructions@[i].operands@.contains(v),
        !local_use_kind(blocks[b].instructions@[i].kind),
    ensures
        escape_status(blocks, v) != EscapeStatus::NoEscape,
{
    let insts = blocks[b].instructions@;
    let inst = insts[i];
    assert(mentions(inst, v));
    assert(inst_escape(v, inst) != EscapeStatus::NoEscape);
    let acc = fold_blocks(v, blocks, b);
    assert(insts.take(i + 1).drop_last() == insts.take(i));
    assert(insts.take(i + 1).last() == inst);
    assert(fold_insts(acc, v, insts.take(i + 1)) != EscapeStatus::NoEscape);
    lemma_fold_insts_kept(fold_insts(acc, v, insts.take(i + 1)), v, insts.skip(i + 1));
    lemma_fold_split(acc, v, insts, i + 1);
    assert(fold_blocks(v, blocks, b + 1) != EscapeStatus::NoEscape);
    lemma_fold_blocks_kept(v, blocks, b + 1, blocks.len() as int);
}

/// Folding a sequence is folding its first part, then the rest.
proof fn lemma_fold_split(acc: EscapeStatus, v: IRValueId, insts: Seq<IRInst>, k: int)
    requires
        0 <= k <= insts.len(),
    ensures
        fold_insts(acc, v, insts) == fold_insts(fold_insts(acc, v, insts.take(k)), v, insts.skip(k)),
    decreases insts.len(),
{
    if insts.len() == k {
        assert(insts.take(k) == insts);
        assert(insts.skip(k).len() == 0);
    } else {
        lemma_fold_split(acc, v, insts.drop_last(), k);
        assert(insts.drop_last().take(k) == insts.take(k));
        assert(insts.skip(k).drop_last() == insts.drop_last().skip(k));
        assert(insts.skip(k).last() == insts.last());
    }
}

/// Whether value `value` escapes the function.
fn check_escape(func: &IRFunction, value: IRValueId, _alloc_kind: &TypeKind) -> (r: EscapeStatus)
    ensures
        r == escape_status(func.blocks@, value),
{
    let ghost blocks = func.blocks@;
    let mut status = EscapeStatus::NoEscape;
    let mut b: usize = 0;
    while b < func.blocks.len()
        invariant
            b <= blocks.len(),
            blocks == func.blocks@,
            status == fold_blocks(value, blocks, b as int),
        decreases blocks.len() - b,
    {
        if func.blocks[b].reachable {
            let insts = &func.blocks[b].instructions;
            let ghost start = status;
            let mut i: usize = 0;
            proof {
                assert(insts@.take(0) =~= Seq::<IRInst>::empty());
            }
            while i < insts.len()
                invariant
                    b < blocks.len(),
                    blocks == func.blocks@,
                    *insts == blocks[b as int].instructions,
                    i <= insts@.len(),
                    blocks[b as int].reachable,
                    start == fold_blocks(value, blocks, b as int),
                    status == fold_insts(start, value, insts@.take(i as int)),
                decreases insts@.len() - i,
            {
                proof {
                    assert(insts@.take(i + 1).drop_last() == insts@.take(i as int));
                    assert(insts@.take(i + 1).last() == insts@[i as int]);
                }
                let inst_status = check_instruction_escape(value, &insts[i]);
                status = status.join(inst_status);
                if matches!(status, EscapeStatus::Escapes) {
                    proof {
                        lemma_fold_prefix_escapes(start, value, insts@, i + 1);
                        assert(blocks[b as int].reachable);
                        assert(fold_blocks(value, blocks, b + 1) == fold_insts(fold_blocks(value, blocks, b as int), value, blocks[b as int].instructions@));
                        lemma_fold_blocks_escapes(value, blocks, b + 1, blocks.len() as int);
                    }
                    return EscapeStatus::Escapes;
                }
                i = i + 1;
            }
            proof {
                assert(insts@.take(insts@.len() as int) == insts@);
            }
        }
        b = b + 1;
    }
    status
}


// ── The analysis and the pass ─────────────────────────────────────────────

/// The name of an escape status.
pub open spec fn status_name(st: EscapeStatus) -> Seq<char> {
    match st {
        EscapeStatus::NoEscape => "NoEscape"@,
        EscapeStatus::Escapes => "Escapes"@,
        EscapeStatus::Conditional => "Conditional"@,
    }
}

fn status_string(st: EscapeStatus) -> (r: String)
    ensures
        r@ == status_name(st),
{
    match st {
        EscapeStatus::NoEscape => String::from_str("NoEscape"),
        EscapeStatus::Escapes => String::from_str("Escapes"),
        EscapeStatus::Conditional => String::from_str("Conditional"),
    }
}

/// Whether an entry of the analysis describes the allocation `a` of the
/// blocks.
pub open spec fn entry_for(e: EscapeInfo, a: (IRValueId, KindV, int), blocks: Seq<BasicBlock>) -> bool {
    &&& e.value == a.0
    &&& e.status == escape_status(blocks, a.0)
    &&& e.alloc_type matches Some(t) && t@ == a.1
    &&& e.alloc_size == a.2
    &&& e.reason@ == status_name(e.status)
}

/// Analyzes the allocations of a function: one entry per allocation, in
/// order, with whether it escapes, its type, its size and the status
/// spelled out.
pub fn analyze(func: &IRFunction) -> (r: EscapeMap)
    requires
        sizes_fit(func.blocks@),
    ensures
        r.entries@.len() == allocs_upto(func.blocks@, func.blocks@.len() as int).len(),
        forall|k: int|
            0 <= k < r.entries@.len() ==> entry_for(
                #[trigger] r.entries@[k],
                allocs_upto(func.blocks@, func.blocks@.len() as int)[k],
                func.blocks@,
            ),
{
    let ghost allocs = allocs_upto(func.blocks@, func.blocks@.len() as int);
    let allocations = find_allocations(func);
    let mut entries: Vec<EscapeInfo> = Vec::new();
    let mut k: usize = 0;
    while k < allocations.len()
        invariant
            k <= allocations@.len(),
            allocations@.map_values(|a: (IRValueId, TypeKind, u32)| alloc_model(a)) == allocs,
            entries@.len() == k,
            forall|j: int| 0 <= j < k ==> entry_for(#[trigger] entries@[j], allocs[j], func.blocks@),
        decreases allocations@.len() - k,
    {
        let (value_id, alloc_kind, alloc_size) = &allocations[k];
        let value_id = *value_id;
        let alloc_size = *alloc_size;
        proof {
            assert(allocs[k as int] == alloc_model(allocations@[k as int]));
        }
        let status = check_escape(func, value_id, alloc_kind);
        let reason = status_string(status);
        let ty = IRType::new(crate::type_system::copy_kind(alloc_kind));
        entries.push(EscapeInfo { value: value_id, status, alloc_type: Some(ty), alloc_size, reason });
        k = k + 1;
    }
    EscapeMap { entries }
}

/// Whether instruction `i` of block `b` is a heap allocation that could
/// live on the stack.
pub open spec fn stack_candidate(blocks: Seq<BasicBlock>, b: int, i: int) -> bool {
    &&& blocks[b].reachable
    &&& blocks[b].instructions@[i].kind is Alloc
    &&& blocks[b].instructions@[i].result matches Some(r) && escape_status(blocks, r)
        == EscapeStatus::NoEscape
}

proof fn lemma_insts_allocs_has(insts: Seq<IRInst>, i: int)
    requires
        0 <= i < insts.len(),
        inst_alloc(insts[i]) is Some,
    ensures
        insts_allocs(insts).contains(inst_alloc(insts[i]).unwrap()),
    decreases insts.len(),
{
    if i < insts.len() - 1 {
        lemma_insts_allocs_has(insts.drop_last(), i);
        assert(insts.drop_last()[i] == insts[i]);
    } else {
        let all = insts_allocs(insts);
        assert(all[all.len() - 1] == inst_alloc(insts[i]).unwrap());
    }
}

proof fn lemma_allocs_upto_has(blocks: Seq<BasicBlock>, n: int, b: int, a: (IRValueId, KindV, int))
    requires
        0 <= b < n <= blocks.len(),
        blocks[b].reachable,
        insts_allocs(blocks[b].instructions@).contains(a),
    ensures
        allocs_upto(blocks, n).contains(a),
    decreases n,
{
    if b < n - 1 {
        lemma_allocs_upto_has(blocks, n - 1, b, a);
    }
}

/// Escape analysis only reads the function: it stays unchanged, and the
/// pass reports a change exactly when some heap allocation could live on
/// the stack.
pub open spec fn escape_post(old: IRFunction, new: IRFunction, changed: bool) -> bool {
    &&& new == old
    &&& changed == exists|b: int, i: int|
        0 <= b < old.blocks@.len() && 0 <= i < old.blocks@[b].instructions@.len()
            && #[trigger] stack_candidate(old.blocks@, b, i)
}

/// Finds the heap allocations that could live on the stack: returns
/// whether a block marked reachable holds an `Alloc` whose result does
/// not escape.  The function itself is left as it is: code generation
/// places such allocations.
pub fn optimize(func: &mut IRFunction) -> (changed: bool)
    requires
        sizes_fit(old(func).blocks@),
    ensures
        escape_post(*old(func), *final(func), changed),
{
    let escape_info = analyze(func);
    let ghost blocks = func.blocks@;
    let ghost allocs = allocs_upto(blocks, blocks.len() as int);
    let mut changed = false;
    let mut b: usize = 0;
    while b < func.blocks.len()
        invariant
            b <= blocks.len(),
            blocks == func.blocks@,
            *func == *old(func),
            allocs == allocs_upto(blocks, blocks.len() as int),
            escape_info.entries@.len() == allocs.len(),
            forall|k: int| 0 <= k < escape_info.entries@.len() ==> entry_for(#[trigger] escape_info.entries@[k], allocs[k], blocks),
            changed == exists|bb: int, i: int|
                0 <= bb < b && 0 <= i < blocks[bb].instructions@.len() && #[trigger] stack_candidate(blocks, bb, i),
        decreases blocks.len() - b,
    {
        if func.blocks[b].reachable {
            let insts = &func.blocks[b].instructions;
            let mut i: usize = 0;
            let ghost changed_before = changed;
            while i < insts.len()
                invariant
                    b < blocks.len(),
                    blocks == func.blocks@,
                    blocks[b as int].reachable,
                    *insts == blocks[b as int].instructions,
                    i <= insts@.len(),
                    allocs == allocs_upto(blocks, blocks.len() as int),
                    escape_info.entries@.len() == allocs.len(),
                    forall|k: int| 0 <= k < escape_info.entries@.len() ==> entry_for(#[trigger] escape_info.entries@[k], allocs[k], blocks),
                    changed_before == exists|bb: int, j: int|
                        0 <= bb < b && 0 <= j < blocks[bb].instructions@.len() && #[trigger] stack_candidate(blocks, bb, j),
                    changed == (changed_before || exists|j: int| 0 <= j < i && #[trigger] stack_candidate(blocks, b as int, j)),
                decreases insts@.len() - i,
            {
                if let Some(result) = insts[i].result {
                    if let Some(info) = escape_info.get(&result) {
                        proof {
                            lemma_last_entry(escape_info.entries@, result);
                            let k = last_entry(escape_info.entries@, result).unwrap();
                            assert(entry_for(escape_info.entries@[k], allocs[k], blocks));
                        }
                        if info.status.can_stack_allocate() {
                            if let IRInstKind::Alloc { .. } = &insts[i].kind {
                                changed = true;
                            }
                        }
                    } else {
                        proof {
                            lemma_last_entry(escape_info.entries@, result);
                            if insts@[i as int].kind is Alloc {
                                lemma_insts_allocs_has(insts@, i as int);
                                let a = inst_alloc(insts@[i as int]).unwrap();
                                lemma_allocs_upto_has(blocks, blocks.len() as int, b as int, a);
                                assert(allocs.contains(a));
                                let k = choose|k: int| 0 <= k < allocs.len() && allocs[k] == a;
                                assert(entry_for(escape_info.entries@[k], allocs[k], blocks));
                            }
                        }
                    }
                }
                proof {
                    if stack_candidate(blocks, b as int, i as int) {
                        assert(changed);
                    }
                }
                i = i + 1;
            }
        }
        proof {
            assert forall|j: int| 0 <= j < blocks[b as int].instructions@.len() && !blocks[b as int].reachable implies !stack_candidate(blocks, b as int, j) by {}
        }
        b = b + 1;
    }
    changed
}

} // verus!
