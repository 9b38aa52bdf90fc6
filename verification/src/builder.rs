//! The IR builder: constructs the SSA form of a function from BEAM
//! bytecode.  It numbers SSA values, tracks which value each BEAM register
//! holds (X registers 0 to 255, Y registers on the stack), and emits
//! instructions into the current block.
//!
//! The builder keeps no type table, so a result emitted with a type ID
//! gets the top type; the arithmetic helpers give their result the type of
//! their first operand.

use crate::constant::{Constant, constant_kind, constant_value_of};
use crate::function::{BasicBlock, IRFunction};
use crate::instruction::{IRInst, IRInstKind, Label, SideEffects, no_effects};
use crate::module::{ExIndexMap, entry_index, entry_insert, entry_lookup};
use crate::type_system::{ConstantValue, IRType, KindV, TypeKind};
use crate::value::{IRValue, IRValueId};
use crate::{BlockId, InstId, TypeId};
use indexmap::IndexMap;
use vstd::prelude::*;

verus! {

broadcast use vstd::seq::group_seq_axioms, vstd::std_specs::vec::group_vec_axioms,
    vstd::array::group_array_axioms;

/// The entries of a Y register table, in insertion order.
pub uninterp spec fn y_reg_entries(m: IndexMap<u32, IRValueId>) -> Seq<(u32, IRValueId)>;

/// Calls `IndexMap::new`: an empty map.
#[verifier::external_body]
fn new_y_regs() -> (r: IndexMap<u32, IRValueId>)
    ensures
        y_reg_entries(r) == Seq::<(u32, IRValueId)>::empty(),
{
    IndexMap::new()
}

/// Calls `IndexMap::insert`: an existing key keeps its place in the order
/// and takes the new value; a new key is added last.
#[verifier::external_body]
fn insert_y_reg(m: &mut IndexMap<u32, IRValueId>, idx: u32, value: IRValueId)
    ensures
        y_reg_entries(*final(m)) == entry_insert(y_reg_entries(*old(m)), idx, value),
{
    m.insert(idx, value);
}

/// Calls `IndexMap::get`: the value stored under the key, if any.
#[verifier::external_body]
fn lookup_y_reg(m: &IndexMap<u32, IRValueId>, idx: &u32) -> (r: Option<IRValueId>)
    ensures
        r == entry_lookup(y_reg_entries(*m), *idx),
{
    m.get(idx).copied()
}

/// The IR builder constructs SSA IR from BEAM bytecode.
pub struct IRBuilder {
    /// The function being built
    pub function: IRFunction,
    /// The block being filled
    pub current_block: BlockId,
    /// The values, by value ID
    pub values: Vec<IRValue>,
    /// The value each X register holds, if any
    pub x_regs: [Option<IRValueId>; 256],
    /// The value each Y register holds, by register
    pub y_regs: IndexMap<u32, IRValueId>,
    /// The next value ID
    pub next_value_id: usize,
    /// Blocks waiting to be patched
    pub pending_blocks: Vec<BlockId>,
}

impl IRBuilder {
    /// Whether a value can be added: the next ID is the number of values
    /// and is not the largest `usize`.
    pub open spec fn can_add_value(&self) -> bool {
        &&& self.next_value_id == self.values@.len()
        &&& self.next_value_id < usize::MAX
    }

    /// Whether instructions can be emitted: the current block exists.
    pub open spec fn can_emit(&self) -> bool {
        self.current_block.0 < self.function.blocks@.len()
    }

    /// The instructions of the current block.
    pub open spec fn current_insts(&self) -> Seq<IRInst> {
        self.function.blocks@[self.current_block.0 as int].instructions@
    }

    /// Whether `new` is `old` with one value added.
    pub open spec fn value_added(old: IRBuilder, new: IRBuilder, v: IRValue) -> bool {
        &&& new.values@ == old.values@.push(v)
        &&& new.next_value_id == old.next_value_id + 1
        &&& new.function == old.function
        &&& new.current_block == old.current_block
    }

    /// Whether `new` is `old` with one instruction appended to the current
    /// block and nothing else of the function changed.
    pub open spec fn inst_appended(old: IRBuilder, new: IRBuilder) -> bool {
        let c = old.current_block.0 as int;
        &&& new.current_block == old.current_block
        &&& new.function.blocks@.len() == old.function.blocks@.len()
        &&& new.current_insts().len() == old.current_insts().len() + 1
        &&& new.current_insts().drop_last() == old.current_insts()
        &&& new.function.blocks@[c].label == old.function.blocks@[c].label
        &&& new.function.blocks@[c].successors == old.function.blocks@[c].successors
        &&& new.function.blocks@[c].predecessors == old.function.blocks@[c].predecessors
        &&& new.function.blocks@[c].reachable == old.function.blocks@[c].reachable
        &&& forall|j: int|
            0 <= j < old.function.blocks@.len() && j != c ==> #[trigger] new.function.blocks@[j]
                == old.function.blocks@[j]
        &&& new.function.entry_block == old.function.entry_block
        &&& new.function.module == old.function.module
        &&& new.function.name == old.function.name
        &&& new.function.arity == old.function.arity
    }

    /// A builder for a new function with one (entry) block, which is the
    /// current block; no value and no register binding.
    pub fn new(module: u64, name: u64, arity: u32) -> (r: Self)
        ensures
            r.function.module == module,
            r.function.name == name,
            r.function.arity == arity,
            r.function.blocks@.len() == 1,
            r.function.blocks@[0].instructions@.len() == 0,
            r.current_block == BlockId(0),
            r.values@.len() == 0,
            r.next_value_id == 0,
            forall|i: int| 0 <= i < 256 ==> r.x_regs@[i] is None,
            y_reg_entries(r.y_regs).len() == 0,
            r.pending_blocks@.len() == 0,
    {
        let function = IRFunction::new(module, name, arity);
        let entry_block = function.entry_block;
        let x_regs: [Option<IRValueId>; 256] = [None; 256];
        proof {
            assert(x_regs == vstd::array::spec_array_fill_for_copy_type::<Option<IRValueId>, 256>(None));
        }
        IRBuilder {
            function,
            current_block: entry_block,
            values: Vec::new(),
            x_regs,
            y_regs: new_y_regs(),
            next_value_id: 0,
            pending_blocks: Vec::new(),
        }
    }

    /// The current block.
    pub fn current_block(&self) -> (r: BlockId)
        ensures
            r == self.current_block,
    {
        self.current_block
    }

    /// Makes another block current.
    pub fn set_current_block(&mut self, block: BlockId)
        ensures
            final(self).current_block == block,
            final(self).function == old(self).function,
            final(self).values == old(self).values,
            final(self).next_value_id == old(self).next_value_id,
    {
        self.current_block = block;
    }

    /// Adds a new empty block to the function and returns its ID.
    pub fn create_block(&mut self) -> (r: BlockId)
        requires
            old(self).function.blocks@.len() < u32::MAX,
        ensures
            r == BlockId(old(self).function.blocks@.len() as usize),
            final(self).function.blocks@.len() == old(self).function.blocks@.len() + 1,
            final(self).function.blocks@.drop_last() == old(self).function.blocks@,
            final(self).function.blocks@.last().instructions@.len() == 0,
            final(self).current_block == old(self).current_block,
            final(self).values == old(self).values,
            final(self).next_value_id == old(self).next_value_id,
    {
        self.function.create_block()
    }

    /// Adds a new empty block and makes it current.
    pub fn seal_block(&mut self) -> (r: BlockId)
        requires
            old(self).function.blocks@.len() < u32::MAX,
        ensures
            r == BlockId(old(self).function.blocks@.len() as usize),
            final(self).current_block == r,
            final(self).function.blocks@.len() == old(self).function.blocks@.len() + 1,
            final(self).function.blocks@.drop_last() == old(self).function.blocks@,
            final(self).function.blocks@.last().instructions@.len() == 0,
            final(self).values == old(self).values,
            final(self).next_value_id == old(self).next_value_id,
    {
        let new_block = self.create_block();
        self.current_block = new_block;
        new_block
    }

    /// Adds a value and returns its ID, the next one.
    fn add_value(&mut self, value: IRValue) -> (r: IRValueId)
        requires
            old(self).can_add_value(),
        ensures
            r == IRValueId(old(self).next_value_id),
            Self::value_added(*old(self), *final(self), value),
            final(self).x_regs == old(self).x_regs,
            final(self).y_regs == old(self).y_regs,
    {
        let id = IRValueId(self.next_value_id);
        self.next_value_id = self.next_value_id + 1;
        self.values.push(value);
        id
    }

    /// The value with the given ID.
    pub fn get_value(&self, id: IRValueId) -> (r: &IRValue)
        requires
            id.0 < self.values@.len(),
        ensures
            *r == self.values@[id.0 as int],
    {
        &self.values[id.0]
    }

    /// Adds a constant value, of the constant's type.
    pub fn constant(&mut self, value: Constant) -> (r: IRValueId)
        requires
            old(self).can_add_value(),
        ensures
            r == IRValueId(old(self).next_value_id),
            final(self).values@.len() == old(self).values@.len() + 1,
            final(self).values@.drop_last() == old(self).values@,
            final(self).values@.last() matches IRValue::Constant { value: cv, ty }
                && cv == constant_value_of(value) && ty@ == constant_kind(value),
            final(self).next_value_id == old(self).next_value_id + 1,
            final(self).function == old(self).function,
            final(self).current_block == old(self).current_block,
    {
        let ty = value.ir_type();
        let cv = ConstantValue::from(value);
        self.add_value(IRValue::Constant { value: cv, ty })
    }

    /// Adds a constant value of the given kind and type.
    fn add_constant(&mut self, cv: ConstantValue, kind: TypeKind) -> (r: IRValueId)
        requires
            old(self).can_add_value(),
        ensures
            r == IRValueId(old(self).next_value_id),
            final(self).values@.len() == old(self).values@.len() + 1,
            final(self).values@.drop_last() == old(self).values@,
            final(self).values@.last() matches IRValue::Constant { value, ty } && value == cv
                && ty.kind == kind,
            final(self).next_value_id == old(self).next_value_id + 1,
            final(self).function == old(self).function,
            final(self).current_block == old(self).current_block,
            final(self).x_regs == old(self).x_regs,
            final(self).y_regs == old(self).y_regs,
    {
        let r = self.add_value(IRValue::Constant { value: cv, ty: IRType::new(kind) });
        proof {
            assert(self.values@.drop_last() =~= old(self).values@);
        }
        r
    }

    /// Adds a small integer constant.
    pub fn const_small_int(&mut self, val: i64) -> (r: IRValueId)
        requires
            old(self).can_add_value(),
        ensures
            r == IRValueId(old(self).next_value_id),
            final(self).values@.len() == old(self).values@.len() + 1,
            final(self).values@.drop_last() == old(self).values@,
            final(self).values@.last() matches IRValue::Constant { value, ty }
                && value == ConstantValue::Int(val) && ty.kind == TypeKind::SmallInt,
            final(self).next_value_id == old(self).next_value_id + 1,
            final(self).function == old(self).function,
            final(self).current_block == old(self).current_block,
    {
        self.add_constant(ConstantValue::Int(val), TypeKind::SmallInt)
    }

    /// Adds an atom constant.
    pub fn const_atom(&mut self, atom_idx: u32) -> (r: IRValueId)
        requires
            old(self).can_add_value(),
        ensures
            r == IRValueId(old(self).next_value_id),
            final(self).values@.len() == old(self).values@.len() + 1,
            final(self).values@.drop_last() == old(self).values@,
            final(self).values@.last() matches IRValue::Constant { value, ty }
                && value == ConstantValue::Atom(atom_idx) && ty.kind == TypeKind::Atom,
            final(self).next_value_id == old(self).next_value_id + 1,
            final(self).function == old(self).function,
            final(self).current_block == old(self).current_block,
    {
        self.add_constant(ConstantValue::Atom(atom_idx), TypeKind::Atom)
    }

    /// Adds the nil constant.
    pub fn const_nil(&mut self) -> (r: IRValueId)
        requires
            old(self).can_add_value(),
        ensures
            r == IRValueId(old(self).next_value_id),
            final(self).values@.len() == old(self).values@.len() + 1,
            final(self).values@.drop_last() == old(self).values@,
            final(self).values@.last() matches IRValue::Constant { value, ty }
                && value == ConstantValue::Nil && ty.kind == TypeKind::Nil,
            final(self).next_value_id == old(self).next_value_id + 1,
            final(self).function == old(self).function,
            final(self).current_block == old(self).current_block,
    {
        self.add_constant(ConstantValue::Nil, TypeKind::Nil)
    }

    /// Adds the constant true.
    pub fn const_true(&mut self) -> (r: IRValueId)
        requires
            old(self).can_add_value(),
        ensures
            r == IRValueId(old(self).next_value_id),
            final(self).values@.len() == old(self).values@.len() + 1,
            final(self).values@.drop_last() == old(self).values@,
            final(self).values@.last() matches IRValue::Constant { value, ty }
                && value == ConstantValue::True && ty.kind == TypeKind::Boolean,
            final(self).next_value_id == old(self).next_value_id + 1,
            final(self).function == old(self).function,
            final(self).current_block == old(self).current_block,
    {
        self.add_constant(ConstantValue::True, TypeKind::Boolean)
    }

    /// Adds the constant false.
    pub fn const_false(&mut self) -> (r: IRValueId)
        requires
            old(self).can_add_value(),
        ensures
            r == IRValueId(old(self).next_value_id),
            final(self).values@.len() == old(self).values@.len() + 1,
            final(self).values@.drop_last() == old(self).values@,
            final(self).values@.last() matches IRValue::Constant { value, ty }
                && value == ConstantValue::False && ty.kind == TypeKind::Boolean,
            final(self).next_value_id == old(self).next_value_id + 1,
            final(self).function == old(self).function,
            final(self).current_block == old(self).current_block,
    {
        self.add_constant(ConstantValue::False, TypeKind::Boolean)
    }

    /// The value an X register holds.  On the first read of a register
    /// that holds none, a placeholder value is added and bound to it.
    pub fn get_x_reg(&mut self, idx: u32) -> (r: IRValueId)
        requires
            idx < 256,
            old(self).can_add_value(),
        ensures
            old(self).x_regs@[idx as int] matches Some(v) ==> r == v && *final(self) == *old(self),
            old(self).x_regs@[idx as int] is None ==> {
                &&& r == IRValueId(old(self).next_value_id)
                &&& Self::value_added(*old(self), *final(self), IRValue::Placeholder)
                &&& final(self).x_regs@ == old(self).x_regs@.update(idx as int, Some(r))
                &&& final(self).y_regs == old(self).y_regs
            },
    {
        match self.x_regs[idx as usize] {
            Some(val_id) => val_id,
            None => {
                let val_id = self.add_value(IRValue::Placeholder);
                self.x_regs.set(idx as usize, Some(val_id));
                val_id
            },
        }
    }

    /// Binds an X register to a value.
    pub fn set_x_reg(&mut self, idx: u32, value: IRValueId)
        requires
            idx < 256,
        ensures
            final(self).x_regs@ == old(self).x_regs@.update(idx as int, Some(value)),
            final(self).values == old(self).values,
            final(self).next_value_id == old(self).next_value_id,
            final(self).function == old(self).function,
            final(self).current_block == old(self).current_block,
            final(self).y_regs == old(self).y_regs,
    {
        self.x_regs.set(idx as usize, Some(value));
    }

    /// The value a Y register holds.  On the first read of a register
    /// that holds none, a placeholder value is added and bound to it.
    pub fn get_y_reg(&mut self, idx: u32) -> (r: IRValueId)
        requires
            old(self).can_add_value(),
        ensures
            entry_lookup(y_reg_entries(old(self).y_regs), idx) matches Some(v) ==> r == v
                && *final(self) == *old(self),
            entry_lookup(y_reg_entries(old(self).y_regs), idx) is None ==> {
                &&& r == IRValueId(old(self).next_value_id)
                &&& Self::value_added(*old(self), *final(self), IRValue::Placeholder)
                &&& y_reg_entries(final(self).y_regs) == entry_insert(
                    y_reg_entries(old(self).y_regs),
                    idx,
                    r,
                )
                &&& final(self).x_regs == old(self).x_regs
            },
    {
        match lookup_y_reg(&self.y_regs, &idx) {
            Some(val_id) => val_id,
            None => {
                let val_id = self.add_value(IRValue::Placeholder);
                insert_y_reg(&mut self.y_regs, idx, val_id);
                val_id
            },
        }
    }

    /// Binds a Y register to a value.
    pub fn set_y_reg(&mut self, idx: u32, value: IRValueId)
        ensures
            y_reg_entries(final(self).y_regs) == entry_insert(
                y_reg_entries(old(self).y_regs),
                idx,
                value,
            ),
            final(self).values == old(self).values,
            final(self).next_value_id == old(self).next_value_id,
            final(self).function == old(self).function,
            final(self).current_block == old(self).current_block,
            final(self).x_regs == old(self).x_regs,
    {
        insert_y_reg(&mut self.y_regs, idx, value);
    }

    /// Appends an instruction to the current block; returns its position
    /// there.
    fn append(&mut self, inst: IRInst) -> (r: InstId)
        requires
            old(self).can_emit(),
        ensures
            r == InstId(old(self).current_insts().len() as usize),
            Self::inst_appended(*old(self), *final(self)),
            final(self).current_insts().last() == inst,
            final(self).values == old(self).values,
            final(self).next_value_id == old(self).next_value_id,
            final(self).x_regs == old(self).x_regs,
            final(self).y_regs == old(self).y_regs,
    {
        let cur = self.current_block;
        let block = self.function.get_block_mut(cur);
        let id = InstId(block.instructions.len());
        block.push_inst(inst);
        proof {
            assert(self.current_insts().drop_last() =~= old(self).current_insts());
        }
        id
    }

    /// Emits an instruction with no result and no side effect; returns its
    /// position in the current block.
    pub fn emit(&mut self, kind: IRInstKind) -> (r: InstId)
        requires
            old(self).can_emit(),
        ensures
            r == InstId(old(self).current_insts().len() as usize),
            Self::inst_appended(*old(self), *final(self)),
            final(self).current_insts().last().kind == kind,
            final(self).current_insts().last().result is None,
            final(self).current_insts().last().operands@.len() == 0,
            final(self).current_insts().last().beam_offset == 0,
            final(self).current_insts().last().side_effects == no_effects(),
            final(self).values == old(self).values,
            final(self).next_value_id == old(self).next_value_id,
    {
        self.emit_with_side_effects(kind, SideEffects::none())
    }

    /// Emits an instruction with no result and the given side effects;
    /// returns its position in the current block.
    pub fn emit_with_side_effects(&mut self, kind: IRInstKind, se: SideEffects) -> (r: InstId)
        requires
            old(self).can_emit(),
        ensures
            r == InstId(old(self).current_insts().len() as usize),
            Self::inst_appended(*old(self), *final(self)),
            final(self).current_insts().last().kind == kind,
            final(self).current_insts().last().result is None,
            final(self).current_insts().last().operands@.len() == 0,
            final(self).current_insts().last().beam_offset == 0,
            final(self).current_insts().last().side_effects == se,
            final(self).values == old(self).values,
            final(self).next_value_id == old(self).next_value_id,
    {
        let inst = IRInst {
            kind,
            result: None,
            operands: Vec::new(),
            beam_offset: 0,
            side_effects: se,
        };
        self.append(inst)
    }

    /// Emits an instruction producing a new value of the given type, with
    /// the given operands and side effects.
    fn emit_result(&mut self, kind: IRInstKind, ty: IRType, operands: Vec<IRValueId>, se: SideEffects)
        -> (r: (InstId, IRValueId))
        requires
            old(self).can_emit(),
            old(self).can_add_value(),
        ensures
            r.0 == InstId(old(self).current_insts().len() as usize),
            r.1 == IRValueId(old(self).next_value_id),
            Self::inst_appended(*old(self), *final(self)),
            final(self).current_insts().last().kind == kind,
            final(self).current_insts().last().result == Some(r.1),
            final(self).current_insts().last().operands == operands,
            final(self).current_insts().last().beam_offset == 0,
            final(self).current_insts().last().side_effects == se,
            final(self).values@ == old(self).values@.push(
                IRValue::InstResult { inst: r.0, result_index: 0, ty },
            ),
            final(self).next_value_id == old(self).next_value_id + 1,
    {
        let inst_id = InstId(self.function.get_block(self.current_block).instructions.len());
        let result_id = self.add_value(IRValue::InstResult { inst: inst_id, result_index: 0, ty });
        let inst = IRInst {
            kind,
            result: Some(result_id),
            operands,
            beam_offset: 0,
            side_effects: se,
        };
        self.append(inst);
        (inst_id, result_id)
    }

    /// Emits an instruction producing a new value; returns its position in
    /// the current block and the value.  The builder keeps no type table,
    /// so the value has the top type.
    pub fn emit_with_result(&mut self, kind: IRInstKind, ty: TypeId) -> (r: (InstId, IRValueId))
        requires
            old(self).can_emit(),
            old(self).can_add_value(),
        ensures
            r.0 == InstId(old(self).current_insts().len() as usize),
            r.1 == IRValueId(old(self).next_value_id),
            Self::inst_appended(*old(self), *final(self)),
            final(self).current_insts().last().kind == kind,
            final(self).current_insts().last().result == Some(r.1),
            final(self).current_insts().last().operands@.len() == 0,
            final(self).current_insts().last().side_effects == no_effects(),
            final(self).values@.len() == old(self).values@.len() + 1,
            final(self).values@.drop_last() == old(self).values@,
            final(self).values@.last() matches IRValue::InstResult { inst, result_index, ty }
                && inst == r.0 && result_index == 0 && ty@ == KindV::Any,
            final(self).next_value_id == old(self).next_value_id + 1,
    {
        let r = self.emit_result(kind, IRType::new(TypeKind::Any), Vec::new(), SideEffects::none());
        proof {
            assert(self.values@.drop_last() =~= old(self).values@);
        }
        r
    }

    /// Emits a binary arithmetic instruction on `a` and `b`; its value has
    /// the type of `a`.
    fn emit_binary(&mut self, kind: IRInstKind, a: IRValueId, b: IRValueId) -> (r: IRValueId)
        requires
            old(self).can_emit(),
            old(self).can_add_value(),
            a.0 < old(self).values@.len(),
        ensures
            r == IRValueId(old(self).next_value_id),
            Self::inst_appended(*old(self), *final(self)),
            final(self).current_insts().last().kind == kind,
            final(self).current_insts().last().result == Some(r),
            final(self).current_insts().last().operands@ == seq![a, b],
            final(self).current_insts().last().side_effects == no_effects(),
            final(self).values@.len() == old(self).values@.len() + 1,
            final(self).values@.drop_last() == old(self).values@,
            final(self).values@.last() matches IRValue::InstResult { ty, .. }
                && ty@ == value_kind(old(self).values@[a.0 as int]),
            final(self).next_value_id == old(self).next_value_id + 1,
    {
        let ty = self.values[a.0].ty();
        let (_, result) = self.emit_result(kind, ty, vec![a, b], SideEffects::none());
        proof {
            assert(self.values@.drop_last() =~= old(self).values@);
        }
        result
    }

    /// Emits an addition of `a` and `b`; its value has the type of `a`.
    pub fn emit_add(&mut self, a: IRValueId, b: IRValueId) -> (r: IRValueId)
        requires
            old(self).can_emit(),
            old(self).can_add_value(),
            a.0 < old(self).values@.len(),
        ensures
            r == IRValueId(old(self).next_value_id),
            Self::inst_appended(*old(self), *final(self)),
            final(self).current_insts().last().kind == IRInstKind::Add,
            final(self).current_insts().last().result == Some(r),
            final(self).current_insts().last().operands@ == seq![a, b],
            final(self).current_insts().last().side_effects == no_effects(),
            final(self).values@.len() == old(self).values@.len() + 1,
            final(self).values@.drop_last() == old(self).values@,
            final(self).values@.last() matches IRValue::InstResult { ty, .. }
                && ty@ == value_kind(old(self).values@[a.0 as int]),
            final(self).next_value_id == old(self).next_value_id + 1,
    {
        self.emit_binary(IRInstKind::Add, a, b)
    }

    /// Emits a subtraction of `b` from `a`; its value has the type of `a`.
    pub fn emit_sub(&mut self, a: IRValueId, b: IRValueId) -> (r: IRValueId)
        requires
            old(self).can_emit(),
            old(self).can_add_value(),
            a.0 < old(self).values@.len(),
        ensures
            r == IRValueId(old(self).next_value_id),
            Self::inst_appended(*old(self), *final(self)),
            final(self).current_insts().last().kind == IRInstKind::Sub,
            final(self).current_insts().last().result == Some(r),
            final(self).current_insts().last().operands@ == seq![a, b],
            final(self).current_insts().last().side_effects == no_effects(),
            final(self).values@.len() == old(self).values@.len() + 1,
            final(self).values@.drop_last() == old(self).values@,
            final(self).values@.last() matches IRValue::InstResult { ty, .. }
                && ty@ == value_kind(old(self).values@[a.0 as int]),
            final(self).next_value_id == old(self).next_value_id + 1,
    {
        self.emit_binary(IRInstKind::Sub, a, b)
    }

    /// Emits a multiplication of `a` and `b`; its value has the type of
    /// `a`.
    pub fn emit_mul(&mut self, a: IRValueId, b: IRValueId) -> (r: IRValueId)
        requires
            old(self).can_emit(),
            old(self).can_add_value(),
            a.0 < old(self).values@.len(),
        ensures
            r == IRValueId(old(self).next_value_id),
            Self::inst_appended(*old(self), *final(self)),
            final(self).current_insts().last().kind == IRInstKind::Mul,
            final(self).current_insts().last().result == Some(r),
            final(self).current_insts().last().operands@ == seq![a, b],
            final(self).current_insts().last().side_effects == no_effects(),
            final(self).values@.len() == old(self).values@.len() + 1,
            final(self).values@.drop_last() == old(self).values@,
            final(self).values@.last() matches IRValue::InstResult { ty, .. }
                && ty@ == value_kind(old(self).values@[a.0 as int]),
            final(self).next_value_id == old(self).next_value_id + 1,
    {
        self.emit_binary(IRInstKind::Mul, a, b)
    }

    /// Emits an unconditional branch to the block.
    pub fn emit_br(&mut self, target: BlockId)
        requires
            old(self).can_emit(),
        ensures
            Self::inst_appended(*old(self), *final(self)),
            final(self).current_insts().last().kind == (IRInstKind::Br {
                target: Label(target.0 as u32),
            }),
            final(self).current_insts().last().side_effects == no_effects(),
            final(self).values == old(self).values,
            final(self).next_value_id == old(self).next_value_id,
    {
        self.emit(IRInstKind::Br { target: Label(target.0 as u32) });
    }

    /// Emits a conditional branch on `cond` to the two blocks.
    pub fn emit_br_if(&mut self, cond: IRValueId, true_target: BlockId, false_target: BlockId)
        requires
            old(self).can_emit(),
        ensures
            Self::inst_appended(*old(self), *final(self)),
            final(self).current_insts().last().kind == (IRInstKind::BrIf {
                cond,
                true_target: Label(true_target.0 as u32),
                false_target: Label(false_target.0 as u32),
            }),
            final(self).current_insts().last().side_effects == no_effects(),
            final(self).values == old(self).values,
            final(self).next_value_id == old(self).next_value_id,
    {
        self.emit_with_side_effects(
            IRInstKind::BrIf {
                cond,
                true_target: Label(true_target.0 as u32),
                false_target: Label(false_target.0 as u32),
            },
            SideEffects {
                may_raise: false,
                calls: false,
                allocates: false,
                reads_heap: false,
                writes_heap: false,
                may_yield: false,
            },
        );
    }

    /// Emits a return of the value.
    pub fn emit_ret(&mut self, value: IRValueId)
        requires
            old(self).can_emit(),
        ensures
            Self::inst_appended(*old(self), *final(self)),
            final(self).current_insts().last().kind == (IRInstKind::Ret { value }),
            final(self).current_insts().last().side_effects == no_effects(),
            final(self).values == old(self).values,
            final(self).next_value_id == old(self).next_value_id,
    {
        self.emit_with_side_effects(IRInstKind::Ret { value }, SideEffects::none());
    }

    /// Emits a call of `func` with the arguments; the call may allocate,
    /// raise and call, and its value has the top type.
    pub fn emit_call(&mut self, func: IRValueId, args: &[IRValueId]) -> (r: IRValueId)
        requires
            old(self).can_emit(),
            old(self).can_add_value(),
        ensures
            r == IRValueId(old(self).next_value_id),
            Self::inst_appended(*old(self), *final(self)),
            final(self).current_insts().last().kind matches IRInstKind::Call { func: f, args: a }
                && f == func && a@ == args@,
            final(self).current_insts().last().result == Some(r),
            final(self).current_insts().last().side_effects == (SideEffects {
                calls: true,
                may_raise: true,
                allocates: true,
                reads_heap: false,
                writes_heap: false,
                may_yield: false,
            }),
            final(self).values@.len() == old(self).values@.len() + 1,
            final(self).values@.drop_last() == old(self).values@,
            final(self).next_value_id == old(self).next_value_id + 1,
    {
        let se = SideEffects {
            calls: true,
            may_raise: true,
            allocates: true,
            reads_heap: false,
            writes_heap: false,
            may_yield: false,
        };
        let mut arg_list: Vec<IRValueId> = Vec::new();
        let mut i: usize = 0;
        while i < args.len()
            invariant
                i <= args@.len(),
                arg_list@ == args@.take(i as int),
            decreases args.len() - i,
        {
            arg_list.push(args[i]);
            i = i + 1;
            proof {
                assert(arg_list@ =~= args@.take(i as int));
            }
        }
        proof {
            assert(args@.take(args@.len() as int) =~= args@);
        }
        let (_, result) = self.emit_result(
            IRInstKind::Call { func, args: arg_list },
            IRType::new(TypeKind::Any),
            Vec::new(),
            se,
        );
        proof {
            assert(self.values@.drop_last() =~= old(self).values@);
        }
        result
    }

    /// Emits a GC safepoint.
    pub fn emit_gc_safe(&mut self)
        requires
            old(self).can_emit(),
        ensures
            Self::inst_appended(*old(self), *final(self)),
            final(self).current_insts().last().kind == IRInstKind::GcSafe,
            final(self).values == old(self).values,
            final(self).next_value_id == old(self).next_value_id,
    {
        self.emit(IRInstKind::GcSafe);
    }
}

/// The model of a value's type; a placeholder has the top type.
pub open spec fn value_kind(v: IRValue) -> KindV {
    match v {
        IRValue::Constant { ty, .. } => ty@,
        IRValue::InstResult { ty, .. } => ty@,
        IRValue::Argument { ty, .. } => ty@,
        IRValue::Placeholder => KindV::Any,
    }
}

impl Default for IRBuilder {
    /// A builder for function 0/0 of module 0.
    fn default() -> (r: Self)
        ensures
            r.function.module == 0,
            r.function.name == 0,
            r.function.arity == 0,
            r.current_block == BlockId(0),
            r.values@.len() == 0,
            r.next_value_id == 0,
    {
        Self::new(0, 0, 0)
    }
}

} // verus!
