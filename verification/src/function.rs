//! The IR function: one BEAM function in SSA form, made of basic blocks
//! (the control flow graph), an entry block, parameter types and the
//! signature (module, name, arity).

use crate::instruction::{IRInst, IRInstKind, Label, Reg, is_terminator, is_terminator_kind};
use crate::value::IRValueId;
use crate::{BlockId, TypeId};
use vstd::prelude::*;

verus! {

broadcast use vstd::seq::group_seq_axioms, vstd::std_specs::vec::group_vec_axioms;

/// A basic block: a sequence of instructions with a single entry point
/// and a single exit point at its end.
#[derive(Debug, Clone)]
pub struct BasicBlock {
    /// Instructions in this block
    pub instructions: Vec<IRInst>,
    /// The block label
    pub label: Label,
    /// Predecessor blocks (blocks that branch to this one)
    pub predecessors: Vec<Label>,
    /// Successor blocks (blocks this one branches to)
    pub successors: Vec<Label>,
    /// Whether this block is reachable
    pub reachable: bool,
}

/// The model of a basic block: its vectors as sequences.
pub struct BlockV {
    /// Instructions in this block
    pub instructions: Seq<IRInst>,
    /// The block label
    pub label: Label,
    /// Predecessor blocks
    pub predecessors: Seq<Label>,
    /// Successor blocks
    pub successors: Seq<Label>,
    /// Whether this block is reachable
    pub reachable: bool,
}

impl View for BasicBlock {
    type V = BlockV;

    open spec fn view(&self) -> BlockV {
        BlockV {
            instructions: self.instructions@,
            label: self.label,
            predecessors: self.predecessors@,
            successors: self.successors@,
            reachable: self.reachable,
        }
    }
}

/// The models of a sequence of blocks.
pub open spec fn blocks_view(s: Seq<BasicBlock>) -> Seq<BlockV> {
    Seq::new(s.len(), |i: int| s[i]@)
}

impl Default for BasicBlock {
    /// An empty block with label 0, not marked reachable.
    fn default() -> (r: Self)
        ensures
            r.instructions@.len() == 0,
            r.label == Label(0),
            r.predecessors@.len() == 0,
            r.successors@.len() == 0,
            !r.reachable,
    {
        BasicBlock {
            instructions: Vec::new(),
            label: Label(0),
            predecessors: Vec::new(),
            successors: Vec::new(),
            reachable: false,
        }
    }
}

/// Whether a sequence of instructions ends with a terminator.
pub open spec fn ends_with_terminator(insts: Seq<IRInst>) -> bool {
    insts.len() > 0 && is_terminator_kind(insts.last().kind)
}

impl BasicBlock {
    /// A new empty block with the given label, marked reachable.
    pub fn new(label: Label) -> (r: Self)
        ensures
            r.instructions@.len() == 0,
            r.label == label,
            r.predecessors@.len() == 0,
            r.successors@.len() == 0,
            r.reachable,
    {
        BasicBlock {
            instructions: Vec::new(),
            label,
            predecessors: Vec::new(),
            successors: Vec::new(),
            reachable: true,
        }
    }

    /// Append an instruction.
    pub fn push_inst(&mut self, inst: IRInst)
        ensures
            final(self).instructions@ == old(self).instructions@.push(inst),
            final(self).label == old(self).label,
            final(self).predecessors == old(self).predecessors,
            final(self).successors == old(self).successors,
            final(self).reachable == old(self).reachable,
    {
        self.instructions.push(inst);
    }

    /// The last instruction of the block, if any.
    pub fn terminator(&self) -> (r: Option<&IRInst>)
        ensures
            self.instructions@.len() == 0 ==> r is None,
            self.instructions@.len() > 0 ==> r == Some(&self.instructions@.last()),
    {
        if self.instructions.len() == 0 {
            None
        } else {
            Some(&self.instructions[self.instructions.len() - 1])
        }
    }

    /// Whether the block ends with a terminator (branch, switch, return,
    /// tail call or throw).
    pub fn is_terminated(&self) -> (r: bool)
        ensures
            r == ends_with_terminator(self.instructions@),
    {
        if self.instructions.len() == 0 {
            false
        } else {
            is_terminator(&self.instructions[self.instructions.len() - 1].kind)
        }
    }
}

/// An IR function: a single compiled BEAM function in SSA form.
#[derive(Debug, Clone)]
pub struct IRFunction {
    /// Module name (atom index)
    pub module: u64,
    /// Function name (atom index)
    pub name: u64,
    /// Arity
    pub arity: u32,
    /// Source file (atom index)
    pub file: u64,
    /// Source line
    pub line: u32,
    /// The basic blocks of this function
    pub blocks: Vec<BasicBlock>,
    /// The entry block ID
    pub entry_block: BlockId,
    /// Parameter types
    pub param_types: Vec<TypeId>,
    /// Return type
    pub return_type: TypeId,
    /// Local variable bindings (register -> value mapping)
    pub locals: Vec<(Reg, IRValueId)>,
    /// Whether this function has been fully compiled
    pub compiled: bool,
    /// Stack map entries for GC safepoints
    pub stack_maps: Vec<StackMapEntry>,
}

/// A stack map entry for GC.
#[derive(Debug, Clone, Copy, PartialEq, Eq, Structural)]
pub struct StackMapEntry {
    /// Instruction offset within the function
    pub instruction_offset: u32,
    /// Which registers are live at this point (bitmask of X registers)
    pub live_registers: u64,
    /// Which stack slots are live
    pub live_stack_slots: u32,
}

/// Whether every successor label of every block names a block.
pub open spec fn successors_in_range(blocks: Seq<BasicBlock>) -> bool {
    forall|i: int, k: int|
        0 <= i < blocks.len() && 0 <= k < blocks[i].successors@.len()
            ==> (#[trigger] blocks[i].successors@[k]).0 < blocks.len()
}

/// Whether two functions agree on everything but their blocks.
pub open spec fn same_header(a: IRFunction, b: IRFunction) -> bool {
    &&& a.module == b.module
    &&& a.name == b.name
    &&& a.arity == b.arity
    &&& a.file == b.file
    &&& a.line == b.line
    &&& a.entry_block == b.entry_block
    &&& a.param_types == b.param_types
    &&& a.return_type == b.return_type
    &&& a.locals == b.locals
    &&& a.compiled == b.compiled
    &&& a.stack_maps == b.stack_maps
}

/// The decimal digit of a number below ten.
pub open spec fn digit_char(d: nat) -> char {
    (d + 48) as char
}

/// The decimal representation of a natural number, most significant
/// digit first, with no sign and no leading zero.
pub open spec fn decimal(n: nat) -> Seq<char>
    decreases n,
{
    if n < 10 {
        seq![digit_char(n)]
    } else {
        decimal(n / 10).push(digit_char(n % 10))
    }
}

/// Calls `ToString::to_string` on a `u64`.  Its `Display` writes the
/// number in decimal, with no sign, padding or leading zero.
#[verifier::external_body]
pub(crate) fn u64_decimal(n: u64) -> (s: String)
    ensures
        s@ == decimal(n as nat),
{
    n.to_string()
}

/// The decimal representation of an integer: a minus sign before the
/// digits of a negative one.
pub open spec fn signed_decimal(n: int) -> Seq<char> {
    if n < 0 {
        seq!['-'] + decimal((-n) as nat)
    } else {
        decimal(n as nat)
    }
}

/// Calls `ToString::to_string` on an `i64`.  Its `Display` writes the
/// number in decimal, with a minus sign when it is negative and no
/// padding or leading zero.
#[verifier::external_body]
pub(crate) fn i64_decimal(n: i64) -> (s: String)
    ensures
        s@ == signed_decimal(n as int),
{
    n.to_string()
}

impl IRFunction {
    /// Whether the entry block and every successor label name blocks of
    /// the function: what the passes that walk the control flow graph
    /// index by.
    pub open spec fn wf(&self) -> bool {
        &&& self.entry_block.0 < self.blocks@.len()
        &&& successors_in_range(self.blocks@)
    }

    /// A new function with one (entry) block.
    pub fn new(module: u64, name: u64, arity: u32) -> (r: Self)
        ensures
            r.module == module,
            r.name == name,
            r.arity == arity,
            r.file == 0,
            r.line == 0,
            r.blocks@.len() == 1,
            r.blocks@[0].label == Label(0),
            r.blocks@[0].reachable,
            r.blocks@[0].instructions@.len() == 0,
            r.blocks@[0].predecessors@.len() == 0,
            r.blocks@[0].successors@.len() == 0,
            r.entry_block == BlockId(0),
            r.param_types@.len() == 0,
            r.return_type == TypeId(0),
            r.locals@.len() == 0,
            !r.compiled,
            r.stack_maps@.len() == 0,
            r.wf(),
    {
        let mut func = IRFunction {
            module,
            name,
            arity,
            file: 0,
            line: 0,
            blocks: Vec::new(),
            entry_block: BlockId(0),
            param_types: Vec::new(),
            return_type: TypeId(0),
            locals: Vec::new(),
            compiled: false,
            stack_maps: Vec::new(),
        };
        func.entry_block = func.create_block();
        func
    }

    /// Append a new empty reachable block, labelled by its index, and
    /// return its ID.
    pub fn create_block(&mut self) -> (r: BlockId)
        requires
            old(self).blocks@.len() < u32::MAX,
        ensures
            r == BlockId(old(self).blocks@.len() as usize),
            final(self).blocks@.len() == old(self).blocks@.len() + 1,
            final(self).blocks@.drop_last() == old(self).blocks@,
            final(self).blocks@.last().label == Label(r.0 as u32),
            final(self).blocks@.last().reachable,
            final(self).blocks@.last().instructions@.len() == 0,
            final(self).blocks@.last().predecessors@.len() == 0,
            final(self).blocks@.last().successors@.len() == 0,
            final(self).module == old(self).module,
            final(self).name == old(self).name,
            final(self).arity == old(self).arity,
            final(self).file == old(self).file,
            final(self).line == old(self).line,
            final(self).entry_block == old(self).entry_block,
            final(self).param_types == old(self).param_types,
            final(self).return_type == old(self).return_type,
            final(self).locals == old(self).locals,
            final(self).compiled == old(self).compiled,
            final(self).stack_maps == old(self).stack_maps,
            successors_in_range(old(self).blocks@) ==> successors_in_range(final(self).blocks@),
    {
        let id = BlockId(self.blocks.len());
        self.blocks.push(BasicBlock::new(Label(id.0 as u32)));
        proof {
            assert(final(self).blocks@.drop_last() =~= old(self).blocks@);
            if successors_in_range(old(self).blocks@) {
                assert forall|i: int, k: int|
                    0 <= i < final(self).blocks@.len() && 0 <= k < final(self).blocks@[i].successors@.len()
                        implies (#[trigger] final(self).blocks@[i].successors@[k]).0 < final(self).blocks@.len() by {
                    assert(final(self).blocks@[i] == old(self).blocks@[i]);
                }
            }
        }
        id
    }

    /// The block with the given ID.
    pub fn get_block(&self, id: BlockId) -> (r: &BasicBlock)
        requires
            id.0 < self.blocks@.len(),
        ensures
            *r == self.blocks@[id.0 as int],
    {
        &self.blocks[id.0]
    }

    /// The block with the given ID, for changing it.
    pub fn get_block_mut(&mut self, id: BlockId) -> (r: &mut BasicBlock)
        requires
            id.0 < old(self).blocks@.len(),
        ensures
            *r == old(self).blocks@[id.0 as int],
            final(self).blocks@ == old(self).blocks@.update(id.0 as int, *final(r)),
            final(self).module == old(self).module,
            final(self).name == old(self).name,
            final(self).arity == old(self).arity,
            final(self).file == old(self).file,
            final(self).line == old(self).line,
            final(self).entry_block == old(self).entry_block,
            final(self).param_types == old(self).param_types,
            final(self).return_type == old(self).return_type,
            final(self).locals == old(self).locals,
            final(self).compiled == old(self).compiled,
            final(self).stack_maps == old(self).stack_maps,
    {
        &mut self.blocks[id.0]
    }

    /// The number of basic blocks.
    pub fn block_count(&self) -> (r: usize)
        ensures
            r == self.blocks@.len(),
    {
        self.blocks.len()
    }

    /// The function's name as a string: `f` and the name's atom index.
    pub fn name_str(&self) -> (r: String)
        ensures
            r@ == seq!['f'] + decimal(self.name as nat),
    {
        let mut s = String::from_str("f");
        let n = u64_decimal(self.name);
        s.append(n.as_str());
        proof {
            reveal_strlit("f");
        }
        s
    }

    /// The fully qualified name: `m<module>.f<name>/<arity>`.
    pub fn full_name(&self) -> (r: String)
        ensures
            r@ == seq!['m'] + decimal(self.module as nat) + seq!['.', 'f'] + decimal(
                self.name as nat,
            ) + seq!['/'] + decimal(self.arity as nat),
    {
        let mut s = String::from_str("m");
        let m = u64_decimal(self.module);
        s.append(m.as_str());
        s.append(".f");
        let n = u64_decimal(self.name);
        s.append(n.as_str());
        s.append("/");
        let a = u64_decimal(self.arity as u64);
        s.append(a.as_str());
        proof {
            reveal_strlit("m");
            reveal_strlit(".f");
            reveal_strlit("/");
        }
        s
    }

    /// Append a parameter type.
    pub fn add_param_type(&mut self, ty: TypeId)
        ensures
            final(self).param_types@ == old(self).param_types@.push(ty),
            final(self).blocks == old(self).blocks,
            final(self).entry_block == old(self).entry_block,
            final(self).return_type == old(self).return_type,
            final(self).stack_maps == old(self).stack_maps,
    {
        self.param_types.push(ty);
    }

    /// Set the return type.
    pub fn set_return_type(&mut self, ty: TypeId)
        ensures
            final(self).return_type == ty,
            final(self).blocks == old(self).blocks,
            final(self).entry_block == old(self).entry_block,
            final(self).param_types == old(self).param_types,
            final(self).stack_maps == old(self).stack_maps,
    {
        self.return_type = ty;
    }

    /// Record a stack map entry for GC.
    pub fn add_stack_map(&mut self, offset: u32, live_regs: u64, live_stack: u32)
        ensures
            final(self).stack_maps@ == old(self).stack_maps@.push(
                StackMapEntry {
                    instruction_offset: offset,
                    live_registers: live_regs,
                    live_stack_slots: live_stack,
                },
            ),
            final(self).blocks == old(self).blocks,
            final(self).entry_block == old(self).entry_block,
            final(self).param_types == old(self).param_types,
            final(self).return_type == old(self).return_type,
    {
        self.stack_maps.push(
            StackMapEntry {
                instruction_offset: offset,
                live_registers: live_regs,
                live_stack_slots: live_stack,
            },
        );
    }
}

/// A function signature (for type checking calls).
#[derive(Debug, Clone, PartialEq, Eq, Hash)]
pub struct FunctionSignature {
    /// Parameter types
    pub params: Vec<TypeId>,
    /// Return type
    pub return_type: TypeId,
    /// Whether the function can raise exceptions
    pub throws: bool,
}

} // verus!
