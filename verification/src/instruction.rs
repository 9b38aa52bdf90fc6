//! IR instructions, the building blocks of the SSA IR.
//!
//! Each instruction is one operation.  Instructions are grouped into
//! basic blocks, which form the control flow graph.  In SSA form each
//! value is defined exactly once.

use crate::type_system::IRType;
use crate::value::IRValueId;
use vstd::prelude::*;

verus! {

/// A register or stack slot reference in the BEAM context.
#[derive(Debug, Clone, Copy, PartialEq, Eq, Hash, Structural)]
pub enum Reg {
    /// X register (function argument / return value)
    X(u32),
    /// Y register (stack frame slot)
    Y(u32),
    /// F register (floating point)
    F(u32),
}

/// A label for a basic block.
#[derive(Debug, Clone, Copy, PartialEq, Eq, Hash, Structural)]
pub struct Label(pub u32);

impl Default for Label {
    fn default() -> (r: Self)
        ensures
            r.0 == 0,
    {
        Label(0)
    }
}

/// A single IR instruction: a kind, input operands and an optional result.
#[derive(Debug, Clone)]
pub struct IRInst {
    /// The kind of instruction
    pub kind: IRInstKind,
    /// The result value ID (if this instruction produces a value)
    pub result: Option<IRValueId>,
    /// Input operands
    pub operands: Vec<IRValueId>,
    /// The source BEAM instruction index (for debugging)
    pub beam_offset: u32,
    /// Side effects of this instruction
    pub side_effects: SideEffects,
}

/// Side effects that an instruction may have.
#[derive(Debug, Clone, Copy, PartialEq, Eq, Structural)]
pub struct SideEffects {
    /// May allocate memory on the process heap
    pub allocates: bool,
    /// May read from the process heap
    pub reads_heap: bool,
    /// May write to the process heap
    pub writes_heap: bool,
    /// May raise an exception
    pub may_raise: bool,
    /// May call other functions
    pub calls: bool,
    /// May yield (consume reductions)
    pub may_yield: bool,
}

impl SideEffects {
    /// No side effects at all.
    pub fn none() -> (r: SideEffects)
        ensures
            !r.allocates && !r.reads_heap && !r.writes_heap && !r.may_raise && !r.calls
                && !r.may_yield,
    {
        SideEffects {
            allocates: false,
            reads_heap: false,
            writes_heap: false,
            may_raise: false,
            calls: false,
            may_yield: false,
        }
    }

    /// All side effects.
    pub fn all() -> (r: SideEffects)
        ensures
            r.allocates && r.reads_heap && r.writes_heap && r.may_raise && r.calls && r.may_yield,
    {
        SideEffects {
            allocates: true,
            reads_heap: true,
            writes_heap: true,
            may_raise: true,
            calls: true,
            may_yield: true,
        }
    }
}

/// The side effects of an instruction that has none.
pub open spec fn no_effects() -> SideEffects {
    SideEffects {
        allocates: false,
        reads_heap: false,
        writes_heap: false,
        may_raise: false,
        calls: false,
        may_yield: false,
    }
}

impl Default for SideEffects {
    fn default() -> (r: Self)
        ensures
            r == no_effects(),
    {
        SideEffects::none()
    }
}

/// The operation of a tensor instruction.
#[derive(Debug, Clone, Copy, PartialEq, Eq, Hash, Structural)]
pub enum TensorOpKind {
    /// Elementwise addition
    Add,
    /// Elementwise multiplication
    Mul,
    /// Matrix multiplication
    MatMul,
    /// Rectified linear unit
    Relu,
    /// Softmax
    Softmax,
    /// Concatenation
    Concat,
    /// Reshape
    Reshape,
    /// Transpose
    Transpose,
}

/// The different kinds of IR instructions.
#[derive(Debug, Clone)]
pub enum IRInstKind {
    // ===== Arithmetic =====
    /// Integer addition: result = a + b
    Add,
    /// Integer subtraction: result = a - b
    Sub,
    /// Integer multiplication: result = a * b
    Mul,
    /// Integer division: result = a / b
    Div,
    /// Integer remainder: result = a % b
    Rem,
    /// Integer negation: result = -a
    Neg,
    // ===== Bitwise =====
    /// Bitwise AND: result = a & b
    BitAnd,
    /// Bitwise OR: result = a | b
    BitOr,
    /// Bitwise XOR: result = a ^ b
    BitXor,
    /// Bitwise NOT: result = ~a
    BitNot,
    /// Left shift: result = a << b
    ShiftLeft,
    /// Right shift: result = a >> b
    ShiftRight,
    // ===== Comparison =====
    /// Equal comparison: result = (a == b)
    Eq,
    /// Not equal: result = (a != b)
    Ne,
    /// Greater than: result = (a > b)
    Gt,
    /// Greater than or equal: result = (a >= b)
    Ge,
    /// Less than: result = (a < b)
    Lt,
    /// Less than or equal: result = (a <= b)
    Le,
    // ===== Type Tests =====
    /// Test if value is a small integer
    IsSmallInt,
    /// Test if value is a float
    IsFloat,
    /// Test if value is an atom
    IsAtom,
    /// Test if value is a tuple
    IsTuple,
    /// Test if value is a list
    IsList,
    /// Test if value is a map
    IsMap,
    /// Test if value is a binary
    IsBinary,
    /// Test if value is a function
    IsFun,
    /// Test if value is a PID
    IsPid,
    /// Test if value is nil
    IsNil,
    /// Test if value is true
    IsTrue,
    /// Test if value is false
    IsFalse,
    /// Test if value is a stable tuple
    IsStableTuple,
    /// Test if value is a typed message
    IsMessage,
    /// Test if value is an actor reference
    IsActor,
    /// Test if value is a tensor
    IsTensor,
    /// Test if value is a capability handle
    IsCapability,
    // ===== Memory / Heap Operations =====
    /// Allocate heap space: result = pointer to allocated space
    Alloc {
        /// Number of words to allocate
        words: u32,
    },
    /// Load a value from heap: result = *base[offset]
    Load {
        /// Base pointer value
        base: IRValueId,
        /// Offset in words
        offset: u32,
    },
    /// Store a value to heap: *base[offset] = value
    Store {
        /// Base pointer value
        base: IRValueId,
        /// Offset in words
        offset: u32,
        /// Value to store
        value: IRValueId,
    },
    /// Get element from tuple: result = tuple[index]
    TupleGet {
        /// The tuple value
        tuple: IRValueId,
        /// Element index (0-based)
        index: u32,
    },
    /// Set element in tuple: tuple[index] = value
    TupleSet {
        /// The tuple value
        tuple: IRValueId,
        /// Element index
        index: u32,
        /// New value
        value: IRValueId,
    },
    // ===== Stack Operations =====
    /// Push value onto stack
    Push {
        /// Value to push
        value: IRValueId,
    },
    /// Pop value from stack
    Pop,
    /// Get stack pointer
    GetStackPtr,
    /// Set stack pointer
    SetStackPtr {
        /// New stack pointer value
        sp: IRValueId,
    },
    // ===== Register Operations =====
    /// Move value between registers
    Move {
        /// Source register
        src: Reg,
        /// Destination register
        dst: Reg,
    },
    /// Load value from register: result = reg
    GetReg {
        /// The register to read
        reg: Reg,
    },
    /// Store value to register: reg = value
    SetReg {
        /// The register to write
        reg: Reg,
        /// The value to store
        value: IRValueId,
    },
    // ===== Control Flow =====
    /// Unconditional branch to a block
    Br {
        /// Target label
        target: Label,
    },
    /// Conditional branch: if cond then true_block else false_block
    BrIf {
        /// Condition value
        cond: IRValueId,
        /// Target if true
        true_target: Label,
        /// Target if false
        false_target: Label,
    },
    /// Switch (jump table) on an integer value
    Switch {
        /// Value to switch on
        value: IRValueId,
        /// Default target
        default: Label,
        /// Jump table entries (value -> label)
        targets: Vec<(i64, Label)>,
    },
    /// Return from function with a value
    Ret {
        /// Return value
        value: IRValueId,
    },
    /// Indirect function call
    Call {
        /// Function to call
        func: IRValueId,
        /// Arguments
        args: Vec<IRValueId>,
    },
    /// Tail call (optimized for BEAM's last-call optimization)
    TailCall {
        /// Function to call
        func: IRValueId,
        /// Arguments
        args: Vec<IRValueId>,
    },
    /// Call a BIF (built-in function)
    CallBif {
        /// BIF module atom index
        module: IRValueId,
        /// BIF function atom index
        function: IRValueId,
        /// Arguments
        args: Vec<IRValueId>,
    },
    // ===== Exception Handling =====
    /// Install a catch handler
    Catch {
        /// Label to jump to on exception
        handler: Label,
    },
    /// Remove a catch handler
    CatchPop,
    /// Throw an exception
    Throw {
        /// Exception reason
        reason: IRValueId,
    },
    /// Resume after exception (landing pad)
    Resume {
        /// Exception value
        exception: IRValueId,
    },
    // ===== Process Operations =====
    /// Consume reductions and potentially yield
    ConsumeReductions {
        /// Number of reductions to consume
        count: u32,
    },
    /// Send a message to a process
    Send {
        /// Destination process
        dest: IRValueId,
        /// Message to send
        msg: IRValueId,
    },
    /// Receive a message from the mailbox
    Recv {
        /// Timeout in milliseconds (0 = infinite)
        timeout: u32,
    },
    // ===== Actor Operations =====
    /// Spawn an actor running a module with arguments
    SpawnActor {
        /// Module to run
        module: IRValueId,
        /// Start arguments
        args: Vec<IRValueId>,
        /// Quality-of-service class
        qos: u8,
    },
    /// Send a typed message with a priority
    SendTyped {
        /// Destination actor
        target: IRValueId,
        /// Message to send
        msg: IRValueId,
        /// Type tag of the message
        type_tag: u32,
        /// Priority class of the message
        priority: u8,
    },
    /// Receive a message of a given type tag
    RecvTyped {
        /// Expected type tag
        type_tag: u32,
        /// Timeout in milliseconds (0 = infinite)
        timeout: u32,
    },
    // ===== Stable Immutable Region =====
    /// Allocate an object in the stable immutable region
    AllocStable {
        /// Type descriptor index
        type_desc: u32,
        /// Number of words
        words: u32,
    },
    /// Promote an object into the stable immutable region
    PromoteStable {
        /// The object to promote
        object: IRValueId,
    },
    // ===== Tensors =====
    /// Create a tensor from a descriptor
    TensorNew {
        /// Tensor descriptor index
        desc_idx: u32,
        /// Whether the tensor lives on the GPU
        gpu: bool,
    },
    /// Apply a tensor operation
    TensorOp {
        /// The operation
        op: TensorOpKind,
        /// Input tensors
        inputs: Vec<IRValueId>,
    },
    // ===== Capabilities =====
    /// Create a capability handle
    CapNew {
        /// Native resource kind
        resource_kind: u32,
        /// Whether the creating actor owns it
        owned: bool,
    },
    /// Release a capability handle
    CapRelease {
        /// The capability
        cap: IRValueId,
    },
    /// Transfer a capability handle to another actor
    CapTransfer {
        /// The capability
        cap: IRValueId,
        /// The new owner
        new_owner: IRValueId,
    },
    // ===== AI Inference =====
    /// Submit an inference request
    InferenceSubmit {
        /// The model
        model_id: IRValueId,
        /// The input
        input: IRValueId,
        /// Priority class of the request
        priority: u8,
    },
    /// Wait for an inference request
    InferenceAwait {
        /// The request
        request: IRValueId,
    },
    // ===== Arenas =====
    /// Allocate in an arena
    ArenaAlloc {
        /// The arena
        arena: IRValueId,
        /// Size in bytes
        size: u32,
        /// Alignment in bytes
        align: u32,
    },
    /// Reset an arena, freeing everything in it
    ArenaReset {
        /// The arena
        arena: IRValueId,
    },
    // ===== Literal Operations =====
    /// Load a literal value from the literal table
    LoadLiteral {
        /// Literal table index
        index: u32,
    },
    /// Create a small integer constant
    ConstSmallInt {
        /// The integer value
        value: i64,
    },
    /// Create an atom constant
    ConstAtom {
        /// Atom table index
        index: u32,
    },
    /// Create a nil constant
    ConstNil,
    /// Create a true constant
    ConstTrue,
    /// Create a false constant
    ConstFalse,
    // ===== Binary Operations =====
    /// Create a heap binary from data
    BinaryNew {
        /// Data value (list or binary)
        data: IRValueId,
    },
    /// Get size of a binary
    BinarySize {
        /// Binary value
        binary: IRValueId,
    },
    /// Extract a sub-binary
    BinaryExtract {
        /// Source binary
        binary: IRValueId,
        /// Offset in bits
        offset: IRValueId,
        /// Size in bits
        size: IRValueId,
        /// Flags (signed, big/little endian, etc.)
        flags: u32,
    },
    // ===== Fun (Closure) Operations =====
    /// Create a function/closure
    MakeFun {
        /// Module name
        module: IRValueId,
        /// Function name
        function: IRValueId,
        /// Arity
        arity: u32,
        /// Free variables (environment)
        fvs: Vec<IRValueId>,
    },
    // ===== Type refinement =====
    /// Narrow a value to a more precise type
    Narrow {
        /// The value narrowed
        value: IRValueId,
        /// Its narrowed type
        new_type: Box<IRType>,
    },
    // ===== GC Safepoint =====
    /// GC safepoint - all live values must be on the stack
    GcSafe,
    // ===== Optimization =====
    /// No-op instruction (used as placeholder during optimization)
    Nop,
}

/// Whether an instruction kind ends a basic block.
pub open spec fn is_terminator_kind(k: IRInstKind) -> bool {
    k is Br || k is BrIf || k is Switch || k is Ret || k is TailCall || k is Throw
}

/// Whether an instruction kind ends a basic block.
pub fn is_terminator(k: &IRInstKind) -> (r: bool)
    ensures
        r == is_terminator_kind(*k),
{
    matches!(
        k,
        IRInstKind::Br { .. } | IRInstKind::BrIf { .. } | IRInstKind::Switch { .. }
            | IRInstKind::Ret { .. } | IRInstKind::TailCall { .. } | IRInstKind::Throw { .. }
    )
}

impl IRInst {
    /// A new instruction with no result, no operand and no side effect.
    pub fn new(kind: IRInstKind) -> (r: Self)
        ensures
            r.kind == kind,
            r.result is None,
            r.operands@.len() == 0,
            r.beam_offset == 0,
            r.side_effects == no_effects(),
    {
        IRInst {
            kind,
            result: None,
            operands: Vec::new(),
            beam_offset: 0,
            side_effects: SideEffects::none(),
        }
    }

    /// A new instruction with a result, no operand and no side effect.
    pub fn with_result(kind: IRInstKind, result: IRValueId) -> (r: Self)
        ensures
            r.kind == kind,
            r.result == Some(result),
            r.operands@.len() == 0,
            r.beam_offset == 0,
            r.side_effects == no_effects(),
    {
        IRInst {
            kind,
            result: Some(result),
            operands: Vec::new(),
            beam_offset: 0,
            side_effects: SideEffects::none(),
        }
    }

    /// Append an operand.
    pub fn add_operand(&mut self, operand: IRValueId)
        ensures
            final(self).operands@ == old(self).operands@.push(operand),
            final(self).kind == old(self).kind,
            final(self).result == old(self).result,
            final(self).beam_offset == old(self).beam_offset,
            final(self).side_effects == old(self).side_effects,
    {
        self.operands.push(operand);
    }

    /// Set the side effects.
    pub fn set_side_effects(&mut self, effects: SideEffects)
        ensures
            final(self).side_effects == effects,
            final(self).kind == old(self).kind,
            final(self).result == old(self).result,
            final(self).operands == old(self).operands,
            final(self).beam_offset == old(self).beam_offset,
    {
        self.side_effects = effects;
    }

    /// Whether this instruction may trigger a GC: it may allocate.
    pub fn may_gc(&self) -> (r: bool)
        ensures
            r == self.side_effects.allocates,
    {
        self.side_effects.allocates
    }

    /// Whether this instruction may raise an exception.
    pub fn may_raise(&self) -> (r: bool)
        ensures
            r == self.side_effects.may_raise,
    {
        self.side_effects.may_raise
    }

    /// Whether this instruction may yield to the scheduler.
    pub fn may_yield(&self) -> (r: bool)
        ensures
            r == self.side_effects.may_yield,
    {
        self.side_effects.may_yield
    }
}

} // verus!
