//! Dala IR: a typed SSA intermediate representation for BEAM bytecode,
//! with its set-theoretic type lattice and optimization passes.
//!
//! The pipeline is BEAM bytecode, then this SSA form, then optimization,
//! then machine code.  The IR is typed (every value has a type), in SSA
//! form (each value is assigned once), structured in basic blocks, and
//! aware of the BEAM heap through explicit loads and stores.

pub mod builder;
pub mod constant;
pub mod function;
pub mod instruction;
pub mod layout;
pub mod module;
pub mod opt;
pub mod type_display;
pub mod type_normalize;
pub mod type_system;
pub mod type_system_profiling;
pub mod value;

pub use builder::IRBuilder;
pub use function::IRFunction;
pub use instruction::{IRInst, IRInstKind};
pub use module::IRModule;
pub use type_system::{IRType, TypeKind};
pub use value::{IRValue, IRValueId};

use vstd::prelude::*;

verus! {

/// The IR context: owns all IR data of a compilation unit.
pub struct IRContext {
    /// The module being compiled
    pub module: IRModule,
    /// Functions defined in this context
    pub functions: Vec<IRFunction>,
    /// Constant pool
    pub constants: Vec<IRValue>,
    /// Type arena
    pub types: Vec<IRType>,
}

impl IRContext {
    /// An empty context, for a module named by atom 0.
    pub fn new() -> (r: Self)
        ensures
            r.module.name == 0,
            module::function_entries(r.module.functions).len() == 0,
            r.module.function_bodies@.len() == 0,
            r.functions@.len() == 0,
            r.constants@.len() == 0,
            r.types@.len() == 0,
    {
        IRContext { module: IRModule::new(0), functions: Vec::new(), constants: Vec::new(), types: Vec::new() }
    }

    /// Adds a new function with one (entry) block; its ID is the number of
    /// functions before.
    pub fn create_function(&mut self, module: u64, name: u64, arity: u32) -> (r: IRFunctionId)
        ensures
            r.0 == old(self).functions@.len(),
            final(self).functions@.len() == old(self).functions@.len() + 1,
            final(self).functions@.drop_last() == old(self).functions@,
            final(self).functions@.last().module == module,
            final(self).functions@.last().name == name,
            final(self).functions@.last().arity == arity,
            final(self).functions@.last().blocks@.len() == 1,
            final(self).module == old(self).module,
            final(self).constants@ == old(self).constants@,
            final(self).types@ == old(self).types@,
    {
        let id = IRFunctionId(self.functions.len());
        let f = IRFunction::new(module, name, arity);
        self.functions.push(f);
        proof {
            assert(self.functions@.drop_last() =~= old(self).functions@);
        }
        id
    }

    /// The function with the given ID.
    pub fn get_function(&self, id: IRFunctionId) -> (r: &IRFunction)
        requires
            id.0 < self.functions@.len(),
        ensures
            *r == self.functions@[id.0 as int],
    {
        &self.functions[id.0]
    }

    /// The function with the given ID, to change it.
    pub fn get_function_mut(&mut self, id: IRFunctionId) -> (r: &mut IRFunction)
        requires
            id.0 < old(self).functions@.len(),
        ensures
            *r == old(self).functions@[id.0 as int],
            final(self).functions@ == old(self).functions@.update(id.0 as int, *final(r)),
            final(self).module == old(self).module,
            final(self).constants@ == old(self).constants@,
            final(self).types@ == old(self).types@,
    {
        &mut self.functions[id.0]
    }

    /// Adds a type to the arena; its ID is the number of types before.
    pub fn create_type(&mut self, ty: IRType) -> (r: TypeId)
        ensures
            r.0 == old(self).types@.len(),
            final(self).types@ == old(self).types@.push(ty),
            final(self).module == old(self).module,
            final(self).functions@ == old(self).functions@,
            final(self).constants@ == old(self).constants@,
    {
        let id = TypeId(self.types.len());
        self.types.push(ty);
        id
    }

    /// The type with the given ID.
    pub fn get_type(&self, id: TypeId) -> (r: &IRType)
        requires
            id.0 < self.types@.len(),
        ensures
            *r == self.types@[id.0 as int],
    {
        &self.types[id.0]
    }
}

/// Unique identifier for an IR function.
#[derive(Debug, Clone, Copy, PartialEq, Eq, Hash, Structural)]
pub struct IRFunctionId(pub usize);

/// Unique identifier for an IR value.
#[derive(Debug, Clone, Copy, PartialEq, Eq, Hash, Structural)]
pub struct ValueId(pub usize);

/// Unique identifier for a type.
#[derive(Debug, Clone, Copy, PartialEq, Eq, Hash, Structural)]
pub struct TypeId(pub usize);

/// Unique identifier for a basic block.
#[derive(Debug, Clone, Copy, PartialEq, Eq, Hash, Structural)]
pub struct BlockId(pub usize);

/// Unique identifier for an instruction.
#[derive(Debug, Clone, Copy, PartialEq, Eq, Hash, Structural)]
pub struct InstId(pub usize);

} // verus!
