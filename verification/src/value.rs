//! IR values: the SSA values of the intermediate representation.
//!
//! A value is an instruction result, a constant known at compile time,
//! or a function argument.  Values are identified by `IRValueId` and
//! carry type information.

use crate::type_system::{ConstantValue, IRType, TypeKind, copy_type};
use crate::InstId;
use vstd::prelude::*;

verus! {

/// An SSA value in the IR.
#[derive(Debug, Clone)]
pub enum IRValue {
    /// A constant value known at compile time.
    Constant {
        /// The constant value
        value: ConstantValue,
        /// The type of the constant
        ty: IRType,
    },
    /// An instruction result.
    InstResult {
        /// The instruction that produces this value
        inst: InstId,
        /// The result index (for instructions with multiple results)
        result_index: u32,
        /// The type of the value
        ty: IRType,
    },
    /// A function argument.
    Argument {
        /// The argument index
        index: u32,
        /// The type of the argument
        ty: IRType,
    },
    /// A placeholder value (used during construction, replaced later).
    Placeholder,
}

/// Identifier for an IR value.
#[derive(Debug, Clone, Copy, PartialEq, Eq, Hash, Structural)]
pub struct IRValueId(pub usize);

impl IRValue {
    /// The type of this value; a placeholder has the top type.
    pub fn ty(&self) -> (r: IRType)
        ensures
            match self {
                IRValue::Constant { ty, .. } => r@ == ty@,
                IRValue::InstResult { ty, .. } => r@ == ty@,
                IRValue::Argument { ty, .. } => r@ == ty@,
                IRValue::Placeholder => r.kind == TypeKind::Any,
            },
    {
        match self {
            IRValue::Constant { ty, .. } => copy_type(ty),
            IRValue::InstResult { ty, .. } => copy_type(ty),
            IRValue::Argument { ty, .. } => copy_type(ty),
            IRValue::Placeholder => IRType { kind: TypeKind::Any },
        }
    }

    /// Whether this is a constant.
    pub fn is_constant(&self) -> (r: bool)
        ensures
            r == (self is Constant),
    {
        matches!(self, IRValue::Constant { .. })
    }

    /// Whether this is an instruction result.
    pub fn is_inst_result(&self) -> (r: bool)
        ensures
            r == (self is InstResult),
    {
        matches!(self, IRValue::InstResult { .. })
    }

    /// Whether this is an argument.
    pub fn is_argument(&self) -> (r: bool)
        ensures
            r == (self is Argument),
    {
        matches!(self, IRValue::Argument { .. })
    }

    /// The integer of an integer constant.
    pub fn as_int(&self) -> (r: Option<i64>)
        ensures
            r == (match self {
                IRValue::Constant { value: ConstantValue::Int(i), .. } => Some(*i),
                _ => None,
            }),
    {
        match self {
            IRValue::Constant { value: ConstantValue::Int(i), .. } => Some(*i),
            _ => None,
        }
    }

    /// The atom index of an atom constant.
    pub fn as_atom_index(&self) -> (r: Option<u32>)
        ensures
            r == (match self {
                IRValue::Constant { value: ConstantValue::Atom(a), .. } => Some(*a),
                _ => None,
            }),
    {
        match self {
            IRValue::Constant { value: ConstantValue::Atom(a), .. } => Some(*a),
            _ => None,
        }
    }

    /// The boolean of a `true` or `false` constant.
    pub fn as_bool(&self) -> (r: Option<bool>)
        ensures
            r == (match self {
                IRValue::Constant { value: ConstantValue::True, .. } => Some(true),
                IRValue::Constant { value: ConstantValue::False, .. } => Some(false),
                _ => None,
            }),
    {
        match self {
            IRValue::Constant { value: ConstantValue::True, .. } => Some(true),
            IRValue::Constant { value: ConstantValue::False, .. } => Some(false),
            _ => None,
        }
    }
}

/// Whether a list of value IDs holds the given one.
pub fn contains_id(ids: &Vec<IRValueId>, x: IRValueId) -> (r: bool)
    ensures
        r == ids@.contains(x),
{
    let mut i: usize = 0;
    while i < ids.len()
        invariant
            i <= ids@.len(),
            forall|j: int| 0 <= j < i ==> ids@[j] != x,
        decreases ids@.len() - i,
    {
        if ids[i] == x {
            return true;
        }
        i = i + 1;
    }
    false
}

/// A use of a value in an instruction.
#[derive(Debug, Clone, Copy, PartialEq, Eq, Hash, Structural)]
pub struct ValueUse {
    /// The value being used
    pub value_id: IRValueId,
    /// The instruction using this value
    pub user_inst: InstId,
}

/// A definition of a value (the instruction that produces it).
#[derive(Debug, Clone, Copy, PartialEq, Eq, Hash, Structural)]
pub struct ValueDef {
    /// The instruction defining this value
    pub inst_id: InstId,
    /// The result index
    pub result_index: u32,
}

} // verus!
