//! Constants: values known at compile time.  Tracking them through the IR
//! enables constant propagation, dead code elimination and other
//! optimizations.

use crate::type_system::{ConstantValue, IRType, KindV, TypeKind};
use vstd::prelude::*;

verus! {

/// A constant value in the IR.
#[derive(Debug, PartialEq)]
pub enum Constant {
    /// A small integer constant.
    Int(i64),
    /// An atom constant (by index in the atom table).
    Atom(u32),
    /// The nil constant [].
    Nil,
    /// The boolean true.
    True,
    /// The boolean false.
    False,
    /// A float constant, by the bit pattern of its `f64`.
    Float(u64),
    /// A tuple constant (for constant propagation of small tuples).
    Tuple(Vec<Constant>),
    /// A list constant.
    List(Vec<Constant>),
    /// A binary constant.
    Binary(Vec<u8>),
}

/// The IR type of a constant: `nonnegint` or `smallint` for an integer by
/// its sign, a tuple type of its arity (taken modulo 2^32) for a tuple, and
/// the general type of the other kinds.
pub open spec fn constant_kind(c: Constant) -> KindV {
    match c {
        Constant::Int(i) => if i >= 0 {
            KindV::NonNegInt
        } else {
            KindV::SmallInt
        },
        Constant::Atom(_) => KindV::Atom,
        Constant::Nil => KindV::Nil,
        Constant::True => KindV::Boolean,
        Constant::False => KindV::Boolean,
        Constant::Float(_) => KindV::Float,
        Constant::Tuple(elements) => KindV::Tuple { arity: elements@.len() as u32 },
        Constant::List(_) => KindV::List,
        Constant::Binary(_) => KindV::Binary,
    }
}

/// The value that a constant takes in a type: scalars are kept, and a
/// tuple, list or binary, which has none, becomes nil.
pub open spec fn constant_value_of(c: Constant) -> ConstantValue {
    match c {
        Constant::Int(i) => ConstantValue::Int(i),
        Constant::Atom(a) => ConstantValue::Atom(a),
        Constant::Nil => ConstantValue::Nil,
        Constant::True => ConstantValue::True,
        Constant::False => ConstantValue::False,
        Constant::Float(bits) => ConstantValue::Float(bits),
        _ => ConstantValue::Nil,
    }
}

impl Constant {
    /// The IR type of this constant (see `constant_kind`).
    pub fn ir_type(&self) -> (r: IRType)
        ensures
            r@ == constant_kind(*self),
    {
        match self {
            Constant::Int(i) => {
                if *i >= 0 {
                    IRType::new(TypeKind::NonNegInt)
                } else {
                    IRType::new(TypeKind::SmallInt)
                }
            },
            Constant::Atom(_) => IRType::new(TypeKind::Atom),
            Constant::Nil => IRType::new(TypeKind::Nil),
            Constant::True => IRType::new(TypeKind::Boolean),
            Constant::False => IRType::new(TypeKind::Boolean),
            Constant::Float(_) => IRType::new(TypeKind::Float),
            Constant::Tuple(elements) => IRType::new(
                TypeKind::Tuple { arity: elements.len() as u32 },
            ),
            Constant::List(_) => IRType::new(TypeKind::List),
            Constant::Binary(_) => IRType::new(TypeKind::Binary),
        }
    }

    /// The integer of an integer constant.
    pub fn as_int(&self) -> (r: Option<i64>)
        ensures
            r == match *self {
                Constant::Int(i) => Some(i),
                _ => None::<i64>,
            },
    {
        match self {
            Constant::Int(i) => Some(*i),
            _ => None,
        }
    }

    /// The atom index of an atom constant.
    pub fn as_atom_index(&self) -> (r: Option<u32>)
        ensures
            r == match *self {
                Constant::Atom(a) => Some(a),
                _ => None::<u32>,
            },
    {
        match self {
            Constant::Atom(a) => Some(*a),
            _ => None,
        }
    }

    /// The truth value of a boolean constant.
    pub fn as_bool(&self) -> (r: Option<bool>)
        ensures
            r == match *self {
                Constant::True => Some(true),
                Constant::False => Some(false),
                _ => None::<bool>,
            },
    {
        match self {
            Constant::True => Some(true),
            Constant::False => Some(false),
            _ => None,
        }
    }

    /// The bit pattern of a float constant.
    pub fn as_float_bits(&self) -> (r: Option<u64>)
        ensures
            r == match *self {
                Constant::Float(bits) => Some(bits),
                _ => None::<u64>,
            },
    {
        match self {
            Constant::Float(bits) => Some(*bits),
            _ => None,
        }
    }

    /// Whether this constant is known at compile time: every constant is.
    pub fn is_known(&self) -> (r: bool)
        ensures
            r,
    {
        true
    }
}

/// A copy of a constant.
fn copy_constant(c: &Constant) -> (r: Constant)
    ensures
        constant_kind(r) == constant_kind(*c),
        constant_value_of(r) == constant_value_of(*c),
    decreases c,
{
    match c {
        Constant::Int(i) => Constant::Int(*i),
        Constant::Atom(a) => Constant::Atom(*a),
        Constant::Nil => Constant::Nil,
        Constant::True => Constant::True,
        Constant::False => Constant::False,
        Constant::Float(bits) => Constant::Float(*bits),
        Constant::Tuple(elements) => Constant::Tuple(copy_constants(elements)),
        Constant::List(elements) => Constant::List(copy_constants(elements)),
        Constant::Binary(bytes) => Constant::Binary(bytes.clone()),
    }
}

/// A copy of a list of constants.
fn copy_constants(v: &Vec<Constant>) -> (r: Vec<Constant>)
    ensures
        r@.len() == v@.len(),
        forall|i: int| 0 <= i < v@.len() ==> constant_kind(#[trigger] r@[i]) == constant_kind(v@[i]),
        forall|i: int| 0 <= i < v@.len() ==> constant_value_of(#[trigger] r@[i]) == constant_value_of(v@[i]),
    decreases v,
{
    let mut r: Vec<Constant> = Vec::new();
    let mut i: usize = 0;
    while i < v.len()
        invariant
            i <= v@.len(),
            r@.len() == i,
            forall|k: int| 0 <= k < i ==> constant_kind(#[trigger] r@[k]) == constant_kind(v@[k]),
            forall|k: int| 0 <= k < i ==> constant_value_of(#[trigger] r@[k]) == constant_value_of(v@[k]),
        decreases v.len() - i,
    {
        proof {
            assert(decreases_to!(v => v@[i as int]));
        }
        r.push(copy_constant(&v[i]));
        i = i + 1;
    }
    r
}

impl Clone for Constant {
    /// A copy of this constant, of the same type and value.
    fn clone(&self) -> (r: Self)
        ensures
            constant_kind(r) == constant_kind(*self),
            constant_value_of(r) == constant_value_of(*self),
    {
        copy_constant(self)
    }
}

impl From<i64> for Constant {
    /// An integer constant.
    fn from(val: i64) -> (r: Self) {
        Constant::Int(val)
    }
}

impl vstd::std_specs::convert::FromSpecImpl<i64> for Constant {
    open spec fn obeys_from_spec() -> bool {
        true
    }

    open spec fn from_spec(val: i64) -> Constant {
        Constant::Int(val)
    }
}

impl From<bool> for Constant {
    /// The constant of a truth value.
    fn from(val: bool) -> (r: Self) {
        if val {
            Constant::True
        } else {
            Constant::False
        }
    }
}

impl vstd::std_specs::convert::FromSpecImpl<bool> for Constant {
    open spec fn obeys_from_spec() -> bool {
        true
    }

    open spec fn from_spec(val: bool) -> Constant {
        if val {
            Constant::True
        } else {
            Constant::False
        }
    }
}

impl From<Constant> for ConstantValue {
    /// The value a constant takes in a type (see `constant_value_of`).
    fn from(c: Constant) -> (r: Self) {
        match c {
            Constant::Int(i) => ConstantValue::Int(i),
            Constant::Atom(a) => ConstantValue::Atom(a),
            Constant::Nil => ConstantValue::Nil,
            Constant::True => ConstantValue::True,
            Constant::False => ConstantValue::False,
            Constant::Float(bits) => ConstantValue::Float(bits),
            Constant::Tuple(_) | Constant::List(_) | Constant::Binary(_) => ConstantValue::Nil,
        }
    }
}

impl vstd::std_specs::convert::FromSpecImpl<Constant> for ConstantValue {
    open spec fn obeys_from_spec() -> bool {
        true
    }

    open spec fn from_spec(c: Constant) -> ConstantValue {
        constant_value_of(c)
    }
}

} // verus!
