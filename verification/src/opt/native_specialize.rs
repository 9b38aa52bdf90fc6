//! Native layout specialization: compact native layouts for stable tuples
//! and shape-specialized maps, for promotion to the Stable Immutable
//! Region.
//!
//! A stable tuple of known element types is a packed struct of 8-byte
//! fields, with no tags and no boxing; a map of known shape is a
//! hidden-class struct: a class pointer, then one field per value at a
//! known offset.

use crate::function::{BasicBlock, IRFunction};
use crate::instruction::{IRInst, IRInstKind};
use crate::type_system::{
    ConstantValue, IRType, KindV, NativeField, NativeFieldKind, NativeLayout, TypeKind, lemma_tys_view,
    tys_view,
};
use crate::value::IRValueId;
use vstd::prelude::*;

verus! {

broadcast use vstd::seq::group_seq_axioms, vstd::std_specs::vec::group_vec_axioms;

/// A planned specialization of an allocated value.
#[derive(Debug, Clone)]
pub struct NativeSpec {
    /// The allocated value
    pub value: IRValueId,
    /// Its native layout
    pub layout: NativeLayout,
    /// Whether to promote it to the Stable Immutable Region
    pub promote_to_sir: bool,
    /// The estimated bytes saved
    pub savings: u32,
}

/// The native field kind of a type: integers, atoms, booleans and nil are
/// 64-bit integers, floats are 64-bit floats, compound and unknown types
/// are pointers; a union, intersection or difference takes its first
/// part, a bounded recursive variable its bound, a speculative type its
/// assumption.
pub open spec fn field_kind_spec(k: KindV) -> NativeFieldKind
    decreases k,
{
    match k {
        KindV::SmallInt | KindV::NonNegInt | KindV::Int64 => NativeFieldKind::I64,
        KindV::Float => NativeFieldKind::F64,
        KindV::Atom | KindV::Boolean | KindV::Nil => NativeFieldKind::I64,
        KindV::Constant(cv) => match cv {
            ConstantValue::Float(_) => NativeFieldKind::F64,
            _ => NativeFieldKind::I64,
        },
        KindV::Union(a, _) => field_kind_spec(*a),
        KindV::Intersection(a, _) => field_kind_spec(*a),
        KindV::Difference(a, _) => field_kind_spec(*a),
        KindV::RecursiveVar { bound, .. } => match bound {
            Some(b) => field_kind_spec(*b),
            None => NativeFieldKind::Ptr,
        },
        KindV::Speculative { assumed, .. } => field_kind_spec(*assumed),
        _ => NativeFieldKind::Ptr,
    }
}

/// The native field kind of a type, with its size: always 8 bytes.
pub fn native_field_for_type(ty: &IRType) -> (r: (NativeFieldKind, u32))
    ensures
        r.0 == field_kind_spec(ty@),
        r.1 == 8,
    decreases ty,
{
    match &ty.kind {
        TypeKind::SmallInt | TypeKind::NonNegInt | TypeKind::Int64 => (NativeFieldKind::I64, 8),
        TypeKind::Float => (NativeFieldKind::F64, 8),
        TypeKind::Atom | TypeKind::Boolean | TypeKind::Nil => (NativeFieldKind::I64, 8),
        TypeKind::Constant(cv) => match cv {
            ConstantValue::Float(_) => (NativeFieldKind::F64, 8),
            _ => (NativeFieldKind::I64, 8),
        },
        TypeKind::Union(a, _) => native_field_for_type(a),
        TypeKind::Intersection(a, _) => native_field_for_type(a),
        TypeKind::Difference(a, _) => native_field_for_type(a),
        TypeKind::RecursiveVar { bound, .. } => match bound {
            Some(b) => native_field_for_type(b),
            None => (NativeFieldKind::Ptr, 8),
        },
        TypeKind::Speculative { assumed, .. } => native_field_for_type(assumed),
        _ => (NativeFieldKind::Ptr, 8),
    }
}

proof fn lemma_align8(x: u32)
    requires
        x % 8 == 0,
        x <= u32::MAX - 7,
    ensures
        ((x + 7) as u32) & !7u32 == x,
{
    assert(((x + 7) as u32) & !7u32 == x) by (bit_vector)
        requires
            x % 8 == 0,
            x <= u32::MAX - 7,
    ;
}

/// The native layout of a stable tuple: one 8-byte field per element at
/// offset 8 times its position, of the element's field kind, for a size
/// of 8 bytes per element.
pub fn stable_tuple_layout(element_types: &[IRType]) -> (r: NativeLayout)
    requires
        8 * element_types@.len() + 7 <= u32::MAX,
    ensures
        r.fields@.len() == element_types@.len(),
        forall|i: int|
            0 <= i < element_types@.len() ==> #[trigger] r.fields@[i] == (NativeField {
                offset: (8 * i) as u32,
                kind: field_kind_spec(element_types@[i]@),
            }),
        r.size == 8 * element_types@.len(),
{
    let mut fields: Vec<NativeField> = Vec::new();
    let mut offset: u32 = 0;
    let mut i: usize = 0;
    while i < element_types.len()
        invariant
            i <= element_types@.len(),
            8 * element_types@.len() + 7 <= u32::MAX,
            offset == 8 * i,
            fields@.len() == i,
            forall|j: int|
                0 <= j < i ==> #[trigger] fields@[j] == (NativeField {
                    offset: (8 * j) as u32,
                    kind: field_kind_spec(element_types@[j]@),
                }),
        decreases element_types@.len() - i,
    {
        let (kind, size) = native_field_for_type(&element_types[i]);
        fields.push(NativeField { offset, kind });
        offset = offset + size;
        i = i + 1;
    }
    proof {
        lemma_align8(offset);
    }
    let aligned_size = (offset + 7) & !7;
    NativeLayout { fields, size: aligned_size }
}

/// The native layout of a shape-specialized map: the hidden class
/// pointer at offset 0, then one 8-byte field per value from offset 8,
/// of the value's field kind, for a size of 8 bytes more than 8 per
/// value.
pub fn map_shape_layout(values: &[IRType]) -> (r: NativeLayout)
    requires
        8 * values@.len() + 15 <= u32::MAX,
    ensures
        r.fields@.len() == values@.len() + 1,
        r.fields@[0] == (NativeField { offset: 0, kind: NativeFieldKind::Ptr }),
        forall|i: int|
            0 <= i < values@.len() ==> #[trigger] r.fields@[i + 1] == (NativeField {
                offset: (8 + 8 * i) as u32,
                kind: field_kind_spec(values@[i]@),
            }),
        r.size == 8 + 8 * values@.len(),
{
    let mut fields: Vec<NativeField> = Vec::new();
    fields.push(NativeField { offset: 0, kind: NativeFieldKind::Ptr });
    let mut offset: u32 = 8;
    let mut i: usize = 0;
    while i < values.len()
        invariant
            i <= values@.len(),
            8 * values@.len() + 15 <= u32::MAX,
            offset == 8 + 8 * i,
            fields@.len() == i + 1,
            fields@[0] == (NativeField { offset: 0, kind: NativeFieldKind::Ptr }),
            forall|j: int|
                0 <= j < i ==> #[trigger] fields@[j + 1] == (NativeField {
                    offset: (8 + 8 * j) as u32,
                    kind: field_kind_spec(values@[j]@),
                }),
        decreases values@.len() - i,
    {
        let (kind, size) = native_field_for_type(&values[i]);
        let align = size;
        proof {
            lemma_align8(offset);
        }
        offset = (offset + align - 1) & !(align - 1);
        fields.push(NativeField { offset, kind });
        proof {
            assert(fields@[(i + 1) as int] == NativeField { offset: (8 + 8 * i) as u32, kind: field_kind_spec(values@[i as int]@) });
        }
        offset = offset + size;
        i = i + 1;
    }
    proof {
        lemma_align8(offset);
    }
    let aligned_size = (offset + 7) & !7;
    NativeLayout { fields, size: aligned_size }
}

/// The boxed (BEAM term) size of a type in bytes.
pub open spec fn boxed_spec(k: KindV) -> int
    decreases k,
{
    match k {
        KindV::SmallInt | KindV::NonNegInt | KindV::Atom | KindV::Boolean | KindV::Nil => 8,
        KindV::Int64 | KindV::Float => 16,
        KindV::Tuple { arity } => 8 + arity * 8,
        KindV::StableTuple { element_types, .. } => 8 + element_types.len() as int * 8,
        KindV::Cons => 16,
        KindV::List => 16,
        KindV::AnyMap => 24,
        KindV::MapShape { values, .. } => 16 + values.len() as int * 8,
        KindV::Binary => 24,
        KindV::Fun { .. } => 16,
        KindV::Pid | KindV::Port | KindV::Reference => 8,
        KindV::Message { .. } => 24,
        KindV::Actor { accepts, .. } => 16 + accepts.len() as int * 8,
        KindV::Tensor { .. } => 32,
        KindV::Capability { .. } => 16,
        KindV::Union(a, _) => boxed_spec(*a),
        KindV::Intersection(a, _) => boxed_spec(*a),
        KindV::Difference(a, _) => boxed_spec(*a),
        KindV::Constant(_) => 8,
        KindV::Any | KindV::Bottom => 8,
        KindV::RecursiveVar { bound, .. } => match bound {
            Some(b) => boxed_spec(*b),
            None => 8,
        },
        KindV::Dynamic => 8,
        KindV::Speculative { actual, .. } => boxed_spec(*actual),
    }
}

/// The native size of a type in bytes: 8 for scalars and pointers, 8 per
/// element for tuples, the layout size for stable tuples and map shapes.
pub open spec fn native_spec(k: KindV) -> int {
    match k {
        KindV::Tuple { arity } => arity * 8,
        KindV::StableTuple { element_types, .. } => 8 * element_types.len() as int,
        KindV::MapShape { values, .. } => 8 + 8 * values.len() as int,
        _ => 8,
    }
}

/// Whether the native size of a type can be computed in a `u32`.
pub open spec fn native_fits(k: KindV) -> bool {
    match k {
        KindV::Tuple { arity } => arity * 8 <= u32::MAX,
        KindV::StableTuple { element_types, .. } => 8 * element_types.len() + 7 <= u32::MAX,
        KindV::MapShape { values, .. } => 8 * values.len() + 15 <= u32::MAX,
        _ => true,
    }
}

/// The boxed size of a type.
pub fn boxed_size(ty: &IRType) -> (r: u32)
    requires
        boxed_spec(ty@) <= u32::MAX,
    ensures
        r == boxed_spec(ty@),
    decreases ty,
{
    match &ty.kind {
        TypeKind::SmallInt | TypeKind::NonNegInt | TypeKind::Atom | TypeKind::Boolean | TypeKind::Nil => 8,
        TypeKind::Int64 | TypeKind::Float => 16,
        TypeKind::Tuple { arity } => 8 + *arity * 8,
        TypeKind::StableTuple { element_types, .. } => {
            proof {
                lemma_tys_view(element_types@);
            }
            8 + element_types.len() as u32 * 8
        },
        TypeKind::Cons => 16,
        TypeKind::List => 16,
        TypeKind::AnyMap => 24,
        TypeKind::MapShape { values, .. } => {
            proof {
                lemma_tys_view(values@);
            }
            16 + values.len() as u32 * 8
        },
        TypeKind::Binary => 24,
        TypeKind::Fun { .. } => 16,
        TypeKind::Pid | TypeKind::Port | TypeKind::Reference => 8,
        TypeKind::Message { .. } => 24,
        TypeKind::Actor { accepts, .. } => {
            proof {
                lemma_tys_view(accepts@);
            }
            16 + accepts.len() as u32 * 8
        },
        TypeKind::Tensor { .. } => 32,
        TypeKind::Capability { .. } => 16,
        TypeKind::Union(a, _) => boxed_size(a),
        TypeKind::Intersection(a, _) => boxed_size(a),
        TypeKind::Difference(a, _) => boxed_size(a),
        TypeKind::Constant(_) => 8,
        TypeKind::Any | TypeKind::Bottom => 8,
        TypeKind::RecursiveVar { bound, .. } => match bound {
            Some(b) => boxed_size(b),
            None => 8,
        },
        TypeKind::Dynamic => 8,
        TypeKind::Speculative { actual, .. } => boxed_size(actual),
    }
}

/// The native size of a type.
pub fn native_size(ty: &IRType) -> (r: u32)
    requires
        native_fits(ty@),
    ensures
        r == native_spec(ty@),
{
    match &ty.kind {
        TypeKind::Tuple { arity } => *arity * 8,
        TypeKind::StableTuple { element_types, .. } => {
            proof {
                lemma_tys_view(element_types@);
            }
            let layout = stable_tuple_layout(element_types.as_slice());
            layout.size
        },
        TypeKind::MapShape { values, .. } => {
            proof {
                lemma_tys_view(values@);
            }
            let layout = map_shape_layout(values.as_slice());
            layout.size
        },
        _ => 8,
    }
}

/// The bytes a native layout saves over the boxed representation: their
/// difference, or 0 when the native layout is not smaller.
pub fn estimate_savings(ty: &IRType) -> (r: u32)
    requires
        boxed_spec(ty@) <= u32::MAX,
        native_fits(ty@),
    ensures
        r == if boxed_spec(ty@) > native_spec(ty@) {
            boxed_spec(ty@) - native_spec(ty@)
        } else {
            0
        },
{
    let boxed = boxed_size(ty);
    let native = native_size(ty);
    if boxed > native {
        boxed - native
    } else {
        0
    }
}

// ── The pass ──────────────────────────────────────────────────────────────

/// Whether the sizes of the stable allocations of the blocks marked
/// reachable fit in a `u32`.
pub open spec fn stable_sizes_fit(blocks: Seq<BasicBlock>) -> bool {
    forall|b: int, i: int|
        0 <= b < blocks.len() && blocks[b].reachable && 0 <= i < blocks[b].instructions@.len()
            ==> (#[trigger] blocks[b].instructions@[i].kind matches IRInstKind::AllocStable { words, .. } ==> words * 8 <= u32::MAX)
}

/// The specialization of a stable allocation with result `result`: no
/// fields yet, 8 bytes a word, promoted, saving 4 bytes a word.
fn analyze_value(inst: &IRInst, result: IRValueId) -> (r: Option<NativeSpec>)
    requires
        inst.kind matches IRInstKind::AllocStable { words, .. } ==> words * 8 <= u32::MAX,
    ensures
        r is Some <==> inst.kind is AllocStable,
        r matches Some(s) ==> inst.kind matches IRInstKind::AllocStable { words, .. } && s.value == result
            && s.layout.fields@.len() == 0 && s.layout.size == words * 8 && s.promote_to_sir && s.savings
            == words * 4,
{
    match &inst.kind {
        IRInstKind::AllocStable { type_desc, words } => {
            let layout = NativeLayout { fields: Vec::new(), size: *words * 8 };
            Some(NativeSpec { value: result, layout, promote_to_sir: true, savings: *words * 4 })
        },
        _ => None,
    }
}

/// Whether instruction `i` of block `b` is a stable allocation with a
/// result in a block marked reachable.
pub open spec fn specializable(blocks: Seq<BasicBlock>, b: int, i: int) -> bool {
    &&& blocks[b].reachable
    &&& blocks[b].instructions@[i].result is Some
    &&& blocks[b].instructions@[i].kind is AllocStable
}

/// The specializations of the stable allocations with a result in the
/// blocks marked reachable; each is promoted.
fn compute_specializations(func: &IRFunction) -> (specs: Vec<NativeSpec>)
    requires
        stable_sizes_fit(func.blocks@),
    ensures
        specs@.len() > 0 <==> exists|b: int, i: int|
            0 <= b < func.blocks@.len() && 0 <= i < func.blocks@[b].instructions@.len() && #[trigger] specializable(func.blocks@, b, i),
        forall|k: int| 0 <= k < specs@.len() ==> (#[trigger] specs@[k]).promote_to_sir,
{
    let ghost blocks = func.blocks@;
    let mut specs: Vec<NativeSpec> = Vec::new();
    let mut b: usize = 0;
    while b < func.blocks.len()
        invariant
            b <= blocks.len(),
            blocks == func.blocks@,
            stable_sizes_fit(blocks),
            specs@.len() > 0 <==> exists|bb: int, i: int|
                0 <= bb < b && 0 <= i < blocks[bb].instructions@.len() && #[trigger] specializable(blocks, bb, i),
            forall|k: int| 0 <= k < specs@.len() ==> (#[trigger] specs@[k]).promote_to_sir,
        decreases blocks.len() - b,
    {
        if func.blocks[b].reachable {
            let insts = &func.blocks[b].instructions;
            let ghost before = specs@.len() > 0;
            let mut i: usize = 0;
            while i < insts.len()
                invariant
                    b < blocks.len(),
                    blocks == func.blocks@,
                    blocks[b as int].reachable,
                    stable_sizes_fit(blocks),
                    *insts == blocks[b as int].instructions,
                    i <= insts@.len(),
                    specs@.len() > 0 <==> (before || exists|j: int| 0 <= j < i && #[trigger] specializable(blocks, b as int, j)),
                    before <==> exists|bb: int, j: int|
                        0 <= bb < b && 0 <= j < blocks[bb].instructions@.len() && #[trigger] specializable(blocks, bb, j),
                    forall|k: int| 0 <= k < specs@.len() ==> (#[trigger] specs@[k]).promote_to_sir,
                decreases insts@.len() - i,
            {
                proof {
                    assert(insts@[i as int] == blocks[b as int].instructions@[i as int]);
                }
                if let Some(result) = insts[i].result {
                    if let Some(spec) = analyze_value(&insts[i], result) {
                        specs.push(spec);
                    }
                }
                proof {
                    if specializable(blocks, b as int, i as int) {
                        assert(specs@.len() > 0);
                    }
                }
                i = i + 1;
            }
        }
        proof {
            assert forall|j: int| 0 <= j < blocks[b as int].instructions@.len() && !blocks[b as int].reachable implies !specializable(blocks, b as int, j) by {}
        }
        b = b + 1;
    }
    specs
}

/// Native specialization only reads the function: it stays unchanged, and
/// the pass reports a change exactly when some stable allocation can be
/// given a native layout.
pub open spec fn native_post(old: IRFunction, new: IRFunction, changed: bool) -> bool {
    &&& new == old
    &&& changed == exists|b: int, i: int|
        0 <= b < old.blocks@.len() && 0 <= i < old.blocks@[b].instructions@.len()
            && #[trigger] specializable(old.blocks@, b, i)
}

/// Specializes the stable allocations of a function to native layouts:
/// returns whether there is any, that is, whether a block marked
/// reachable holds a stable allocation with a result.  The function
/// itself is left as it is: the layouts are attached at code generation.
pub fn specialize(func: &mut IRFunction) -> (changed: bool)
    requires
        stable_sizes_fit(old(func).blocks@),
    ensures
        native_post(*old(func), *final(func), changed),
{
    let specs = compute_specializations(func);
    let mut changed = false;
    let mut k: usize = 0;
    while k < specs.len()
        invariant
            k <= specs@.len(),
            forall|j: int| 0 <= j < specs@.len() ==> (#[trigger] specs@[j]).promote_to_sir,
            changed == (k > 0),
        decreases specs@.len() - k,
    {
        if specs[k].promote_to_sir {
            changed = true;
        }
        k = k + 1;
    }
    changed
}

} // verus!
