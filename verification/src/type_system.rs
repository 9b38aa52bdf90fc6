//! The type lattice of the IR: types, their mathematical model, and the
//! lattice operations over it.

use vstd::prelude::*;

verus! {

broadcast use vstd::seq::group_seq_axioms, vstd::std_specs::vec::group_vec_axioms;

/// Message priority classes for QoS-aware mailbox routing.
#[derive(Debug, Clone, Copy, PartialEq, Eq, Hash, PartialOrd, Ord, Structural)]
pub enum MessagePriority {
    /// Low-priority background messages (e.g. telemetry)
    Low,
    /// Normal messages (default)
    Normal,
    /// High-priority messages (e.g. UI events, control signals)
    High,
    /// Critical messages (e.g. supervision, fault recovery)
    Critical,
}

/// The position of a priority in the order Low < Normal < High < Critical.
pub open spec fn priority_rank(p: MessagePriority) -> int {
    match p {
        MessagePriority::Low => 0,
        MessagePriority::Normal => 1,
        MessagePriority::High => 2,
        MessagePriority::Critical => 3,
    }
}

impl MessagePriority {
    /// The position of this priority in the order Low < Normal < High < Critical.
    pub fn rank(&self) -> (r: u8)
        ensures
            r == priority_rank(*self),
    {
        match self {
            MessagePriority::Low => 0,
            MessagePriority::Normal => 1,
            MessagePriority::High => 2,
            MessagePriority::Critical => 3,
        }
    }
}

impl Default for MessagePriority {
    fn default() -> (r: Self)
        ensures
            r == MessagePriority::Normal,
    {
        MessagePriority::Normal
    }
}


/// Actor lifecycle classes — determines supervision strategy and restart behaviour.
#[derive(Debug, Clone, Copy, PartialEq, Eq, Hash, Structural)]
pub enum ActorLifecycle {
    /// Process exits when its parent exits
    Transient,
    /// Process is always restarted on failure
    Permanent,
    /// Process is never restarted
    Temporary,
    /// Process is part of a supervision tree
    Supervisor,
}

/// Tensor element data types.
#[derive(Debug, Clone, Copy, PartialEq, Eq, Hash, Structural)]
pub enum TensorDtype {
    F32,
    F16,
    F64,
    I32,
    I64,
    U8,
    Bool,
}

/// Native resource kinds for capability typing.
#[derive(Debug, Clone, Copy, PartialEq, Eq, Hash, Structural)]
pub enum NativeResourceKind {
    GpuContext,
    MlModel,
    TensorBuffer,
    IoHandle,
    Socket,
    SharedMemory,
    UiSurface,
    MediaDevice,
    Opaque,
}

/// A specific constant value that can be tracked through the IR.
#[derive(Debug, Clone, Copy, PartialEq, Eq, Hash, Structural)]
pub enum ConstantValue {
    /// A specific small integer
    Int(i64),
    /// A specific atom (by index)
    Atom(u32),
    /// Nil
    Nil,
    /// Boolean true
    True,
    /// Boolean false
    False,
    /// A specific float value, by the bit pattern of the f64
    Float(u64),
}

/// Speculative guard kinds — describe what runtime check validates
/// a speculative type assumption.
#[derive(Debug, PartialEq, Eq, Hash)]
pub enum SpeculativeGuard {
    /// Guard that a value is a specific immediate type (integer, atom, etc.)
    IsImmediate(Box<TypeKind>),
    /// Guard that a value is a specific composite type (tuple, list, etc.)
    IsComposite(Box<TypeKind>),
    /// Guard that a stable tuple has a specific shape (element types)
    StableTupleShape { element_types: Vec<IRType> },
    /// Guard that a map has a specific shape (keys)
    MapShapeKeys { keys: Vec<u32> },
    /// Guard that a value is a specific constant
    IsConstant(ConstantValue),
    /// Guard that a value belongs to a union of types
    IsInUnion { alternatives: Vec<IRType> },
    /// Guard for tensor dtype and shape
    TensorSpec { dtype: TensorDtype, shape: Vec<Option<u64>> },
    /// No guard needed — the assumption is trivially true
    Trivial,
}

/// The kind of a type in the IR.
#[derive(Debug, PartialEq, Eq, Hash)]
pub enum TypeKind {
    /// Any possible term (top of the lattice)
    Any,
    /// Bottom type (unreachable code)
    Bottom,
    SmallInt,
    NonNegInt,
    Int64,
    Float,
    Atom,
    Boolean,
    Nil,
    /// Cons cell (non-empty list)
    Cons,
    /// List (nil or cons)
    List,
    /// Tuple of known arity
    Tuple { arity: u32 },
    /// Tuple with stable (fixed, immutable) layout
    StableTuple { element_types: Vec<IRType>, immutable: bool },
    AnyMap,
    Binary,
    Fun { arity: u32 },
    Pid,
    Port,
    Reference,
    /// A typed message pattern
    Message { payload: Box<IRType>, priority: MessagePriority },
    /// Typed actor reference
    Actor { accepts: Vec<IRType>, lifecycle: ActorLifecycle },
    /// Typed tensor — element dtype and static shape (None = dynamic)
    Tensor { dtype: TensorDtype, shape: Vec<Option<u64>> },
    /// A capability-typed native resource handle
    Capability { resource: NativeResourceKind, owned: bool, shareable: bool },
    /// Union of two types (A ∪ B)
    Union(Box<IRType>, Box<IRType>),
    /// Intersection of two types (A ∩ B)
    Intersection(Box<IRType>, Box<IRType>),
    /// Difference (A \\ B) — values in A but not in B
    Difference(Box<IRType>, Box<IRType>),
    /// A specific constant value
    Constant(ConstantValue),
    /// A shape-specialized map with known atom keys and value types
    MapShape { keys: Vec<u32>, values: Vec<IRType> },
    /// A recursive type variable with an optional upper bound
    RecursiveVar { id: u32, bound: Option<Box<IRType>> },
    /// The dynamic type of gradual typing
    Dynamic,
    /// A speculative type assumption used for guard-based specialization
    Speculative { assumed: Box<IRType>, actual: Box<IRType>, guard: SpeculativeGuard },
}

/// The IR type representation.
#[derive(Debug, PartialEq, Eq, Hash)]
pub struct IRType {
    /// The kind of this type
    pub kind: TypeKind,
}

// ── The mathematical model of types ──────────────────────────────────────

/// The model of a type: the same tree as `TypeKind`, with sequences in
/// place of vectors.  Two types are equal exactly when their models are.
pub enum KindV {
    Any,
    Bottom,
    SmallInt,
    NonNegInt,
    Int64,
    Float,
    Atom,
    Boolean,
    Nil,
    Cons,
    List,
    Tuple { arity: u32 },
    StableTuple { element_types: Seq<KindV>, immutable: bool },
    AnyMap,
    Binary,
    Fun { arity: u32 },
    Pid,
    Port,
    Reference,
    Message { payload: Box<KindV>, priority: MessagePriority },
    Actor { accepts: Seq<KindV>, lifecycle: ActorLifecycle },
    Tensor { dtype: TensorDtype, shape: Seq<Option<u64>> },
    Capability { resource: NativeResourceKind, owned: bool, shareable: bool },
    Union(Box<KindV>, Box<KindV>),
    Intersection(Box<KindV>, Box<KindV>),
    Difference(Box<KindV>, Box<KindV>),
    Constant(ConstantValue),
    MapShape { keys: Seq<u32>, values: Seq<KindV> },
    RecursiveVar { id: u32, bound: Option<Box<KindV>> },
    Dynamic,
    Speculative { assumed: Box<KindV>, actual: Box<KindV>, guard: GuardV },
}

/// The model of a speculative guard.
pub enum GuardV {
    IsImmediate(Box<KindV>),
    IsComposite(Box<KindV>),
    StableTupleShape { element_types: Seq<KindV> },
    MapShapeKeys { keys: Seq<u32> },
    IsConstant(ConstantValue),
    IsInUnion { alternatives: Seq<KindV> },
    TensorSpec { dtype: TensorDtype, shape: Seq<Option<u64>> },
    Trivial,
}

/// The model of a type kind.
pub open spec fn kind_view(k: TypeKind) -> KindV
    decreases k,
{
    match k {
        TypeKind::Any => KindV::Any,
        TypeKind::Bottom => KindV::Bottom,
        TypeKind::SmallInt => KindV::SmallInt,
        TypeKind::NonNegInt => KindV::NonNegInt,
        TypeKind::Int64 => KindV::Int64,
        TypeKind::Float => KindV::Float,
        TypeKind::Atom => KindV::Atom,
        TypeKind::Boolean => KindV::Boolean,
        TypeKind::Nil => KindV::Nil,
        TypeKind::Cons => KindV::Cons,
        TypeKind::List => KindV::List,
        TypeKind::Tuple { arity } => KindV::Tuple { arity },
        TypeKind::StableTuple { element_types, immutable } => KindV::StableTuple {
            element_types: tys_view(element_types@),
            immutable,
        },
        TypeKind::AnyMap => KindV::AnyMap,
        TypeKind::Binary => KindV::Binary,
        TypeKind::Fun { arity } => KindV::Fun { arity },
        TypeKind::Pid => KindV::Pid,
        TypeKind::Port => KindV::Port,
        TypeKind::Reference => KindV::Reference,
        TypeKind::Message { payload, priority } => KindV::Message {
            payload: Box::new(kind_view(payload.kind)),
            priority,
        },
        TypeKind::Actor { accepts, lifecycle } => KindV::Actor {
            accepts: tys_view(accepts@),
            lifecycle,
        },
        TypeKind::Tensor { dtype, shape } => KindV::Tensor { dtype, shape: shape@ },
        TypeKind::Capability { resource, owned, shareable } => KindV::Capability {
            resource,
            owned,
            shareable,
        },
        TypeKind::Union(a, b) => KindV::Union(
            Box::new(kind_view(a.kind)),
            Box::new(kind_view(b.kind)),
        ),
        TypeKind::Intersection(a, b) => KindV::Intersection(
            Box::new(kind_view(a.kind)),
            Box::new(kind_view(b.kind)),
        ),
        TypeKind::Difference(a, b) => KindV::Difference(
            Box::new(kind_view(a.kind)),
            Box::new(kind_view(b.kind)),
        ),
        TypeKind::Constant(c) => KindV::Constant(c),
        TypeKind::MapShape { keys, values } => KindV::MapShape {
            keys: keys@,
            values: tys_view(values@),
        },
        TypeKind::RecursiveVar { id, bound } => KindV::RecursiveVar {
            id,
            bound: match bound {
                Some(b) => Some(Box::new(kind_view(b.kind))),
                None => None,
            },
        },
        TypeKind::Dynamic => KindV::Dynamic,
        TypeKind::Speculative { assumed, actual, guard } => KindV::Speculative {
            assumed: Box::new(kind_view(assumed.kind)),
            actual: Box::new(kind_view(actual.kind)),
            guard: guard_view(guard),
        },
    }
}

/// The models of a sequence of types, element by element.
pub open spec fn tys_view(s: Seq<IRType>) -> Seq<KindV>
    decreases s,
{
    if s.len() == 0 {
        Seq::empty()
    } else {
        tys_view(s.drop_last()).push(kind_view(s.last().kind))
    }
}

/// The model of a speculative guard.
pub open spec fn guard_view(g: SpeculativeGuard) -> GuardV
    decreases g,
{
    match g {
        SpeculativeGuard::IsImmediate(k) => GuardV::IsImmediate(Box::new(kind_view(*k))),
        SpeculativeGuard::IsComposite(k) => GuardV::IsComposite(Box::new(kind_view(*k))),
        SpeculativeGuard::StableTupleShape { element_types } => GuardV::StableTupleShape {
            element_types: tys_view(element_types@),
        },
        SpeculativeGuard::MapShapeKeys { keys } => GuardV::MapShapeKeys { keys: keys@ },
        SpeculativeGuard::IsConstant(c) => GuardV::IsConstant(c),
        SpeculativeGuard::IsInUnion { alternatives } => GuardV::IsInUnion {
            alternatives: tys_view(alternatives@),
        },
        SpeculativeGuard::TensorSpec { dtype, shape } => GuardV::TensorSpec {
            dtype,
            shape: shape@,
        },
        SpeculativeGuard::Trivial => GuardV::Trivial,
    }
}

impl View for IRType {
    type V = KindV;

    open spec fn view(&self) -> KindV {
        kind_view(self.kind)
    }
}


// ── Copies ────────────────────────────────────────────────────────────────

pub proof fn lemma_tys_view(s: Seq<IRType>)
    ensures
        tys_view(s).len() == s.len(),
        forall|i: int| 0 <= i < s.len() ==> #[trigger] tys_view(s)[i] == s[i]@,
    decreases s.len(),
{
    if s.len() > 0 {
        lemma_tys_view(s.drop_last());
    }
}

pub proof fn lemma_tys_view_ext(s: Seq<IRType>, t: Seq<KindV>)
    requires
        s.len() == t.len(),
        forall|i: int| 0 <= i < s.len() ==> #[trigger] s[i]@ == t[i],
    ensures
        tys_view(s) == t,
{
    lemma_tys_view(s);
    assert(tys_view(s) =~= t);
}

pub proof fn lemma_tys_view_push(s: Seq<IRType>, t: IRType)
    ensures
        tys_view(s.push(t)) == tys_view(s).push(t@),
{
    assert(s.push(t).drop_last() =~= s);
}

/// A copy of a type kind with the same model.
pub fn copy_kind(k: &TypeKind) -> (r: TypeKind)
    ensures
        kind_view(r) == kind_view(*k),
    decreases k,
{
    match k {
        TypeKind::Any => TypeKind::Any,
        TypeKind::Bottom => TypeKind::Bottom,
        TypeKind::SmallInt => TypeKind::SmallInt,
        TypeKind::NonNegInt => TypeKind::NonNegInt,
        TypeKind::Int64 => TypeKind::Int64,
        TypeKind::Float => TypeKind::Float,
        TypeKind::Atom => TypeKind::Atom,
        TypeKind::Boolean => TypeKind::Boolean,
        TypeKind::Nil => TypeKind::Nil,
        TypeKind::Cons => TypeKind::Cons,
        TypeKind::List => TypeKind::List,
        TypeKind::Tuple { arity } => TypeKind::Tuple { arity: *arity },
        TypeKind::StableTuple { element_types, immutable } => TypeKind::StableTuple {
            element_types: copy_types(element_types),
            immutable: *immutable,
        },
        TypeKind::AnyMap => TypeKind::AnyMap,
        TypeKind::Binary => TypeKind::Binary,
        TypeKind::Fun { arity } => TypeKind::Fun { arity: *arity },
        TypeKind::Pid => TypeKind::Pid,
        TypeKind::Port => TypeKind::Port,
        TypeKind::Reference => TypeKind::Reference,
        TypeKind::Message { payload, priority } => TypeKind::Message {
            payload: Box::new(copy_type(payload)),
            priority: *priority,
        },
        TypeKind::Actor { accepts, lifecycle } => TypeKind::Actor {
            accepts: copy_types(accepts),
            lifecycle: *lifecycle,
        },
        TypeKind::Tensor { dtype, shape } => TypeKind::Tensor {
            dtype: *dtype,
            shape: copy_shape(shape),
        },
        TypeKind::Capability { resource, owned, shareable } => TypeKind::Capability {
            resource: *resource,
            owned: *owned,
            shareable: *shareable,
        },
        TypeKind::Union(a, b) => TypeKind::Union(Box::new(copy_type(a)), Box::new(copy_type(b))),
        TypeKind::Intersection(a, b) => TypeKind::Intersection(
            Box::new(copy_type(a)),
            Box::new(copy_type(b)),
        ),
        TypeKind::Difference(a, b) => TypeKind::Difference(
            Box::new(copy_type(a)),
            Box::new(copy_type(b)),
        ),
        TypeKind::Constant(c) => TypeKind::Constant(*c),
        TypeKind::MapShape { keys, values } => TypeKind::MapShape {
            keys: copy_keys(keys),
            values: copy_types(values),
        },
        TypeKind::RecursiveVar { id, bound } => TypeKind::RecursiveVar {
            id: *id,
            bound: match bound {
                Some(b) => Some(Box::new(copy_type(b))),
                None => None,
            },
        },
        TypeKind::Dynamic => TypeKind::Dynamic,
        TypeKind::Speculative { assumed, actual, guard } => TypeKind::Speculative {
            assumed: Box::new(copy_type(assumed)),
            actual: Box::new(copy_type(actual)),
            guard: copy_guard(guard),
        },
    }
}

/// A copy of a type with the same model.
pub fn copy_type(t: &IRType) -> (r: IRType)
    ensures
        r@ == t@,
    decreases t,
{
    IRType { kind: copy_kind(&t.kind) }
}

/// A copy of a vector of types with the same models.
pub fn copy_types(v: &Vec<IRType>) -> (r: Vec<IRType>)
    ensures
        tys_view(r@) == tys_view(v@),
    decreases v,
{
    let mut r: Vec<IRType> = Vec::new();
    let mut i: usize = 0;
    while i < v.len()
        invariant
            i <= v.len(),
            r.len() == i,
            forall|j: int| 0 <= j < i ==> #[trigger] r@[j]@ == v@[j]@,
        decreases v.len() - i,
    {
        proof {
            assert(decreases_to!(v => v@[i as int]));
        }
        r.push(copy_type(&v[i]));
        i = i + 1;
    }
    proof {
        lemma_tys_view(v@);
        lemma_tys_view_ext(r@, tys_view(v@));
    }
    r
}

/// A copy of a tensor shape.
pub fn copy_shape(v: &Vec<Option<u64>>) -> (r: Vec<Option<u64>>)
    ensures
        r@ == v@,
{
    let mut r: Vec<Option<u64>> = Vec::new();
    let mut i: usize = 0;
    while i < v.len()
        invariant
            i <= v.len(),
            r@ == v@.take(i as int),
        decreases v.len() - i,
    {
        r.push(v[i]);
        i = i + 1;
        assert(r@ =~= v@.take(i as int));
    }
    assert(v@.take(v.len() as int) =~= v@);
    r
}

/// A copy of a key list.
pub fn copy_keys(v: &Vec<u32>) -> (r: Vec<u32>)
    ensures
        r@ == v@,
{
    let mut r: Vec<u32> = Vec::new();
    let mut i: usize = 0;
    while i < v.len()
        invariant
            i <= v.len(),
            r@ == v@.take(i as int),
        decreases v.len() - i,
    {
        r.push(v[i]);
        i = i + 1;
        assert(r@ =~= v@.take(i as int));
    }
    assert(v@.take(v.len() as int) =~= v@);
    r
}

/// A copy of a speculative guard with the same model.
pub fn copy_guard(g: &SpeculativeGuard) -> (r: SpeculativeGuard)
    ensures
        guard_view(r) == guard_view(*g),
    decreases g,
{
    match g {
        SpeculativeGuard::IsImmediate(k) => SpeculativeGuard::IsImmediate(Box::new(copy_kind(k))),
        SpeculativeGuard::IsComposite(k) => SpeculativeGuard::IsComposite(Box::new(copy_kind(k))),
        SpeculativeGuard::StableTupleShape { element_types } => SpeculativeGuard::StableTupleShape {
            element_types: copy_types(element_types),
        },
        SpeculativeGuard::MapShapeKeys { keys } => SpeculativeGuard::MapShapeKeys {
            keys: copy_keys(keys),
        },
        SpeculativeGuard::IsConstant(c) => SpeculativeGuard::IsConstant(*c),
        SpeculativeGuard::IsInUnion { alternatives } => SpeculativeGuard::IsInUnion {
            alternatives: copy_types(alternatives),
        },
        SpeculativeGuard::TensorSpec { dtype, shape } => SpeculativeGuard::TensorSpec {
            dtype: *dtype,
            shape: copy_shape(shape),
        },
        SpeculativeGuard::Trivial => SpeculativeGuard::Trivial,
    }
}

impl Clone for IRType {
    fn clone(&self) -> (r: Self)
        ensures
            r@ == self@,
    {
        copy_type(self)
    }
}

impl Clone for TypeKind {
    fn clone(&self) -> (r: Self)
        ensures
            kind_view(r) == kind_view(*self),
    {
        copy_kind(self)
    }
}

impl Clone for SpeculativeGuard {
    fn clone(&self) -> (r: Self)
        ensures
            guard_view(r) == guard_view(*self),
    {
        copy_guard(self)
    }
}


// ── Equality ──────────────────────────────────────────────────────────────

/// Whether two type kinds have the same model.
pub fn kind_eq(a: &TypeKind, b: &TypeKind) -> (r: bool)
    ensures
        r == (kind_view(*a) == kind_view(*b)),
    decreases a,
{
    match (a, b) {
        (TypeKind::Any, TypeKind::Any) => true,
        (TypeKind::Bottom, TypeKind::Bottom) => true,
        (TypeKind::SmallInt, TypeKind::SmallInt) => true,
        (TypeKind::NonNegInt, TypeKind::NonNegInt) => true,
        (TypeKind::Int64, TypeKind::Int64) => true,
        (TypeKind::Float, TypeKind::Float) => true,
        (TypeKind::Atom, TypeKind::Atom) => true,
        (TypeKind::Boolean, TypeKind::Boolean) => true,
        (TypeKind::Nil, TypeKind::Nil) => true,
        (TypeKind::Cons, TypeKind::Cons) => true,
        (TypeKind::List, TypeKind::List) => true,
        (TypeKind::Tuple { arity: x }, TypeKind::Tuple { arity: y }) => *x == *y,
        (
            TypeKind::StableTuple { element_types: ea, immutable: ia },
            TypeKind::StableTuple { element_types: eb, immutable: ib },
        ) => *ia == *ib && types_eq(ea, eb),
        (TypeKind::AnyMap, TypeKind::AnyMap) => true,
        (TypeKind::Binary, TypeKind::Binary) => true,
        (TypeKind::Fun { arity: x }, TypeKind::Fun { arity: y }) => *x == *y,
        (TypeKind::Pid, TypeKind::Pid) => true,
        (TypeKind::Port, TypeKind::Port) => true,
        (TypeKind::Reference, TypeKind::Reference) => true,
        (
            TypeKind::Message { payload: pa, priority: ra },
            TypeKind::Message { payload: pb, priority: rb },
        ) => *ra == *rb && type_eq(pa, pb),
        (
            TypeKind::Actor { accepts: aa, lifecycle: la },
            TypeKind::Actor { accepts: ab, lifecycle: lb },
        ) => *la == *lb && types_eq(aa, ab),
        (TypeKind::Tensor { dtype: da, shape: sa }, TypeKind::Tensor { dtype: db, shape: sb }) => {
            *da == *db && shape_eq(sa, sb)
        },
        (
            TypeKind::Capability { resource: ra, owned: oa, shareable: sa },
            TypeKind::Capability { resource: rb, owned: ob, shareable: sb },
        ) => *ra == *rb && *oa == *ob && *sa == *sb,
        (TypeKind::Union(a1, a2), TypeKind::Union(b1, b2)) => type_eq(a1, b1) && type_eq(a2, b2),
        (TypeKind::Intersection(a1, a2), TypeKind::Intersection(b1, b2)) => type_eq(a1, b1)
            && type_eq(a2, b2),
        (TypeKind::Difference(a1, a2), TypeKind::Difference(b1, b2)) => type_eq(a1, b1)
            && type_eq(a2, b2),
        (TypeKind::Constant(x), TypeKind::Constant(y)) => *x == *y,
        (TypeKind::MapShape { keys: ka, values: va }, TypeKind::MapShape { keys: kb, values: vb }) => {
            keys_eq(ka, kb) && types_eq(va, vb)
        },
        (TypeKind::RecursiveVar { id: ia, bound: ba }, TypeKind::RecursiveVar { id: ib, bound: bb }) => {
            *ia == *ib && match (ba, bb) {
                (Some(x), Some(y)) => type_eq(x, y),
                (None, None) => true,
                _ => false,
            }
        },
        (TypeKind::Dynamic, TypeKind::Dynamic) => true,
        (
            TypeKind::Speculative { assumed: sa, actual: ta, guard: ga },
            TypeKind::Speculative { assumed: sb, actual: tb, guard: gb },
        ) => type_eq(sa, sb) && type_eq(ta, tb) && guard_eq(ga, gb),
        _ => false,
    }
}

/// Whether two types have the same model.
pub fn type_eq(a: &IRType, b: &IRType) -> (r: bool)
    ensures
        r == (a@ == b@),
    decreases a,
{
    kind_eq(&a.kind, &b.kind)
}

/// Whether two vectors of types have the same models.
pub fn types_eq(a: &Vec<IRType>, b: &Vec<IRType>) -> (r: bool)
    ensures
        r == (tys_view(a@) == tys_view(b@)),
    decreases a,
{
    proof {
        lemma_tys_view(a@);
        lemma_tys_view(b@);
    }
    if a.len() != b.len() {
        return false;
    }
    let mut i: usize = 0;
    while i < a.len()
        invariant
            i <= a.len(),
            a.len() == b.len(),
            forall|j: int| 0 <= j < i ==> #[trigger] a@[j]@ == b@[j]@,
        decreases a.len() - i,
    {
        proof {
            assert(decreases_to!(a => a@[i as int]));
        }
        if !type_eq(&a[i], &b[i]) {
            proof {
                lemma_tys_view(a@);
                lemma_tys_view(b@);
                assert(tys_view(a@)[i as int] != tys_view(b@)[i as int]);
            }
            return false;
        }
        i = i + 1;
    }
    proof {
        assert(tys_view(a@) =~= tys_view(b@));
    }
    true
}

/// Whether two tensor shapes are equal.
pub fn shape_eq(a: &Vec<Option<u64>>, b: &Vec<Option<u64>>) -> (r: bool)
    ensures
        r == (a@ == b@),
{
    if a.len() != b.len() {
        return false;
    }
    let mut i: usize = 0;
    while i < a.len()
        invariant
            i <= a.len(),
            a.len() == b.len(),
            forall|j: int| 0 <= j < i ==> #[trigger] a@[j] == b@[j],
        decreases a.len() - i,
    {
        let same = match (a[i], b[i]) {
            (Some(x), Some(y)) => x == y,
            (None, None) => true,
            _ => false,
        };
        if !same {
            return false;
        }
        i = i + 1;
    }
    assert(a@ =~= b@);
    true
}

/// Whether two key lists are equal.
pub fn keys_eq(a: &Vec<u32>, b: &Vec<u32>) -> (r: bool)
    ensures
        r == (a@ == b@),
{
    if a.len() != b.len() {
        return false;
    }
    let mut i: usize = 0;
    while i < a.len()
        invariant
            i <= a.len(),
            a.len() == b.len(),
            forall|j: int| 0 <= j < i ==> #[trigger] a@[j] == b@[j],
        decreases a.len() - i,
    {
        if a[i] != b[i] {
            return false;
        }
        i = i + 1;
    }
    assert(a@ =~= b@);
    true
}

/// Whether two speculative guards have the same model.
pub fn guard_eq(a: &SpeculativeGuard, b: &SpeculativeGuard) -> (r: bool)
    ensures
        r == (guard_view(*a) == guard_view(*b)),
    decreases a,
{
    match (a, b) {
        (SpeculativeGuard::IsImmediate(x), SpeculativeGuard::IsImmediate(y)) => kind_eq(x, y),
        (SpeculativeGuard::IsComposite(x), SpeculativeGuard::IsComposite(y)) => kind_eq(x, y),
        (
            SpeculativeGuard::StableTupleShape { element_types: x },
            SpeculativeGuard::StableTupleShape { element_types: y },
        ) => types_eq(x, y),
        (SpeculativeGuard::MapShapeKeys { keys: x }, SpeculativeGuard::MapShapeKeys { keys: y }) => {
            keys_eq(x, y)
        },
        (SpeculativeGuard::IsConstant(x), SpeculativeGuard::IsConstant(y)) => *x == *y,
        (
            SpeculativeGuard::IsInUnion { alternatives: x },
            SpeculativeGuard::IsInUnion { alternatives: y },
        ) => types_eq(x, y),
        (
            SpeculativeGuard::TensorSpec { dtype: da, shape: sa },
            SpeculativeGuard::TensorSpec { dtype: db, shape: sb },
        ) => *da == *db && shape_eq(sa, sb),
        (SpeculativeGuard::Trivial, SpeculativeGuard::Trivial) => true,
        _ => false,
    }
}


// ── The lattice, as spec functions over the model ──────────────────────────

/// The general type of a constant: what it widens to when joined with
/// a different constant.
pub open spec fn const_general(c: ConstantValue) -> KindV {
    match c {
        ConstantValue::Int(_) => KindV::SmallInt,
        ConstantValue::Atom(_) => KindV::Atom,
        ConstantValue::Nil => KindV::Nil,
        ConstantValue::True => KindV::Boolean,
        ConstantValue::False => KindV::Boolean,
        ConstantValue::Float(_) => KindV::Float,
    }
}

/// Whether a type includes a given constant value.
pub open spec fn spec_contains_constant(k: KindV, c: ConstantValue) -> bool
    decreases k,
{
    match k {
        KindV::SmallInt => c is Int,
        KindV::NonNegInt => match c {
            ConstantValue::Int(i) => i >= 0,
            _ => false,
        },
        KindV::Int64 => c is Int,
        KindV::Atom => c is Atom,
        KindV::Boolean => c is True || c is False,
        KindV::Nil => c is Nil,
        KindV::List => c is Nil,
        KindV::Float => c is Float,
        KindV::Any => true,
        KindV::Dynamic => true,
        KindV::Union(a, b) => spec_contains_constant(*a, c) || spec_contains_constant(*b, c),
        _ => false,
    }
}

/// Join of two actor lifecycles: the most permissive one.
pub open spec fn lifecycle_join(l1: ActorLifecycle, l2: ActorLifecycle) -> ActorLifecycle {
    match (l1, l2) {
        (ActorLifecycle::Supervisor, _) | (_, ActorLifecycle::Supervisor) => ActorLifecycle::Supervisor,
        (ActorLifecycle::Permanent, _) | (_, ActorLifecycle::Permanent) => ActorLifecycle::Permanent,
        (ActorLifecycle::Transient, _) | (_, ActorLifecycle::Transient) => ActorLifecycle::Transient,
        _ => ActorLifecycle::Temporary,
    }
}

/// Meet of two actor lifecycles: the most restrictive one.
pub open spec fn lifecycle_meet(l1: ActorLifecycle, l2: ActorLifecycle) -> ActorLifecycle {
    match (l1, l2) {
        (ActorLifecycle::Temporary, _) | (_, ActorLifecycle::Temporary) => ActorLifecycle::Temporary,
        (ActorLifecycle::Transient, _) | (_, ActorLifecycle::Transient) => ActorLifecycle::Transient,
        (ActorLifecycle::Permanent, _) | (_, ActorLifecycle::Permanent) => ActorLifecycle::Permanent,
        _ => ActorLifecycle::Supervisor,
    }
}

/// The higher of two priorities.
pub open spec fn priority_max(p1: MessagePriority, p2: MessagePriority) -> MessagePriority {
    if priority_rank(p1) >= priority_rank(p2) { p1 } else { p2 }
}

/// The lower of two priorities.
pub open spec fn priority_min(p1: MessagePriority, p2: MessagePriority) -> MessagePriority {
    if priority_rank(p1) <= priority_rank(p2) { p1 } else { p2 }
}

/// The accepted messages of a joined actor: those of the first actor, then
/// each message of the second one that is not there yet, in order.
pub open spec fn accepts_merge(acc: Seq<KindV>, extra: Seq<KindV>) -> Seq<KindV>
    decreases extra.len(),
{
    if extra.len() == 0 {
        acc
    } else {
        let m = accepts_merge(acc, extra.drop_last());
        if m.contains(extra.last()) { m } else { m.push(extra.last()) }
    }
}

/// Join of two tensor dimensions: a size both know stays, anything else
/// becomes a dynamic dimension.
pub open spec fn dim_join(a: Option<u64>, b: Option<u64>) -> Option<u64> {
    match (a, b) {
        (Some(x), Some(y)) => if x == y { Some(x) } else { None },
        _ => None,
    }
}

/// Meet of two agreeing tensor dimensions: a known size wins over a
/// dynamic one.
pub open spec fn dim_meet(a: Option<u64>, b: Option<u64>) -> Option<u64> {
    match (a, b) {
        (Some(x), _) => Some(x),
        (None, y) => y,
    }
}

/// Whether two tensor dimensions can describe the same tensor: they do
/// unless both are known and differ.
pub open spec fn dims_agree(a: Option<u64>, b: Option<u64>) -> bool {
    match (a, b) {
        (Some(x), Some(y)) => x == y,
        _ => true,
    }
}

/// Whether a tensor dimension of a container admits one of a contained tensor.
pub open spec fn dim_contains(a: Option<u64>, b: Option<u64>) -> bool {
    match (a, b) {
        (Some(x), Some(y)) => x == y,
        (None, _) => true,
        (Some(_), None) => false,
    }
}

pub open spec fn min_len(a: nat, b: nat) -> nat {
    if a <= b { a } else { b }
}

pub open spec fn max_nat(a: nat, b: nat) -> nat {
    if a >= b { a } else { b }
}


/// Element-wise join of the first `n` types of two sequences, one level
/// down from `fuel`.
pub open spec fn spec_join_zip(ea: Seq<KindV>, eb: Seq<KindV>, n: nat, fuel: nat) -> Seq<KindV>
    decreases fuel, 0int, 0int,
{
    if fuel == 0 {
        Seq::empty()
    } else {
        Seq::new(n, |i: int| spec_join(ea[i], eb[i], (fuel - 1) as nat))
    }
}

/// Element-wise meet of the first `n` types of two sequences, one level
/// down from `fuel`.
pub open spec fn spec_meet_zip(ea: Seq<KindV>, eb: Seq<KindV>, n: nat, fuel: nat) -> Seq<KindV>
    decreases fuel, 0int, 0int,
{
    if fuel == 0 {
        Seq::empty()
    } else {
        Seq::new(n, |i: int| spec_meet(ea[i], eb[i], (fuel - 1) as nat))
    }
}

/// Whether each of the first `n` types of `ea` includes the one at the same
/// position in `eb`, one level down from `fuel`.
pub open spec fn spec_all_contain(ea: Seq<KindV>, eb: Seq<KindV>, n: nat, fuel: nat) -> bool
    decreases fuel, 0int, n,
{
    if fuel == 0 {
        false
    } else if n == 0 {
        true
    } else {
        spec_all_contain(ea, eb, (n - 1) as nat, fuel) && spec_contains(
            ea[n - 1],
            eb[n - 1],
            (fuel - 1) as nat,
        )
    }
}

/// Whether every message of `a2` is among those of `a1`.
pub open spec fn accepts_cover_spec(a1: Seq<KindV>, a2: Seq<KindV>) -> bool {
    forall|i: int| 0 <= i < a2.len() ==> a1.contains(#[trigger] a2[i])
}

/// The messages of `a1` that `a2` also accepts, in order.
pub open spec fn accepts_filter(a1: Seq<KindV>, a2: Seq<KindV>) -> Seq<KindV> {
    a1.filter(|m: KindV| a2.contains(m))
}

/// Element-wise join of two tensor shapes of the same length.
pub open spec fn shape_join_spec(s1: Seq<Option<u64>>, s2: Seq<Option<u64>>) -> Seq<Option<u64>> {
    Seq::new(s1.len(), |i: int| dim_join(s1[i], s2[i]))
}

/// Whether two tensor shapes agree in every dimension.
pub open spec fn shapes_agree(s1: Seq<Option<u64>>, s2: Seq<Option<u64>>) -> bool {
    forall|i: int| 0 <= i < s1.len() ==> #[trigger] dims_agree(s1[i], s2[i])
}

/// Element-wise meet of two tensor shapes.
pub open spec fn shape_meet_spec(s1: Seq<Option<u64>>, s2: Seq<Option<u64>>) -> Seq<Option<u64>> {
    Seq::new(s1.len(), |i: int| dim_meet(s1[i], s2[i]))
}

/// Whether each dimension of `s1` admits the one at the same position in `s2`.
pub open spec fn shape_contains_spec(s1: Seq<Option<u64>>, s2: Seq<Option<u64>>) -> bool {
    forall|i: int| 0 <= i < s1.len() ==> #[trigger] dim_contains(s1[i], s2[i])
}

/// Least upper bound of two types, with a bound `fuel` on the depth of the
/// recursion; at depth zero the result is the top type.
pub open spec fn spec_join(a: KindV, b: KindV, fuel: nat) -> KindV
    decreases fuel, 1int, 0int,
{
    if fuel == 0 {
        KindV::Any
    } else if a == b {
        a
    } else {
        let f = (fuel - 1) as nat;
        match (a, b) {
            (KindV::Bottom, t) | (t, KindV::Bottom) => t,
            (KindV::Any, _) | (_, KindV::Any) => KindV::Any,
            (KindV::SmallInt, KindV::NonNegInt) | (KindV::NonNegInt, KindV::SmallInt) => KindV::SmallInt,
            (KindV::SmallInt, KindV::Int64) | (KindV::Int64, KindV::SmallInt) => KindV::Int64,
            (KindV::NonNegInt, KindV::Int64) | (KindV::Int64, KindV::NonNegInt) => KindV::Int64,
            (KindV::Nil, KindV::Cons) | (KindV::Cons, KindV::Nil) => KindV::List,
            (KindV::List, KindV::Nil) | (KindV::Nil, KindV::List) | (KindV::List, KindV::Cons) | (
                KindV::Cons,
                KindV::List,
            ) => KindV::List,
            (KindV::Constant(x), KindV::Constant(y)) => if x == y {
                a
            } else {
                spec_join(const_general(x), const_general(y), f)
            },
            (KindV::Constant(cv), general) => if spec_contains_constant(general, cv) {
                general
            } else {
                spec_join(const_general(cv), general, f)
            },
            (general, KindV::Constant(cv)) => if spec_contains_constant(general, cv) {
                general
            } else {
                spec_join(general, const_general(cv), f)
            },
            (
                KindV::StableTuple { element_types: ea, immutable: ia },
                KindV::StableTuple { element_types: eb, immutable: ib },
            ) => if ea.len() == eb.len() {
                KindV::StableTuple {
                    element_types: spec_join_zip(ea, eb, ea.len(), fuel),
                    immutable: ia && ib,
                }
            } else {
                KindV::Tuple { arity: max_nat(ea.len(), eb.len()) as u32 }
            },
            (KindV::StableTuple { element_types: et, .. }, KindV::Tuple { arity })
            | (KindV::Tuple { arity }, KindV::StableTuple { element_types: et, .. }) => if et.len() as u32
                == arity {
                KindV::Tuple { arity }
            } else {
                KindV::Any
            },
            (KindV::Tuple { .. }, KindV::Tuple { .. }) => KindV::Any,
            (KindV::Fun { arity: x }, KindV::Fun { arity: y }) => if x == y { a } else { KindV::Any },
            (KindV::Message { payload: p1, priority: r1 }, KindV::Message { payload: p2, priority: r2 }) => {
                KindV::Message {
                    payload: Box::new(spec_join(*p1, *p2, f)),
                    priority: priority_max(r1, r2),
                }
            },
            (KindV::Actor { accepts: a1, lifecycle: l1 }, KindV::Actor { accepts: a2, lifecycle: l2 }) => {
                KindV::Actor { accepts: accepts_merge(a1, a2), lifecycle: lifecycle_join(l1, l2) }
            },
            (KindV::Tensor { dtype: d1, shape: s1 }, KindV::Tensor { dtype: d2, shape: s2 }) => if d1
                == d2 && s1.len() == s2.len() {
                KindV::Tensor {
                    dtype: d1,
                    shape: shape_join_spec(s1, s2),
                }
            } else {
                KindV::Any
            },
            (
                KindV::Capability { resource: r1, owned: o1, shareable: s1 },
                KindV::Capability { resource: r2, owned: o2, shareable: s2 },
            ) => if r1 == r2 {
                KindV::Capability { resource: r1, owned: o1 || o2, shareable: s1 || s2 }
            } else {
                KindV::Any
            },
            (KindV::MapShape { keys: k1, values: v1 }, KindV::MapShape { keys: k2, values: v2 }) => if k1
                == k2 {
                KindV::MapShape {
                    keys: k1,
                    values: spec_join_zip(v1, v2, min_len(v1.len(), v2.len()), fuel),
                }
            } else {
                KindV::AnyMap
            },
            (KindV::MapShape { .. }, KindV::AnyMap) | (KindV::AnyMap, KindV::MapShape { .. }) => KindV::AnyMap,
            (KindV::Union(x, y), c) => if spec_contains(a, b, f) {
                a
            } else {
                spec_join(spec_join(*x, *y, f), c, f)
            },
            (c, KindV::Union(x, y)) => if spec_contains(b, a, f) {
                b
            } else {
                spec_join(c, spec_join(*x, *y, f), f)
            },
            (KindV::Intersection(x1, y1), KindV::Intersection(x2, y2)) => {
                let p = if spec_contains(*x1, *y1, f) { *y1 } else { *x1 };
                let q = if spec_contains(*x2, *y2, f) { *y2 } else { *x2 };
                if spec_contains(p, q, f) {
                    p
                } else if spec_contains(q, p, f) {
                    q
                } else {
                    KindV::Union(Box::new(p), Box::new(q))
                }
            },
            (KindV::Intersection(x, y), _) => spec_meet(spec_join(*x, b, f), spec_join(*y, b, f), f),
            (_, KindV::Intersection(x, y)) => spec_meet(spec_join(a, *x, f), spec_join(a, *y, f), f),
            (KindV::Difference(x, y), _) => KindV::Difference(Box::new(spec_join(*x, b, f)), y),
            (_, KindV::Difference(x, y)) => KindV::Difference(Box::new(spec_join(a, *x, f)), y),
            (KindV::Dynamic, _) | (_, KindV::Dynamic) => KindV::Any,
            (KindV::RecursiveVar { bound: Some(x), .. }, _) => spec_join(*x, b, f),
            (_, KindV::RecursiveVar { bound: Some(x), .. }) => spec_join(a, *x, f),
            (KindV::RecursiveVar { bound: None, .. }, _) | (_, KindV::RecursiveVar { bound: None, .. }) => KindV::Any,
            (KindV::Speculative { actual, .. }, _) => spec_join(*actual, b, f),
            (_, KindV::Speculative { actual, .. }) => spec_join(a, *actual, f),
            _ => KindV::Any,
        }
    }
}

/// Greatest lower bound of two types, with a bound `fuel` on the depth of
/// the recursion; at depth zero the result is the bottom type.
pub open spec fn spec_meet(a: KindV, b: KindV, fuel: nat) -> KindV
    decreases fuel, 1int, 0int,
{
    if fuel == 0 {
        KindV::Bottom
    } else if a == b {
        a
    } else {
        let f = (fuel - 1) as nat;
        match (a, b) {
            (KindV::Bottom, _) | (_, KindV::Bottom) => KindV::Bottom,
            (KindV::Any, t) | (t, KindV::Any) => t,
            (KindV::Constant(x), KindV::Constant(y)) => if x == y { a } else { KindV::Bottom },
            (KindV::Constant(c), general) | (general, KindV::Constant(c)) => if spec_contains_constant(general, c) {
                KindV::Constant(c)
            } else {
                KindV::Bottom
            },
            (KindV::Nil, KindV::List) | (KindV::List, KindV::Nil) => KindV::Nil,
            (KindV::Cons, KindV::List) | (KindV::List, KindV::Cons) => KindV::Cons,
            (KindV::NonNegInt, KindV::SmallInt) | (KindV::SmallInt, KindV::NonNegInt) => KindV::NonNegInt,
            (KindV::SmallInt, KindV::Int64) | (KindV::Int64, KindV::SmallInt) => KindV::SmallInt,
            (KindV::NonNegInt, KindV::Int64) | (KindV::Int64, KindV::NonNegInt) => KindV::NonNegInt,
            (
                KindV::StableTuple { element_types: ea, immutable: ia },
                KindV::StableTuple { element_types: eb, immutable: ib },
            ) => if ea.len() == eb.len() {
                KindV::StableTuple {
                    element_types: spec_meet_zip(ea, eb, ea.len(), fuel),
                    immutable: ia || ib,
                }
            } else {
                KindV::Bottom
            },
            (KindV::StableTuple { element_types: et, .. }, KindV::Tuple { arity })
            | (KindV::Tuple { arity }, KindV::StableTuple { element_types: et, .. }) => if et.len() as u32
                == arity {
                KindV::Tuple { arity }
            } else {
                KindV::Bottom
            },
            (KindV::Tuple { arity: x }, KindV::Tuple { arity: y }) => if x == y { a } else { KindV::Bottom },
            (KindV::Fun { arity: x }, KindV::Fun { arity: y }) => if x == y { a } else { KindV::Bottom },
            (KindV::Message { payload: p1, priority: r1 }, KindV::Message { payload: p2, priority: r2 }) => {
                KindV::Message {
                    payload: Box::new(spec_meet(*p1, *p2, f)),
                    priority: priority_min(r1, r2),
                }
            },
            (KindV::Actor { accepts: a1, lifecycle: l1 }, KindV::Actor { accepts: a2, lifecycle: l2 }) => {
                KindV::Actor {
                    accepts: accepts_filter(a1, a2),
                    lifecycle: lifecycle_meet(l1, l2),
                }
            },
            (KindV::Tensor { dtype: d1, shape: s1 }, KindV::Tensor { dtype: d2, shape: s2 }) => if d1
                == d2 && s1.len() == s2.len() && shapes_agree(s1, s2) {
                KindV::Tensor { dtype: d1, shape: shape_meet_spec(s1, s2) }
            } else {
                KindV::Bottom
            },
            (
                KindV::Capability { resource: r1, owned: o1, shareable: s1 },
                KindV::Capability { resource: r2, owned: o2, shareable: s2 },
            ) => if r1 == r2 {
                KindV::Capability { resource: r1, owned: o1 && o2, shareable: s1 && s2 }
            } else {
                KindV::Bottom
            },
            (KindV::MapShape { keys: k1, values: v1 }, KindV::MapShape { keys: k2, values: v2 }) => if k1
                == k2 {
                KindV::MapShape {
                    keys: k1,
                    values: spec_meet_zip(v1, v2, min_len(v1.len(), v2.len()), fuel),
                }
            } else {
                KindV::Bottom
            },
            (KindV::MapShape { .. }, KindV::AnyMap) => a,
            (KindV::AnyMap, KindV::MapShape { .. }) => b,
            _ => spec_meet_rest(a, b, fuel),
        }
    }
}

/// The cases of the meet that involve compound, dynamic, recursive or
/// speculative types, and the fallback on inclusion.
pub open spec fn spec_meet_rest(a: KindV, b: KindV, fuel: nat) -> KindV
    decreases fuel, 0int, 0int,
{
    if fuel == 0 {
        KindV::Bottom
    } else {
        let f = (fuel - 1) as nat;
        match (a, b) {
            (KindV::Union(x1, y1), KindV::Union(x2, y2)) => {
                let kx = *x1 == *x2 || *x1 == *y2;
                let ky = *y1 == *x2 || *y1 == *y2;
                if kx && ky {
                    a
                } else if kx {
                    *x1
                } else if ky {
                    *y1
                } else {
                    KindV::Bottom
                }
            },
            (KindV::Union(x, y), _) => spec_join(spec_meet(*x, b, f), spec_meet(*y, b, f), f),
            (_, KindV::Union(x, y)) => spec_join(spec_meet(a, *x, f), spec_meet(a, *y, f), f),
            (KindV::Intersection(x, y), _) => spec_meet(spec_meet(*x, b, f), spec_meet(*y, b, f), f),
            (_, KindV::Intersection(x, y)) => spec_meet(spec_meet(a, *x, f), spec_meet(a, *y, f), f),
            (KindV::Difference(x, y), _) => KindV::Difference(Box::new(spec_meet(*x, b, f)), y),
            (_, KindV::Difference(x, y)) => KindV::Difference(Box::new(spec_meet(a, *x, f)), y),
            (KindV::Dynamic, t) | (t, KindV::Dynamic) => t,
            (KindV::RecursiveVar { bound: Some(x), .. }, KindV::RecursiveVar { bound: Some(y), .. }) => spec_meet(
                *x,
                *y,
                f,
            ),
            (KindV::RecursiveVar { bound: Some(x), .. }, o) | (o, KindV::RecursiveVar { bound: Some(x), .. }) => spec_meet(
                *x,
                o,
                f,
            ),
            (KindV::RecursiveVar { bound: None, .. }, _) | (_, KindV::RecursiveVar { bound: None, .. }) => KindV::Bottom,
            (KindV::Speculative { assumed: x, .. }, KindV::Speculative { assumed: y, .. }) => KindV::Speculative {
                assumed: Box::new(spec_meet(*x, *y, f)),
                actual: Box::new(spec_join(a, b, f)),
                guard: GuardV::Trivial,
            },
            (KindV::Speculative { assumed, .. }, _) => spec_meet(*assumed, b, f),
            (_, KindV::Speculative { assumed, .. }) => spec_meet(a, *assumed, f),
            _ => if spec_contains(a, b, f) {
                b
            } else if spec_contains(b, a, f) {
                a
            } else {
                KindV::Bottom
            },
        }
    }
}

/// Whether the first type includes every value of the second, with a bound
/// `fuel` on the depth of the recursion; at depth zero the answer is no.
pub open spec fn spec_contains(a: KindV, b: KindV, fuel: nat) -> bool
    decreases fuel, 1int, 0int,
{
    if fuel == 0 {
        false
    } else if a == b {
        true
    } else {
        let f = (fuel - 1) as nat;
        match (a, b) {
            (KindV::Any, _) => true,
            (_, KindV::Bottom) => true,
            (KindV::List, KindV::Nil) | (KindV::List, KindV::Cons) => true,
            (KindV::SmallInt, KindV::NonNegInt) => true,
            (KindV::Int64, KindV::SmallInt) | (KindV::Int64, KindV::NonNegInt) => true,
            (KindV::SmallInt, KindV::Constant(ConstantValue::Int(_))) => true,
            (KindV::NonNegInt, KindV::Constant(ConstantValue::Int(i))) => i >= 0,
            (KindV::Int64, KindV::Constant(ConstantValue::Int(_))) => true,
            (KindV::Atom, KindV::Constant(ConstantValue::Atom(_))) => true,
            (KindV::Boolean, KindV::Constant(ConstantValue::True)) => true,
            (KindV::Boolean, KindV::Constant(ConstantValue::False)) => true,
            (KindV::Nil, KindV::Constant(ConstantValue::Nil)) => true,
            (KindV::List, KindV::Constant(ConstantValue::Nil)) => true,
            (KindV::Float, KindV::Constant(ConstantValue::Float(_))) => true,
            (KindV::Tuple { arity }, KindV::StableTuple { element_types: et, .. }) => et.len() as u32
                == arity,
            (KindV::StableTuple { element_types: et, .. }, KindV::Tuple { arity }) => et.len() as u32
                == arity,
            (KindV::StableTuple { element_types: ea, .. }, KindV::StableTuple { element_types: eb, .. }) => {
                ea.len() == eb.len() && spec_all_contain(ea, eb, ea.len(), fuel)
            },
            (KindV::Tuple { arity: x }, KindV::Tuple { arity: y }) => x == y,
            (KindV::Fun { arity: x }, KindV::Fun { arity: y }) => x == y,
            (KindV::Message { payload: p1, priority: r1 }, KindV::Message { payload: p2, priority: r2 }) => {
                spec_contains(*p1, *p2, f) && priority_rank(r1) <= priority_rank(r2)
            },
            (KindV::Actor { accepts: a1, lifecycle: l1 }, KindV::Actor { accepts: a2, lifecycle: l2 }) => {
                l1 == l2 && accepts_cover_spec(a1, a2)
            },
            (KindV::Tensor { dtype: d1, shape: s1 }, KindV::Tensor { dtype: d2, shape: s2 }) => {
                d1 == d2 && s1.len() == s2.len() && shape_contains_spec(s1, s2)
            },
            (
                KindV::Capability { resource: r1, owned: o1, shareable: s1 },
                KindV::Capability { resource: r2, owned: o2, shareable: s2 },
            ) => r1 == r2 && (!o2 || o1) && (!s2 || s1),
            (KindV::MapShape { keys: k1, values: v1 }, KindV::MapShape { keys: k2, values: v2 }) => {
                k1 == k2 && v1.len() == v2.len() && spec_all_contain(v1, v2, v1.len(), fuel)
            },
            (KindV::AnyMap, KindV::MapShape { .. }) => true,
            (_, KindV::Union(x, y)) => spec_contains(a, *x, f) && spec_contains(a, *y, f),
            (KindV::Union(x, y), _) => spec_contains(*x, b, f) || spec_contains(*y, b, f),
            (KindV::Intersection(x, y), _) => spec_contains(*x, b, f) && spec_contains(*y, b, f),
            (KindV::Difference(x, y), c) => spec_contains(*x, c, f) && spec_meet(c, *y, f)
                == KindV::Bottom,
            (KindV::Dynamic, _) => true,
            (KindV::RecursiveVar { bound: Some(x), .. }, o) => spec_contains(*x, o, f),
            (KindV::RecursiveVar { bound: None, .. }, _) => false,
            (KindV::Speculative { assumed, .. }, o) => spec_contains(*assumed, o, f),
            (_, KindV::Intersection(x, y)) => spec_contains(a, *x, f) || spec_contains(a, *y, f),
            _ => false,
        }
    }
}


// ── The lattice, executable ───────────────────────────────────────────────

/// Whether a type includes a given constant value.
fn contains_constant_kind(k: &TypeKind, c: &ConstantValue) -> (r: bool)
    ensures
        r == spec_contains_constant(kind_view(*k), *c),
    decreases k,
{
    match k {
        TypeKind::SmallInt => matches!(c, ConstantValue::Int(_)),
        TypeKind::NonNegInt => match c {
            ConstantValue::Int(i) => *i >= 0,
            _ => false,
        },
        TypeKind::Int64 => matches!(c, ConstantValue::Int(_)),
        TypeKind::Atom => matches!(c, ConstantValue::Atom(_)),
        TypeKind::Boolean => matches!(c, ConstantValue::True | ConstantValue::False),
        TypeKind::Nil => matches!(c, ConstantValue::Nil),
        TypeKind::List => matches!(c, ConstantValue::Nil),
        TypeKind::Float => matches!(c, ConstantValue::Float(_)),
        TypeKind::Any => true,
        TypeKind::Dynamic => true,
        TypeKind::Union(a, b) => contains_constant_kind(&a.kind, c) || contains_constant_kind(
            &b.kind,
            c,
        ),
        _ => false,
    }
}

/// The general type of a constant.
fn general_kind(c: &ConstantValue) -> (r: TypeKind)
    ensures
        kind_view(r) == const_general(*c),
{
    match c {
        ConstantValue::Int(_) => TypeKind::SmallInt,
        ConstantValue::Atom(_) => TypeKind::Atom,
        ConstantValue::Nil => TypeKind::Nil,
        ConstantValue::True => TypeKind::Boolean,
        ConstantValue::False => TypeKind::Boolean,
        ConstantValue::Float(_) => TypeKind::Float,
    }
}

fn lifecycle_join_exec(l1: ActorLifecycle, l2: ActorLifecycle) -> (r: ActorLifecycle)
    ensures
        r == lifecycle_join(l1, l2),
{
    match (l1, l2) {
        (ActorLifecycle::Supervisor, _) | (_, ActorLifecycle::Supervisor) => ActorLifecycle::Supervisor,
        (ActorLifecycle::Permanent, _) | (_, ActorLifecycle::Permanent) => ActorLifecycle::Permanent,
        (ActorLifecycle::Transient, _) | (_, ActorLifecycle::Transient) => ActorLifecycle::Transient,
        _ => ActorLifecycle::Temporary,
    }
}

fn lifecycle_meet_exec(l1: ActorLifecycle, l2: ActorLifecycle) -> (r: ActorLifecycle)
    ensures
        r == lifecycle_meet(l1, l2),
{
    match (l1, l2) {
        (ActorLifecycle::Temporary, _) | (_, ActorLifecycle::Temporary) => ActorLifecycle::Temporary,
        (ActorLifecycle::Transient, _) | (_, ActorLifecycle::Transient) => ActorLifecycle::Transient,
        (ActorLifecycle::Permanent, _) | (_, ActorLifecycle::Permanent) => ActorLifecycle::Permanent,
        _ => ActorLifecycle::Supervisor,
    }
}

fn priority_max_exec(p1: MessagePriority, p2: MessagePriority) -> (r: MessagePriority)
    ensures
        r == priority_max(p1, p2),
{
    if p1.rank() >= p2.rank() { p1 } else { p2 }
}

fn priority_min_exec(p1: MessagePriority, p2: MessagePriority) -> (r: MessagePriority)
    ensures
        r == priority_min(p1, p2),
{
    if p1.rank() <= p2.rank() { p1 } else { p2 }
}

/// Whether a vector of types holds one with the same model as `t`.
pub fn types_contain(v: &Vec<IRType>, t: &IRType) -> (r: bool)
    ensures
        r == tys_view(v@).contains(t@),
{
    proof {
        lemma_tys_view(v@);
    }
    let mut i: usize = 0;
    while i < v.len()
        invariant
            i <= v.len(),
            tys_view(v@).len() == v.len(),
            forall|j: int| 0 <= j < v.len() ==> #[trigger] tys_view(v@)[j] == v@[j]@,
            forall|j: int| 0 <= j < i ==> v@[j]@ != t@,
        decreases v.len() - i,
    {
        if type_eq(&v[i], t) {
            proof {
                assert(tys_view(v@)[i as int] == t@);
            }
            return true;
        }
        i = i + 1;
    }
    false
}

/// The accepted messages of the join of two actors.
fn merge_accepts(a1: &Vec<IRType>, a2: &Vec<IRType>) -> (r: Vec<IRType>)
    ensures
        tys_view(r@) == accepts_merge(tys_view(a1@), tys_view(a2@)),
{
    let mut acc = copy_types(a1);
    let mut i: usize = 0;
    proof {
        lemma_tys_view(a2@);
        assert(tys_view(a2@).take(0) =~= Seq::<KindV>::empty());
    }
    while i < a2.len()
        invariant
            i <= a2.len(),
            tys_view(a2@).len() == a2.len(),
            forall|j: int| 0 <= j < a2.len() ==> #[trigger] tys_view(a2@)[j] == a2@[j]@,
            tys_view(acc@) == accepts_merge(tys_view(a1@), tys_view(a2@).take(i as int)),
        decreases a2.len() - i,
    {
        let ghost before = acc@;
        proof {
            let s = tys_view(a2@).take(i + 1);
            assert(s.drop_last() =~= tys_view(a2@).take(i as int));
            assert(s.last() == a2@[i as int]@);
        }
        if !types_contain(&acc, &a2[i]) {
            let c = copy_type(&a2[i]);
            proof {
                lemma_tys_view_push(before, c);
            }
            acc.push(c);
        }
        i = i + 1;
    }
    proof {
        assert(tys_view(a2@).take(a2.len() as int) =~= tys_view(a2@));
    }
    acc
}



/// The accepted messages of the meet of two actors: those of the first
/// that the second also accepts.
fn filter_accepts(a1: &Vec<IRType>, a2: &Vec<IRType>) -> (r: Vec<IRType>)
    ensures
        tys_view(r@) == accepts_filter(tys_view(a1@), tys_view(a2@)),
{
    let ghost pred = |m: KindV| tys_view(a2@).contains(m);
    let mut acc: Vec<IRType> = Vec::new();
    let mut i: usize = 0;
    proof {
        lemma_tys_view(a1@);
        reveal(Seq::filter);
        assert(tys_view(a1@).take(0) =~= Seq::<KindV>::empty());
        assert(tys_view(acc@) =~= Seq::<KindV>::empty());
    }
    while i < a1.len()
        invariant
            i <= a1.len(),
            pred == (|m: KindV| tys_view(a2@).contains(m)),
            tys_view(a1@).len() == a1.len(),
            forall|j: int| 0 <= j < a1.len() ==> #[trigger] tys_view(a1@)[j] == a1@[j]@,
            tys_view(acc@) == tys_view(a1@).take(i as int).filter(pred),
        decreases a1.len() - i,
    {
        let ghost before = acc@;
        proof {
            reveal(Seq::filter);
            let s = tys_view(a1@).take(i + 1);
            assert(s.drop_last() =~= tys_view(a1@).take(i as int));
            assert(s.last() == a1@[i as int]@);
        }
        if types_contain(a2, &a1[i]) {
            let c = copy_type(&a1[i]);
            proof {
                lemma_tys_view_push(before, c);
            }
            acc.push(c);
        }
        i = i + 1;
    }
    proof {
        assert(tys_view(a1@).take(a1.len() as int) =~= tys_view(a1@));
    }
    acc
}

/// Element-wise join of the first `n` types of two vectors.
fn join_zip(ea: &Vec<IRType>, eb: &Vec<IRType>, n: usize, fuel: u64) -> (r: Vec<IRType>)
    requires
        fuel > 0,
        n <= ea.len(),
        n <= eb.len(),
    ensures
        tys_view(r@) == spec_join_zip(tys_view(ea@), tys_view(eb@), n as nat, fuel as nat),
    decreases fuel, 0int,
{
    proof {
        lemma_tys_view(ea@);
        lemma_tys_view(eb@);
    }
    let mut r: Vec<IRType> = Vec::new();
    let mut i: usize = 0;
    while i < n
        invariant
            i <= n,
            fuel > 0,
            n <= ea.len(),
            n <= eb.len(),
            r.len() == i,
            forall|j: int| 0 <= j < i ==> #[trigger] r@[j]@ == spec_join(ea@[j]@, eb@[j]@, (fuel - 1) as nat),
        decreases n - i,
    {
        r.push(join_in(&ea[i], &eb[i], fuel - 1));
        i = i + 1;
    }
    proof {
        lemma_tys_view_ext(r@, spec_join_zip(tys_view(ea@), tys_view(eb@), n as nat, fuel as nat));
    }
    r
}

/// Element-wise meet of the first `n` types of two vectors.
fn meet_zip(ea: &Vec<IRType>, eb: &Vec<IRType>, n: usize, fuel: u64) -> (r: Vec<IRType>)
    requires
        fuel > 0,
        n <= ea.len(),
        n <= eb.len(),
    ensures
        tys_view(r@) == spec_meet_zip(tys_view(ea@), tys_view(eb@), n as nat, fuel as nat),
    decreases fuel, 0int,
{
    proof {
        lemma_tys_view(ea@);
        lemma_tys_view(eb@);
    }
    let mut r: Vec<IRType> = Vec::new();
    let mut i: usize = 0;
    while i < n
        invariant
            i <= n,
            fuel > 0,
            n <= ea.len(),
            n <= eb.len(),
            r.len() == i,
            forall|j: int| 0 <= j < i ==> #[trigger] r@[j]@ == spec_meet(ea@[j]@, eb@[j]@, (fuel - 1) as nat),
        decreases n - i,
    {
        r.push(meet_in(&ea[i], &eb[i], fuel - 1));
        i = i + 1;
    }
    proof {
        lemma_tys_view_ext(r@, spec_meet_zip(tys_view(ea@), tys_view(eb@), n as nat, fuel as nat));
    }
    r
}

/// Whether each type of the first vector includes the type at the same
/// position in the second (the vectors have the same length).
fn contains_all(ea: &Vec<IRType>, eb: &Vec<IRType>, fuel: u64) -> (r: bool)
    requires
        fuel > 0,
        ea.len() == eb.len(),
    ensures
        r == spec_all_contain(tys_view(ea@), tys_view(eb@), ea.len() as nat, fuel as nat),
    decreases fuel, 0int,
{
    proof {
        lemma_tys_view(ea@);
        lemma_tys_view(eb@);
    }
    let mut i: usize = 0;
    while i < ea.len()
        invariant
            i <= ea.len(),
            fuel > 0,
            ea.len() == eb.len(),
            forall|j: int| 0 <= j < ea.len() ==> #[trigger] tys_view(ea@)[j] == ea@[j]@,
            forall|j: int| 0 <= j < eb.len() ==> #[trigger] tys_view(eb@)[j] == eb@[j]@,
            spec_all_contain(tys_view(ea@), tys_view(eb@), i as nat, fuel as nat),
        decreases ea.len() - i,
    {
        let ok = contains_in(&ea[i], &eb[i], fuel - 1);
        if !ok {
            proof {
                lemma_all_contain_monotone(tys_view(ea@), tys_view(eb@), (i + 1) as nat, ea.len() as nat, fuel as nat);
            }
            return false;
        }
        i = i + 1;
    }
    true
}

/// If the first `m` pairs are not all contained, neither are the first `n >= m`.
proof fn lemma_all_contain_monotone(ea: Seq<KindV>, eb: Seq<KindV>, m: nat, n: nat, fuel: nat)
    requires
        m <= n,
        !spec_all_contain(ea, eb, m, fuel),
    ensures
        !spec_all_contain(ea, eb, n, fuel),
    decreases n - m,
{
    if m < n {
        lemma_all_contain_monotone(ea, eb, m, (n - 1) as nat, fuel);
    }
}

/// Element-wise join of two tensor shapes of the same length.
fn shape_join(s1: &Vec<Option<u64>>, s2: &Vec<Option<u64>>) -> (r: Vec<Option<u64>>)
    requires
        s1.len() == s2.len(),
    ensures
        r@ == shape_join_spec(s1@, s2@),
{
    let n = s1.len();
    let mut r: Vec<Option<u64>> = Vec::new();
    let mut i: usize = 0;
    while i < n
        invariant
            i <= n,
            n <= s1.len(),
            n <= s2.len(),
            r.len() == i,
            forall|j: int| 0 <= j < i ==> #[trigger] r@[j] == dim_join(s1@[j], s2@[j]),
        decreases n - i,
    {
        let d = match (s1[i], s2[i]) {
            (Some(x), Some(y)) => if x == y { Some(x) } else { None },
            _ => None,
        };
        r.push(d);
        i = i + 1;
    }
    assert(r@ =~= shape_join_spec(s1@, s2@));
    r
}

/// Whether two tensor shapes of the same length agree in every dimension.
fn shape_agree(s1: &Vec<Option<u64>>, s2: &Vec<Option<u64>>) -> (r: bool)
    requires
        s1.len() == s2.len(),
    ensures
        r == shapes_agree(s1@, s2@),
{
    let mut i: usize = 0;
    while i < s1.len()
        invariant
            i <= s1.len(),
            s1.len() == s2.len(),
            forall|j: int| 0 <= j < i ==> #[trigger] dims_agree(s1@[j], s2@[j]),
        decreases s1.len() - i,
    {
        match (s1[i], s2[i]) {
            (Some(x), Some(y)) => {
                if x != y {
                    assert(!dims_agree(s1@[i as int], s2@[i as int]));
                    return false;
                }
            },
            _ => {},
        }
        i = i + 1;
    }
    true
}

/// Element-wise meet of two tensor shapes of the same length.
fn shape_meet(s1: &Vec<Option<u64>>, s2: &Vec<Option<u64>>) -> (r: Vec<Option<u64>>)
    requires
        s1.len() == s2.len(),
    ensures
        r@ == shape_meet_spec(s1@, s2@),
{
    let mut r: Vec<Option<u64>> = Vec::new();
    let mut i: usize = 0;
    while i < s1.len()
        invariant
            i <= s1.len(),
            s1.len() == s2.len(),
            r.len() == i,
            forall|j: int| 0 <= j < i ==> #[trigger] r@[j] == dim_meet(s1@[j], s2@[j]),
        decreases s1.len() - i,
    {
        let d = match (s1[i], s2[i]) {
            (Some(x), _) => Some(x),
            (None, y) => y,
        };
        r.push(d);
        i = i + 1;
    }
    assert(r@ =~= shape_meet_spec(s1@, s2@));
    r
}

/// Whether each dimension of a tensor shape admits the one at the same
/// position in another shape of the same length.
fn shape_contains(s1: &Vec<Option<u64>>, s2: &Vec<Option<u64>>) -> (r: bool)
    requires
        s1.len() == s2.len(),
    ensures
        r == shape_contains_spec(s1@, s2@),
{
    let mut i: usize = 0;
    while i < s1.len()
        invariant
            i <= s1.len(),
            s1.len() == s2.len(),
            forall|j: int| 0 <= j < i ==> #[trigger] dim_contains(s1@[j], s2@[j]),
        decreases s1.len() - i,
    {
        let ok = match (s1[i], s2[i]) {
            (Some(x), Some(y)) => x == y,
            (None, _) => true,
            (Some(_), None) => false,
        };
        if !ok {
            assert(!dim_contains(s1@[i as int], s2@[i as int]));
            return false;
        }
        i = i + 1;
    }
    true
}

fn mk(kind: TypeKind) -> (r: IRType)
    ensures
        r@ == kind_view(kind),
{
    IRType { kind }
}


/// Least upper bound of two types, with a recursion depth bound.
pub fn join_in(a: &IRType, b: &IRType, fuel: u64) -> (r: IRType)
    ensures
        r@ == spec_join(a@, b@, fuel as nat),
    decreases fuel, 1int,
{
    if fuel == 0 {
        return mk(TypeKind::Any);
    }
    if type_eq(a, b) {
        return copy_type(a);
    }
    let f = fuel - 1;
    match (&a.kind, &b.kind) {
        (TypeKind::Bottom, t) | (t, TypeKind::Bottom) => mk(copy_kind(t)),
        (TypeKind::Any, _) | (_, TypeKind::Any) => mk(TypeKind::Any),
        (TypeKind::SmallInt, TypeKind::NonNegInt) | (TypeKind::NonNegInt, TypeKind::SmallInt) => mk(
            TypeKind::SmallInt,
        ),
        (TypeKind::SmallInt, TypeKind::Int64) | (TypeKind::Int64, TypeKind::SmallInt) => mk(
            TypeKind::Int64,
        ),
        (TypeKind::NonNegInt, TypeKind::Int64) | (TypeKind::Int64, TypeKind::NonNegInt) => mk(
            TypeKind::Int64,
        ),
        (TypeKind::Nil, TypeKind::Cons) | (TypeKind::Cons, TypeKind::Nil) => mk(TypeKind::List),
        (TypeKind::List, TypeKind::Nil) | (TypeKind::Nil, TypeKind::List) | (TypeKind::List, TypeKind::Cons) | (
            TypeKind::Cons,
            TypeKind::List,
        ) => mk(TypeKind::List),
        (TypeKind::Constant(x), TypeKind::Constant(y)) => {
            if *x == *y {
                copy_type(a)
            } else {
                join_in(&mk(general_kind(x)), &mk(general_kind(y)), f)
            }
        },
        (TypeKind::Constant(cv), general) => {
            if contains_constant_kind(general, cv) {
                mk(copy_kind(general))
            } else {
                join_in(&mk(general_kind(cv)), b, f)
            }
        },
        (general, TypeKind::Constant(cv)) => {
            if contains_constant_kind(general, cv) {
                mk(copy_kind(general))
            } else {
                join_in(a, &mk(general_kind(cv)), f)
            }
        },
        (
            TypeKind::StableTuple { element_types: ea, immutable: ia },
            TypeKind::StableTuple { element_types: eb, immutable: ib },
        ) => {
            proof {
                lemma_tys_view(ea@);
                lemma_tys_view(eb@);
            }
            if ea.len() == eb.len() {
                let joined = join_zip(ea, eb, ea.len(), fuel);
                mk(TypeKind::StableTuple { element_types: joined, immutable: *ia && *ib })
            } else {
                let m = if ea.len() >= eb.len() { ea.len() } else { eb.len() };
                mk(TypeKind::Tuple { arity: m as u32 })
            }
        },
        (TypeKind::StableTuple { element_types: et, .. }, TypeKind::Tuple { arity })
        | (TypeKind::Tuple { arity }, TypeKind::StableTuple { element_types: et, .. }) => {
            proof {
                lemma_tys_view(et@);
            }
            let n = et.len() as u32;
            if n == *arity {
                mk(TypeKind::Tuple { arity: *arity })
            } else {
                mk(TypeKind::Any)
            }
        },
        (TypeKind::Tuple { .. }, TypeKind::Tuple { .. }) => mk(TypeKind::Any),
        (TypeKind::Fun { arity: x }, TypeKind::Fun { arity: y }) => {
            if *x == *y {
                copy_type(a)
            } else {
                mk(TypeKind::Any)
            }
        },
        (
            TypeKind::Message { payload: p1, priority: r1 },
            TypeKind::Message { payload: p2, priority: r2 },
        ) => mk(
            TypeKind::Message {
                payload: Box::new(join_in(p1, p2, f)),
                priority: priority_max_exec(*r1, *r2),
            },
        ),
        (
            TypeKind::Actor { accepts: a1, lifecycle: l1 },
            TypeKind::Actor { accepts: a2, lifecycle: l2 },
        ) => mk(
            TypeKind::Actor {
                accepts: merge_accepts(a1, a2),
                lifecycle: lifecycle_join_exec(*l1, *l2),
            },
        ),
        (TypeKind::Tensor { dtype: d1, shape: s1 }, TypeKind::Tensor { dtype: d2, shape: s2 }) => {
            if *d1 == *d2 && s1.len() == s2.len() {
                mk(TypeKind::Tensor { dtype: *d1, shape: shape_join(s1, s2) })
            } else {
                mk(TypeKind::Any)
            }
        },
        (
            TypeKind::Capability { resource: r1, owned: o1, shareable: s1 },
            TypeKind::Capability { resource: r2, owned: o2, shareable: s2 },
        ) => {
            if *r1 == *r2 {
                mk(
                    TypeKind::Capability {
                        resource: *r1,
                        owned: *o1 || *o2,
                        shareable: *s1 || *s2,
                    },
                )
            } else {
                mk(TypeKind::Any)
            }
        },
        (
            TypeKind::MapShape { keys: k1, values: v1 },
            TypeKind::MapShape { keys: k2, values: v2 },
        ) => {
            if keys_eq(k1, k2) {
                proof {
                    lemma_tys_view(v1@);
                    lemma_tys_view(v2@);
                }
                let n = if v1.len() <= v2.len() { v1.len() } else { v2.len() };
                let joined = join_zip(v1, v2, n, fuel);
                mk(TypeKind::MapShape { keys: copy_keys(k1), values: joined })
            } else {
                mk(TypeKind::AnyMap)
            }
        },
        (TypeKind::MapShape { .. }, TypeKind::AnyMap) | (TypeKind::AnyMap, TypeKind::MapShape { .. }) => mk(
            TypeKind::AnyMap,
        ),
        (TypeKind::Union(x, y), _) => {
            if contains_in(a, b, f) {
                copy_type(a)
            } else {
                let xy = join_in(x, y, f);
                join_in(&xy, b, f)
            }
        },
        (_, TypeKind::Union(x, y)) => {
            if contains_in(b, a, f) {
                copy_type(b)
            } else {
                let xy = join_in(x, y, f);
                join_in(a, &xy, f)
            }
        },
        (TypeKind::Intersection(x1, y1), TypeKind::Intersection(x2, y2)) => {
            let p: &IRType = if contains_in(x1, y1, f) { y1 } else { x1 };
            let q: &IRType = if contains_in(x2, y2, f) { y2 } else { x2 };
            if contains_in(p, q, f) {
                copy_type(p)
            } else if contains_in(q, p, f) {
                copy_type(q)
            } else {
                mk(TypeKind::Union(Box::new(copy_type(p)), Box::new(copy_type(q))))
            }
        },
        (TypeKind::Intersection(x, y), _) => {
            let jx = join_in(x, b, f);
            let jy = join_in(y, b, f);
            meet_in(&jx, &jy, f)
        },
        (_, TypeKind::Intersection(x, y)) => {
            let jx = join_in(a, x, f);
            let jy = join_in(a, y, f);
            meet_in(&jx, &jy, f)
        },
        (TypeKind::Difference(x, y), _) => mk(
            TypeKind::Difference(Box::new(join_in(x, b, f)), Box::new(copy_type(y))),
        ),
        (_, TypeKind::Difference(x, y)) => mk(
            TypeKind::Difference(Box::new(join_in(a, x, f)), Box::new(copy_type(y))),
        ),
        (TypeKind::Dynamic, _) | (_, TypeKind::Dynamic) => mk(TypeKind::Any),
        (TypeKind::RecursiveVar { bound: Some(x), .. }, _) => join_in(x, b, f),
        (_, TypeKind::RecursiveVar { bound: Some(x), .. }) => join_in(a, x, f),
        (TypeKind::RecursiveVar { bound: None, .. }, _) | (_, TypeKind::RecursiveVar { bound: None, .. }) => mk(
            TypeKind::Any,
        ),
        (TypeKind::Speculative { actual, .. }, _) => join_in(actual, b, f),
        (_, TypeKind::Speculative { actual, .. }) => join_in(a, actual, f),
        _ => mk(TypeKind::Any),
    }
}

/// Greatest lower bound of two types, with a recursion depth bound.
pub fn meet_in(a: &IRType, b: &IRType, fuel: u64) -> (r: IRType)
    ensures
        r@ == spec_meet(a@, b@, fuel as nat),
    decreases fuel, 1int,
{
    if fuel == 0 {
        return mk(TypeKind::Bottom);
    }
    if type_eq(a, b) {
        return copy_type(a);
    }
    let f = fuel - 1;
    match (&a.kind, &b.kind) {
        (TypeKind::Bottom, _) | (_, TypeKind::Bottom) => mk(TypeKind::Bottom),
        (TypeKind::Any, t) | (t, TypeKind::Any) => mk(copy_kind(t)),
        (TypeKind::Constant(x), TypeKind::Constant(y)) => {
            if *x == *y {
                copy_type(a)
            } else {
                mk(TypeKind::Bottom)
            }
        },
        (TypeKind::Constant(c), general) | (general, TypeKind::Constant(c)) => {
            if contains_constant_kind(general, c) {
                mk(TypeKind::Constant(*c))
            } else {
                mk(TypeKind::Bottom)
            }
        },
        (TypeKind::Nil, TypeKind::List) | (TypeKind::List, TypeKind::Nil) => mk(TypeKind::Nil),
        (TypeKind::Cons, TypeKind::List) | (TypeKind::List, TypeKind::Cons) => mk(TypeKind::Cons),
        (TypeKind::NonNegInt, TypeKind::SmallInt) | (TypeKind::SmallInt, TypeKind::NonNegInt) => mk(
            TypeKind::NonNegInt,
        ),
        (TypeKind::SmallInt, TypeKind::Int64) | (TypeKind::Int64, TypeKind::SmallInt) => mk(
            TypeKind::SmallInt,
        ),
        (TypeKind::NonNegInt, TypeKind::Int64) | (TypeKind::Int64, TypeKind::NonNegInt) => mk(
            TypeKind::NonNegInt,
        ),
        (
            TypeKind::StableTuple { element_types: ea, immutable: ia },
            TypeKind::StableTuple { element_types: eb, immutable: ib },
        ) => {
            proof {
                lemma_tys_view(ea@);
                lemma_tys_view(eb@);
            }
            if ea.len() == eb.len() {
                let met = meet_zip(ea, eb, ea.len(), fuel);
                mk(TypeKind::StableTuple { element_types: met, immutable: *ia || *ib })
            } else {
                mk(TypeKind::Bottom)
            }
        },
        (TypeKind::StableTuple { element_types: et, .. }, TypeKind::Tuple { arity })
        | (TypeKind::Tuple { arity }, TypeKind::StableTuple { element_types: et, .. }) => {
            proof {
                lemma_tys_view(et@);
            }
            if et.len() as u32 == *arity {
                mk(TypeKind::Tuple { arity: *arity })
            } else {
                mk(TypeKind::Bottom)
            }
        },
        (TypeKind::Tuple { arity: x }, TypeKind::Tuple { arity: y }) => {
            if *x == *y {
                copy_type(a)
            } else {
                mk(TypeKind::Bottom)
            }
        },
        (TypeKind::Fun { arity: x }, TypeKind::Fun { arity: y }) => {
            if *x == *y {
                copy_type(a)
            } else {
                mk(TypeKind::Bottom)
            }
        },
        (
            TypeKind::Message { payload: p1, priority: r1 },
            TypeKind::Message { payload: p2, priority: r2 },
        ) => mk(
            TypeKind::Message {
                payload: Box::new(meet_in(p1, p2, f)),
                priority: priority_min_exec(*r1, *r2),
            },
        ),
        (
            TypeKind::Actor { accepts: a1, lifecycle: l1 },
            TypeKind::Actor { accepts: a2, lifecycle: l2 },
        ) => mk(
            TypeKind::Actor {
                accepts: filter_accepts(a1, a2),
                lifecycle: lifecycle_meet_exec(*l1, *l2),
            },
        ),
        (TypeKind::Tensor { dtype: d1, shape: s1 }, TypeKind::Tensor { dtype: d2, shape: s2 }) => {
            if *d1 == *d2 && s1.len() == s2.len() && shape_agree(s1, s2) {
                mk(TypeKind::Tensor { dtype: *d1, shape: shape_meet(s1, s2) })
            } else {
                mk(TypeKind::Bottom)
            }
        },
        (
            TypeKind::Capability { resource: r1, owned: o1, shareable: s1 },
            TypeKind::Capability { resource: r2, owned: o2, shareable: s2 },
        ) => {
            if *r1 == *r2 {
                mk(
                    TypeKind::Capability {
                        resource: *r1,
                        owned: *o1 && *o2,
                        shareable: *s1 && *s2,
                    },
                )
            } else {
                mk(TypeKind::Bottom)
            }
        },
        (
            TypeKind::MapShape { keys: k1, values: v1 },
            TypeKind::MapShape { keys: k2, values: v2 },
        ) => {
            if keys_eq(k1, k2) {
                proof {
                    lemma_tys_view(v1@);
                    lemma_tys_view(v2@);
                }
                let n = if v1.len() <= v2.len() { v1.len() } else { v2.len() };
                let met = meet_zip(v1, v2, n, fuel);
                mk(TypeKind::MapShape { keys: copy_keys(k1), values: met })
            } else {
                mk(TypeKind::Bottom)
            }
        },
        (TypeKind::MapShape { .. }, TypeKind::AnyMap) => copy_type(a),
        (TypeKind::AnyMap, TypeKind::MapShape { .. }) => copy_type(b),
        _ => meet_rest(a, b, fuel),
    }
}

/// The cases of the meet that involve compound, dynamic, recursive or
/// speculative types, and the fallback on inclusion.
#[verifier::rlimit(60)]
fn meet_rest(a: &IRType, b: &IRType, fuel: u64) -> (r: IRType)
    requires
        fuel > 0,
    ensures
        r@ == spec_meet_rest(a@, b@, fuel as nat),
    decreases fuel, 0int,
{
    let f = fuel - 1;
    match (&a.kind, &b.kind) {
        (TypeKind::Union(x1, y1), TypeKind::Union(x2, y2)) => {
            let kx = type_eq(x1, x2) || type_eq(x1, y2);
            let ky = type_eq(y1, x2) || type_eq(y1, y2);
            if kx && ky {
                copy_type(a)
            } else if kx {
                copy_type(x1)
            } else if ky {
                copy_type(y1)
            } else {
                mk(TypeKind::Bottom)
            }
        },
        (TypeKind::Union(x, y), _) => {
            let mx = meet_in(x, b, f);
            let my = meet_in(y, b, f);
            join_in(&mx, &my, f)
        },
        (_, TypeKind::Union(x, y)) => {
            let mx = meet_in(a, x, f);
            let my = meet_in(a, y, f);
            join_in(&mx, &my, f)
        },
        (TypeKind::Intersection(x, y), _) => {
            let mx = meet_in(x, b, f);
            let my = meet_in(y, b, f);
            meet_in(&mx, &my, f)
        },
        (_, TypeKind::Intersection(x, y)) => {
            let mx = meet_in(a, x, f);
            let my = meet_in(a, y, f);
            meet_in(&mx, &my, f)
        },
        (TypeKind::Difference(x, y), _) => mk(
            TypeKind::Difference(Box::new(meet_in(x, b, f)), Box::new(copy_type(y))),
        ),
        (_, TypeKind::Difference(x, y)) => mk(
            TypeKind::Difference(Box::new(meet_in(a, x, f)), Box::new(copy_type(y))),
        ),
        (TypeKind::Dynamic, t) | (t, TypeKind::Dynamic) => mk(copy_kind(t)),
        (
            TypeKind::RecursiveVar { bound: Some(x), .. },
            TypeKind::RecursiveVar { bound: Some(y), .. },
        ) => meet_in(x, y, f),
        (TypeKind::RecursiveVar { bound: Some(x), .. }, o)
        | (o, TypeKind::RecursiveVar { bound: Some(x), .. }) => meet_in(x, &mk(copy_kind(o)), f),
        (TypeKind::RecursiveVar { bound: None, .. }, _) | (_, TypeKind::RecursiveVar { bound: None, .. }) => mk(TypeKind::Bottom),
        (TypeKind::Speculative { assumed: x, .. }, TypeKind::Speculative { assumed: y, .. }) => {
            let g = SpeculativeGuard::Trivial;
            proof {
                assert(guard_view(g) == GuardV::Trivial);
            }
            mk(
                TypeKind::Speculative {
                    assumed: Box::new(meet_in(x, y, f)),
                    actual: Box::new(join_in(a, b, f)),
                    guard: g,
                },
            )
        },
        (TypeKind::Speculative { assumed, .. }, _) => meet_in(assumed, b, f),
        (_, TypeKind::Speculative { assumed, .. }) => meet_in(a, assumed, f),
        _ => {
            if contains_in(a, b, f) {
                copy_type(b)
            } else if contains_in(b, a, f) {
                copy_type(a)
            } else {
                mk(TypeKind::Bottom)
            }
        },
    }
}

/// Whether the first type includes every value of the second, with a
/// recursion depth bound.
pub fn contains_in(a: &IRType, b: &IRType, fuel: u64) -> (r: bool)
    ensures
        r == spec_contains(a@, b@, fuel as nat),
    decreases fuel, 1int,
{
    if fuel == 0 {
        return false;
    }
    if type_eq(a, b) {
        return true;
    }
    let f = fuel - 1;
    match (&a.kind, &b.kind) {
        (TypeKind::Any, _) => true,
        (_, TypeKind::Bottom) => true,
        (TypeKind::List, TypeKind::Nil) | (TypeKind::List, TypeKind::Cons) => true,
        (TypeKind::SmallInt, TypeKind::NonNegInt) => true,
        (TypeKind::Int64, TypeKind::SmallInt) | (TypeKind::Int64, TypeKind::NonNegInt) => true,
        (TypeKind::SmallInt, TypeKind::Constant(ConstantValue::Int(_))) => true,
        (TypeKind::NonNegInt, TypeKind::Constant(ConstantValue::Int(i))) => *i >= 0,
        (TypeKind::Int64, TypeKind::Constant(ConstantValue::Int(_))) => true,
        (TypeKind::Atom, TypeKind::Constant(ConstantValue::Atom(_))) => true,
        (TypeKind::Boolean, TypeKind::Constant(ConstantValue::True)) => true,
        (TypeKind::Boolean, TypeKind::Constant(ConstantValue::False)) => true,
        (TypeKind::Nil, TypeKind::Constant(ConstantValue::Nil)) => true,
        (TypeKind::List, TypeKind::Constant(ConstantValue::Nil)) => true,
        (TypeKind::Float, TypeKind::Constant(ConstantValue::Float(_))) => true,
        (TypeKind::Tuple { arity }, TypeKind::StableTuple { element_types: et, .. }) => {
            proof {
                lemma_tys_view(et@);
            }
            et.len() as u32 == *arity
        },
        (TypeKind::StableTuple { element_types: et, .. }, TypeKind::Tuple { arity }) => {
            proof {
                lemma_tys_view(et@);
            }
            et.len() as u32 == *arity
        },
        (
            TypeKind::StableTuple { element_types: ea, .. },
            TypeKind::StableTuple { element_types: eb, .. },
        ) => {
            proof {
                lemma_tys_view(ea@);
                lemma_tys_view(eb@);
            }
            ea.len() == eb.len() && contains_all(ea, eb, fuel)
        },
        (TypeKind::Tuple { arity: x }, TypeKind::Tuple { arity: y }) => *x == *y,
        (TypeKind::Fun { arity: x }, TypeKind::Fun { arity: y }) => *x == *y,
        (
            TypeKind::Message { payload: p1, priority: r1 },
            TypeKind::Message { payload: p2, priority: r2 },
        ) => contains_in(p1, p2, f) && r1.rank() <= r2.rank(),
        (
            TypeKind::Actor { accepts: a1, lifecycle: l1 },
            TypeKind::Actor { accepts: a2, lifecycle: l2 },
        ) => *l1 == *l2 && accepts_cover(a1, a2),
        (TypeKind::Tensor { dtype: d1, shape: s1 }, TypeKind::Tensor { dtype: d2, shape: s2 }) => {
            *d1 == *d2 && s1.len() == s2.len() && shape_contains(s1, s2)
        },
        (
            TypeKind::Capability { resource: r1, owned: o1, shareable: s1 },
            TypeKind::Capability { resource: r2, owned: o2, shareable: s2 },
        ) => *r1 == *r2 && (!*o2 || *o1) && (!*s2 || *s1),
        (
            TypeKind::MapShape { keys: k1, values: v1 },
            TypeKind::MapShape { keys: k2, values: v2 },
        ) => {
            proof {
                lemma_tys_view(v1@);
                lemma_tys_view(v2@);
            }
            keys_eq(k1, k2) && v1.len() == v2.len() && contains_all(v1, v2, fuel)
        },
        (TypeKind::AnyMap, TypeKind::MapShape { .. }) => true,
        (_, TypeKind::Union(x, y)) => contains_in(a, x, f) && contains_in(a, y, f),
        (TypeKind::Union(x, y), _) => contains_in(x, b, f) || contains_in(y, b, f),
        (TypeKind::Intersection(x, y), _) => contains_in(x, b, f) && contains_in(y, b, f),
        (TypeKind::Difference(x, y), _) => {
            if contains_in(x, b, f) {
                let m = meet_in(b, y, f);
                matches!(m.kind, TypeKind::Bottom)
            } else {
                false
            }
        },
        (TypeKind::Dynamic, _) => true,
        (TypeKind::RecursiveVar { bound: Some(x), .. }, _) => contains_in(x, b, f),
        (TypeKind::RecursiveVar { bound: None, .. }, _) => false,
        (TypeKind::Speculative { assumed, .. }, _) => contains_in(assumed, b, f),
        (_, TypeKind::Intersection(x, y)) => contains_in(a, x, f) || contains_in(a, y, f),
        _ => false,
    }
}

/// Whether every message of `a2` is among those of `a1`.
fn accepts_cover(a1: &Vec<IRType>, a2: &Vec<IRType>) -> (r: bool)
    ensures
        r == accepts_cover_spec(tys_view(a1@), tys_view(a2@)),
{
    proof {
        lemma_tys_view(a2@);
    }
    let mut i: usize = 0;
    while i < a2.len()
        invariant
            i <= a2.len(),
            tys_view(a2@).len() == a2.len(),
            forall|j: int| 0 <= j < a2.len() ==> #[trigger] tys_view(a2@)[j] == a2@[j]@,
            forall|j: int| 0 <= j < i ==> tys_view(a1@).contains(#[trigger] tys_view(a2@)[j]),
        decreases a2.len() - i,
    {
        if !types_contain(a1, &a2[i]) {
            proof {
                assert(!tys_view(a1@).contains(tys_view(a2@)[i as int]));
            }
            return false;
        }
        i = i + 1;
    }
    true
}


// ── The public type API ────────────────────────────────────────────────────

/// The depth to which the lattice operations follow their recursion.  It is
/// the largest `u64`, so no real computation reaches it.
pub const LATTICE_DEPTH: u64 = 0xFFFF_FFFF_FFFF_FFFF;

/// The join of two models at the lattice depth.
pub open spec fn join_spec(a: KindV, b: KindV) -> KindV {
    spec_join(a, b, LATTICE_DEPTH as nat)
}

/// The meet of two models at the lattice depth.
pub open spec fn meet_spec(a: KindV, b: KindV) -> KindV {
    spec_meet(a, b, LATTICE_DEPTH as nat)
}

/// Inclusion of two models at the lattice depth.
pub open spec fn contains_spec(a: KindV, b: KindV) -> bool {
    spec_contains(a, b, LATTICE_DEPTH as nat)
}

/// Whether a model is a shape-specialized map.
pub open spec fn is_map_shape_kind(k: KindV) -> bool {
    k is MapShape
}

/// Compiler-proven immutability of a model.
pub open spec fn spec_is_immutable(k: KindV) -> bool
    decreases k,
{
    match k {
        KindV::StableTuple { immutable, .. } => immutable,
        KindV::Nil | KindV::Atom | KindV::Boolean | KindV::SmallInt | KindV::NonNegInt
        | KindV::Int64 | KindV::Float => true,
        KindV::Tuple { .. } | KindV::Cons | KindV::List => false,
        KindV::Constant(_) => true,
        KindV::RecursiveVar { bound, .. } => match bound {
            Some(b) => spec_is_immutable(*b),
            None => false,
        },
        KindV::Speculative { assumed, .. } => spec_is_immutable(*assumed),
        KindV::Dynamic => false,
        _ => false,
    }
}

/// Whether a model is a union, an intersection or a difference.
pub open spec fn is_compound_kind(k: KindV) -> bool {
    k is Union || k is Intersection || k is Difference
}

/// The leaves of the union tree of a model, left to right.
pub open spec fn union_alternatives(k: KindV) -> Seq<KindV>
    decreases k,
{
    match k {
        KindV::Union(a, b) => union_alternatives(*a) + union_alternatives(*b),
        _ => seq![k],
    }
}

/// The leaves of the intersection tree of a model, left to right.
pub open spec fn intersection_conjuncts(k: KindV) -> Seq<KindV>
    decreases k,
{
    match k {
        KindV::Intersection(a, b) => intersection_conjuncts(*a) + intersection_conjuncts(*b),
        _ => seq![k],
    }
}

/// The complement of `b` in `a` where it is a type of its own: a list
/// without the empty list is a cons cell and the other way round, a boolean
/// without one truth value is the other.
pub open spec fn complement_spec(a: KindV, b: KindV) -> Option<KindV> {
    match (a, b) {
        (KindV::List, KindV::Nil) => Some(KindV::Cons),
        (KindV::List, KindV::Cons) => Some(KindV::Nil),
        (KindV::Boolean, KindV::Constant(ConstantValue::True)) => Some(
            KindV::Constant(ConstantValue::False),
        ),
        (KindV::Boolean, KindV::Constant(ConstantValue::False)) => Some(
            KindV::Constant(ConstantValue::True),
        ),
        _ => None,
    }
}

/// The difference of two models: the bottom type when nothing is left
/// (the second includes the first), the complement where it is a type of
/// its own, the first one when the second takes nothing out of it, and
/// otherwise a difference type when the first includes the second.
pub open spec fn subtract_spec(a: KindV, b: KindV) -> KindV {
    if b is Any {
        KindV::Bottom
    } else if b is Bottom || a is Bottom {
        a
    } else if a == b {
        KindV::Bottom
    } else if contains_spec(b, a) {
        KindV::Bottom
    } else if complement_spec(a, b) is Some {
        complement_spec(a, b)->0
    } else if contains_spec(a, b) {
        KindV::Difference(Box::new(a), Box::new(b))
    } else {
        a
    }
}

/// The join of a non-empty sequence of models, from the left.
pub open spec fn join_all(s: Seq<KindV>) -> KindV
    decreases s.len(),
{
    if s.len() <= 1 {
        s[0]
    } else {
        join_spec(join_all(s.drop_last()), s.last())
    }
}

/// What remains of `t` after subtracting the patterns of `s` in order,
/// stopping once nothing is left.
pub open spec fn uncovered_spec(t: KindV, s: Seq<KindV>) -> KindV
    decreases s.len(),
{
    if s.len() == 0 {
        t
    } else {
        let rest = uncovered_spec(t, s.drop_last());
        if rest is Bottom {
            rest
        } else {
            subtract_spec(rest, s.last())
        }
    }
}

/// The runtime cost of a guard, in abstract units.
pub open spec fn guard_cost(g: GuardV) -> int {
    match g {
        GuardV::Trivial => 0,
        GuardV::IsImmediate(_) => 1,
        GuardV::IsConstant(_) => 1,
        GuardV::IsComposite(_) => 2,
        GuardV::StableTupleShape { element_types } => 2 + element_types.len() as int,
        GuardV::MapShapeKeys { keys } => 2 + keys.len() as int,
        GuardV::IsInUnion { alternatives } => alternatives.len() as int,
        GuardV::TensorSpec { shape, .. } => 3 + known_dims(shape) as int,
    }
}

/// The number of statically known dimensions of a tensor shape.
pub open spec fn known_dims(s: Seq<Option<u64>>) -> nat
    decreases s.len(),
{
    if s.len() == 0 {
        0
    } else {
        known_dims(s.drop_last()) + if s.last() is Some { 1nat } else { 0nat }
    }
}

impl SpeculativeGuard {
    /// Whether this guard is trivially satisfied (no runtime check needed).
    pub fn is_trivial(&self) -> (r: bool)
        ensures
            r == (guard_view(*self) is Trivial),
    {
        matches!(self, SpeculativeGuard::Trivial)
    }

    /// The cost of this guard at runtime, in abstract units.
    pub fn cost(&self) -> (r: u32)
        requires
            guard_cost(guard_view(*self)) <= u32::MAX,
        ensures
            r == guard_cost(guard_view(*self)),
    {
        match self {
            SpeculativeGuard::Trivial => 0,
            SpeculativeGuard::IsImmediate(_) => 1,
            SpeculativeGuard::IsConstant(_) => 1,
            SpeculativeGuard::IsComposite(_) => 2,
            SpeculativeGuard::StableTupleShape { element_types } => {
                proof {
                    lemma_tys_view(element_types@);
                }
                2 + element_types.len() as u32
            },
            SpeculativeGuard::MapShapeKeys { keys } => 2 + keys.len() as u32,
            SpeculativeGuard::IsInUnion { alternatives } => {
                proof {
                    lemma_tys_view(alternatives@);
                }
                alternatives.len() as u32
            },
            SpeculativeGuard::TensorSpec { shape, .. } => 3 + count_known(shape),
        }
    }
}

/// The number of statically known dimensions of a tensor shape.
fn count_known(shape: &Vec<Option<u64>>) -> (r: u32)
    requires
        3 + known_dims(shape@) <= u32::MAX,
    ensures
        r == known_dims(shape@),
{
    let mut n: u32 = 0;
    let mut i: usize = 0;
    while i < shape.len()
        invariant
            i <= shape.len(),
            3 + known_dims(shape@) <= u32::MAX,
            n == known_dims(shape@.take(i as int)),
        decreases shape.len() - i,
    {
        proof {
            assert(shape@.take(i + 1).drop_last() =~= shape@.take(i as int));
            lemma_known_dims_prefix(shape@, i + 1);
        }
        if shape[i].is_some() {
            n = n + 1;
        }
        i = i + 1;
    }
    assert(shape@.take(shape.len() as int) =~= shape@);
    n
}

proof fn lemma_known_dims_prefix(s: Seq<Option<u64>>, k: int)
    requires
        0 <= k <= s.len(),
    ensures
        known_dims(s.take(k)) <= known_dims(s),
    decreases s.len() - k,
{
    if k < s.len() {
        lemma_known_dims_prefix(s, k + 1);
        assert(s.take(k + 1).drop_last() =~= s.take(k));
    } else {
        assert(s.take(k) =~= s);
    }
}

impl IRType {
    /// Create a new IRType with the given kind.
    pub fn new(kind: TypeKind) -> (r: Self)
        ensures
            r.kind == kind,
            r@ == kind_view(kind),
    {
        IRType { kind }
    }

    /// The least upper bound (join) of two types: the widening used at
    /// control-flow merge points.
    pub fn join(&self, other: &Self) -> (r: Self)
        ensures
            r@ == join_spec(self@, other@),
    {
        join_in(self, other, LATTICE_DEPTH)
    }

    /// The greatest lower bound (meet) of two types: the narrowing used in
    /// pattern matching and branching.
    pub fn meet(&self, other: &Self) -> (r: Self)
        ensures
            r@ == meet_spec(self@, other@),
    {
        meet_in(self, other, LATTICE_DEPTH)
    }

    /// Whether `self` is a supertype of (or equal to) `other`.
    pub fn contains(&self, other: &Self) -> (r: bool)
        ensures
            r == contains_spec(self@, other@),
    {
        contains_in(self, other, LATTICE_DEPTH)
    }

    /// Whether this type includes the given constant value.
    pub fn contains_constant(&self, c: &ConstantValue) -> (r: bool)
        ensures
            r == spec_contains_constant(self@, *c),
    {
        contains_constant_kind(&self.kind, c)
    }

    pub fn is_definitely_small_int(&self) -> (r: bool)
        ensures
            r == (self@ is SmallInt || self@ is NonNegInt),
    {
        matches!(self.kind, TypeKind::SmallInt | TypeKind::NonNegInt)
    }

    pub fn is_definitely_atom(&self) -> (r: bool)
        ensures
            r == (self@ is Atom || self@ is Boolean || (self@ matches KindV::Constant(c) && c is Atom)),
    {
        matches!(self.kind, TypeKind::Atom | TypeKind::Boolean | TypeKind::Constant(ConstantValue::Atom(_)))
    }

    pub fn is_definitely_tuple(&self) -> (r: bool)
        ensures
            r == (self@ is Tuple || self@ is StableTuple),
    {
        matches!(self.kind, TypeKind::Tuple { .. } | TypeKind::StableTuple { .. })
    }

    pub fn is_definitely_list(&self) -> (r: bool)
        ensures
            r == (self@ is List || self@ is Cons || self@ is Nil),
    {
        matches!(self.kind, TypeKind::List | TypeKind::Cons | TypeKind::Nil)
    }

    pub fn is_definitely_map(&self) -> (r: bool)
        ensures
            r == (self@ is AnyMap || self@ is MapShape),
    {
        matches!(self.kind, TypeKind::AnyMap | TypeKind::MapShape { .. })
    }

    /// Whether this type is a shape-specialized map.
    pub fn is_map_shape(&self) -> (r: bool)
        ensures
            r == is_map_shape_kind(self@),
    {
        matches!(self.kind, TypeKind::MapShape { .. })
    }

    /// The keys and value types of this type if it is a map shape.
    pub fn map_shape(&self) -> (r: Option<(&[u32], &[IRType])>)
        ensures
            r is Some <==> self@ is MapShape,
            r matches Some((k, v)) ==> self@ == (KindV::MapShape { keys: k@, values: tys_view(v@) }),
    {
        match &self.kind {
            TypeKind::MapShape { keys, values } => Some((keys.as_slice(), values.as_slice())),
            _ => None,
        }
    }

    pub fn is_definitely_float(&self) -> (r: bool)
        ensures
            r == (self@ is Float),
    {
        matches!(self.kind, TypeKind::Float)
    }

    pub fn is_definitely_fun(&self) -> (r: bool)
        ensures
            r == (self@ is Fun),
    {
        matches!(self.kind, TypeKind::Fun { .. })
    }

    pub fn is_definitely_pid(&self) -> (r: bool)
        ensures
            r == (self@ is Pid),
    {
        matches!(self.kind, TypeKind::Pid)
    }

    /// Whether this type is immutable (compiler-proven).
    pub fn is_immutable(&self) -> (r: bool)
        ensures
            r == spec_is_immutable(self@),
        decreases self,
    {
        match &self.kind {
            TypeKind::StableTuple { immutable, .. } => *immutable,
            TypeKind::Nil | TypeKind::Atom | TypeKind::Boolean | TypeKind::SmallInt
            | TypeKind::NonNegInt | TypeKind::Int64 | TypeKind::Float => true,
            TypeKind::Tuple { .. } | TypeKind::Cons | TypeKind::List => false,
            TypeKind::Constant(_) => true,
            TypeKind::RecursiveVar { bound, .. } => match bound {
                Some(b) => b.is_immutable(),
                None => false,
            },
            TypeKind::Speculative { assumed, .. } => assumed.is_immutable(),
            TypeKind::Dynamic => false,
            _ => false,
        }
    }

    /// Whether this type represents a message pattern.
    pub fn is_message(&self) -> (r: bool)
        ensures
            r == (self@ is Message),
    {
        matches!(self.kind, TypeKind::Message { .. })
    }

    /// Whether this type represents an actor reference.
    pub fn is_actor(&self) -> (r: bool)
        ensures
            r == (self@ is Actor),
    {
        matches!(self.kind, TypeKind::Actor { .. })
    }

    /// Whether this type represents a tensor.
    pub fn is_tensor(&self) -> (r: bool)
        ensures
            r == (self@ is Tensor),
    {
        matches!(self.kind, TypeKind::Tensor { .. })
    }

    /// Whether this type represents a capability.
    pub fn is_capability(&self) -> (r: bool)
        ensures
            r == (self@ is Capability),
    {
        matches!(self.kind, TypeKind::Capability { .. })
    }

    /// The message priority if this is a message type.
    pub fn message_priority(&self) -> (r: Option<MessagePriority>)
        ensures
            r == (match self@ {
                KindV::Message { priority, .. } => Some(priority),
                _ => None,
            }),
    {
        match &self.kind {
            TypeKind::Message { priority, .. } => Some(*priority),
            _ => None,
        }
    }

    /// The tensor shape if this is a tensor type.
    pub fn tensor_shape(&self) -> (r: Option<&[Option<u64>]>)
        ensures
            r is Some <==> self@ is Tensor,
            r matches Some(s) ==> self@->Tensor_shape == s@,
    {
        match &self.kind {
            TypeKind::Tensor { shape, .. } => Some(shape.as_slice()),
            _ => None,
        }
    }

    /// The native resource kind if this is a capability type.
    pub fn capability_resource(&self) -> (r: Option<NativeResourceKind>)
        ensures
            r == (match self@ {
                KindV::Capability { resource, .. } => Some(resource),
                _ => None,
            }),
    {
        match &self.kind {
            TypeKind::Capability { resource, .. } => Some(*resource),
            _ => None,
        }
    }

    /// The element types if this is a stable tuple.
    pub fn stable_tuple_elements(&self) -> (r: Option<&[IRType]>)
        ensures
            r is Some <==> self@ is StableTuple,
            r matches Some(s) ==> self@->StableTuple_element_types == tys_view(s@),
    {
        match &self.kind {
            TypeKind::StableTuple { element_types, .. } => Some(element_types.as_slice()),
            _ => None,
        }
    }

    /// Whether a set of pattern types is exhaustive for this scrutinee type:
    /// the join of the patterns includes it.  With no patterns, only the
    /// bottom type is covered.
    pub fn is_exhaustive(&self, patterns: &[IRType]) -> (r: bool)
        ensures
            patterns@.len() == 0 ==> r == (self@ is Bottom),
            patterns@.len() > 0 ==> r == contains_spec(join_all(tys_view(patterns@)), self@),
    {
        if patterns.len() == 0 {
            return matches!(self.kind, TypeKind::Bottom);
        }
        proof {
            lemma_tys_view(patterns@);
        }
        let mut acc = copy_type(&patterns[0]);
        let mut i: usize = 1;
        proof {
            assert(tys_view(patterns@).take(1) =~= seq![patterns@[0]@]);
        }
        while i < patterns.len()
            invariant
                1 <= i <= patterns@.len(),
                tys_view(patterns@).len() == patterns@.len(),
                forall|j: int| 0 <= j < patterns@.len() ==> #[trigger] tys_view(patterns@)[j] == patterns@[j]@,
                acc@ == join_all(tys_view(patterns@).take(i as int)),
            decreases patterns.len() - i,
        {
            proof {
                assert(tys_view(patterns@).take(i + 1).drop_last() =~= tys_view(patterns@).take(i as int));
            }
            acc = acc.join(&patterns[i]);
            i = i + 1;
        }
        proof {
            assert(tys_view(patterns@).take(patterns@.len() as int) =~= tys_view(patterns@));
        }
        acc.contains(self)
    }

    /// The part of this type that the patterns leave uncovered: each pattern
    /// is subtracted in turn, stopping at the bottom type.
    pub fn uncovered_by(&self, patterns: &[IRType]) -> (r: IRType)
        ensures
            r@ == uncovered_spec(self@, tys_view(patterns@)),
    {
        proof {
            lemma_tys_view(patterns@);
        }
        let mut rest = copy_type(self);
        let mut i: usize = 0;
        proof {
            assert(tys_view(patterns@).take(0) =~= Seq::<KindV>::empty());
        }
        while i < patterns.len() && !rest.is_empty()
            invariant
                i <= patterns@.len(),
                tys_view(patterns@).len() == patterns@.len(),
                forall|j: int| 0 <= j < patterns@.len() ==> #[trigger] tys_view(patterns@)[j] == patterns@[j]@,
                rest@ == uncovered_spec(self@, tys_view(patterns@).take(i as int)),
            decreases patterns.len() - i,
        {
            proof {
                assert(tys_view(patterns@).take(i + 1).drop_last() =~= tys_view(patterns@).take(i as int));
            }
            rest = rest.subtract(&patterns[i]);
            i = i + 1;
        }
        proof {
            lemma_uncovered_bottom_or_done(self@, tys_view(patterns@), i as int);
        }
        rest
    }

    /// The difference `self \\ other`, simplified: subtracting the top type,
    /// `self` or a type that includes `self` leaves nothing; a list without
    /// the empty list is a cons cell (and the other way round), a boolean
    /// without one truth value is the other; subtracting the bottom type or
    /// a type that is not included leaves `self`.
    pub fn subtract(&self, other: &IRType) -> (r: IRType)
        ensures
            r@ == subtract_spec(self@, other@),
    {
        if matches!(other.kind, TypeKind::Any) {
            return mk(TypeKind::Bottom);
        }
        if matches!(other.kind, TypeKind::Bottom) || matches!(self.kind, TypeKind::Bottom) {
            return copy_type(self);
        }
        if type_eq(self, other) {
            return mk(TypeKind::Bottom);
        }
        if other.contains(self) {
            return mk(TypeKind::Bottom);
        }
        match (&self.kind, &other.kind) {
            (TypeKind::List, TypeKind::Nil) => return mk(TypeKind::Cons),
            (TypeKind::List, TypeKind::Cons) => return mk(TypeKind::Nil),
            (TypeKind::Boolean, TypeKind::Constant(ConstantValue::True)) => {
                return mk(TypeKind::Constant(ConstantValue::False));
            },
            (TypeKind::Boolean, TypeKind::Constant(ConstantValue::False)) => {
                return mk(TypeKind::Constant(ConstantValue::True));
            },
            _ => {},
        }
        if self.contains(other) {
            mk(TypeKind::Difference(Box::new(copy_type(self)), Box::new(copy_type(other))))
        } else {
            copy_type(self)
        }
    }

    /// Whether this type is a union.
    pub fn is_union(&self) -> (r: bool)
        ensures
            r == (self@ is Union),
    {
        matches!(self.kind, TypeKind::Union(..))
    }

    /// Whether this type is an intersection.
    pub fn is_intersection(&self) -> (r: bool)
        ensures
            r == (self@ is Intersection),
    {
        matches!(self.kind, TypeKind::Intersection(..))
    }

    /// Whether this type is a difference type.
    pub fn is_difference(&self) -> (r: bool)
        ensures
            r == (self@ is Difference),
    {
        matches!(self.kind, TypeKind::Difference(..))
    }

    /// Whether this type is a union, an intersection or a difference.
    pub fn is_compound(&self) -> (r: bool)
        ensures
            r == is_compound_kind(self@),
    {
        self.is_union() || self.is_intersection() || self.is_difference()
    }

    /// Whether this type is not compound.
    pub fn is_simple(&self) -> (r: bool)
        ensures
            r == !is_compound_kind(self@),
    {
        !self.is_compound()
    }

    /// Whether this type is a single concrete value.
    pub fn is_singleton(&self) -> (r: bool)
        ensures
            r == (self@ is Constant),
    {
        match &self.kind {
            TypeKind::Constant(_) => true,
            TypeKind::Boolean => false,
            _ => false,
        }
    }

    /// Whether this type is the bottom type (no possible values).
    pub fn is_empty(&self) -> (r: bool)
        ensures
            r == (self@ is Bottom),
    {
        matches!(self.kind, TypeKind::Bottom)
    }

    /// Whether this type is the top type.
    pub fn is_any(&self) -> (r: bool)
        ensures
            r == (self@ is Any),
    {
        matches!(self.kind, TypeKind::Any)
    }

    /// The number of leaves of the union tree of this type.
    pub fn union_arity(&self) -> (r: usize)
        requires
            union_alternatives(self@).len() <= usize::MAX,
        ensures
            r == union_alternatives(self@).len(),
        decreases self,
    {
        match &self.kind {
            TypeKind::Union(a, b) => {
                proof {
                    lemma_alternatives_nonempty(a@);
                    lemma_alternatives_nonempty(b@);
                }
                a.union_arity() + b.union_arity()
            },
            _ => 1,
        }
    }

    /// The number of leaves of the intersection tree of this type.
    pub fn intersection_arity(&self) -> (r: usize)
        requires
            intersection_conjuncts(self@).len() <= usize::MAX,
        ensures
            r == intersection_conjuncts(self@).len(),
        decreases self,
    {
        match &self.kind {
            TypeKind::Intersection(a, b) => {
                proof {
                    lemma_conjuncts_nonempty(a@);
                    lemma_conjuncts_nonempty(b@);
                }
                a.intersection_arity() + b.intersection_arity()
            },
            _ => 1,
        }
    }
}

proof fn lemma_alternatives_nonempty(k: KindV)
    ensures
        union_alternatives(k).len() >= 1,
    decreases k,
{
    if let KindV::Union(a, b) = k {
        lemma_alternatives_nonempty(*a);
        lemma_alternatives_nonempty(*b);
    }
}

proof fn lemma_conjuncts_nonempty(k: KindV)
    ensures
        intersection_conjuncts(k).len() >= 1,
    decreases k,
{
    if let KindV::Intersection(a, b) = k {
        lemma_conjuncts_nonempty(*a);
        lemma_conjuncts_nonempty(*b);
    }
}

/// Once nothing is left, later patterns change nothing.
proof fn lemma_uncovered_bottom_or_done(t: KindV, s: Seq<KindV>, k: int)
    requires
        0 <= k <= s.len(),
        k < s.len() ==> uncovered_spec(t, s.take(k)) is Bottom,
    ensures
        uncovered_spec(t, s) == uncovered_spec(t, s.take(k)),
{
    if k == s.len() {
        assert(s.take(k) =~= s);
    } else {
        lemma_uncovered_bottom(t, s, k);
    }
}

proof fn lemma_uncovered_bottom(t: KindV, s: Seq<KindV>, k: int)
    requires
        0 <= k <= s.len(),
        uncovered_spec(t, s.take(k)) is Bottom,
    ensures
        uncovered_spec(t, s) == uncovered_spec(t, s.take(k)),
    decreases s.len() - k,
{
    if k == s.len() {
        assert(s.take(k) =~= s);
    } else {
        assert(s.take(k + 1).drop_last() =~= s.take(k));
        lemma_uncovered_bottom(t, s, k + 1);
    }
}

// ── Laws of the lattice ───────────────────────────────────────────────────

/// Joining or meeting a type with itself gives it back, and every type
/// includes itself.
pub proof fn law_lattice_idempotent(a: KindV)
    ensures
        join_spec(a, a) == a,
        meet_spec(a, a) == a,
        contains_spec(a, a),
{
}

/// The top and bottom types are the extremes of the lattice: joining with
/// the bottom type or meeting with the top type changes nothing, joining
/// with the top type gives the top type, meeting with the bottom type
/// gives the bottom type, the top type includes every type and every type
/// includes the bottom type.
pub proof fn law_lattice_extremes(a: KindV)
    ensures
        join_spec(a, KindV::Bottom) == a,
        join_spec(KindV::Bottom, a) == a,
        join_spec(a, KindV::Any) == KindV::Any,
        join_spec(KindV::Any, a) == KindV::Any,
        meet_spec(a, KindV::Any) == a,
        meet_spec(KindV::Any, a) == a,
        meet_spec(a, KindV::Bottom) == KindV::Bottom,
        meet_spec(KindV::Bottom, a) == KindV::Bottom,
        contains_spec(KindV::Any, a),
        contains_spec(a, KindV::Bottom),
{
}

/// Subtracting a type from itself, or the top type from any type, leaves
/// nothing; subtracting the bottom type, or a type the first does not
/// include, leaves the first type unchanged; nothing is left of the bottom
/// type.
pub proof fn law_subtract_extremes(a: KindV, b: KindV)
    ensures
        subtract_spec(a, a) == KindV::Bottom,
        subtract_spec(a, KindV::Any) == KindV::Bottom,
        subtract_spec(a, KindV::Bottom) == a,
        subtract_spec(KindV::Bottom, b) == KindV::Bottom,
        !(b is Any) && !contains_spec(a, b) && !contains_spec(b, a) ==> subtract_spec(a, b) == a,
{
    law_lattice_idempotent(a);
    let d = LATTICE_DEPTH as nat;
    match (a, b) {
        (KindV::List, KindV::Nil) => assert(spec_contains(a, b, d)),
        (KindV::List, KindV::Cons) => assert(spec_contains(a, b, d)),
        (KindV::Boolean, KindV::Constant(ConstantValue::True)) => assert(spec_contains(a, b, d)),
        (KindV::Boolean, KindV::Constant(ConstantValue::False)) => assert(spec_contains(a, b, d)),
        _ => {},
    }
}

/// With no pattern nothing of the scrutinee is covered; a scrutinee that
/// a pattern covers exactly leaves nothing.
pub proof fn law_uncovered_extremes(t: KindV)
    ensures
        uncovered_spec(t, Seq::empty()) == t,
        uncovered_spec(t, seq![t]) == KindV::Bottom,
        uncovered_spec(t, seq![KindV::Any]) == KindV::Bottom,
{
    assert(seq![t].drop_last() =~= Seq::<KindV>::empty());
    assert(seq![KindV::Any].drop_last() =~= Seq::<KindV>::empty());
    law_subtract_extremes(t, t);
}

/// Whether a type holds no other type inside it: neither a compound
/// (union, intersection, difference), nor a container of types (stable
/// tuple, message, actor, map shape), nor a recursive or speculative one.
pub open spec fn flat_kind(k: KindV) -> bool {
    !(k is StableTuple || k is Message || k is Actor || k is Union || k is Intersection || k is Difference
        || k is MapShape || k is RecursiveVar || k is Speculative)
}

/// The join of two flat types includes both of them.
pub proof fn law_join_upper_bound(a: KindV, b: KindV)
    requires
        flat_kind(a),
        flat_kind(b),
    ensures
        contains_spec(join_spec(a, b), a),
        contains_spec(join_spec(a, b), b),
{
    law_lattice_idempotent(a);
    law_lattice_idempotent(b);
    law_lattice_extremes(a);
    law_lattice_extremes(b);
    let j = join_spec(a, b);
    law_lattice_idempotent(j);
    lemma_flat_join_cases(a, b);
}

#[verifier::spinoff_prover]
#[verifier::rlimit(100)]
proof fn lemma_flat_join_cases(a: KindV, b: KindV)
    requires
        flat_kind(a),
        flat_kind(b),
    ensures
        contains_spec(join_spec(a, b), a),
        contains_spec(join_spec(a, b), b),
{
    reveal_with_fuel(spec_join, 2);
    let d = LATTICE_DEPTH as nat;
    let j = spec_join(a, b, d);
    if a == b || a is Bottom || b is Bottom || a is Any || b is Any {
        law_lattice_idempotent(a);
        law_lattice_idempotent(b);
        law_lattice_extremes(a);
        law_lattice_extremes(b);
    } else {
        match (a, b) {
            (KindV::Tensor { dtype: d1, shape: s1 }, KindV::Tensor { dtype: d2, shape: s2 }) => {
                if d1 == d2 && s1.len() == s2.len() {
                    let sj = shape_join_spec(s1, s2);
                    assert(shape_contains_spec(sj, s1));
                    assert(shape_contains_spec(sj, s2));
                }
            },
            _ => {},
        }
    }
}

/// The meet of two flat types is included in both of them.
#[verifier::spinoff_prover]
#[verifier::rlimit(100)]
pub proof fn law_meet_lower_bound(a: KindV, b: KindV)
    requires
        flat_kind(a),
        flat_kind(b),
    ensures
        contains_spec(a, meet_spec(a, b)),
        contains_spec(b, meet_spec(a, b)),
{
    reveal_with_fuel(spec_meet, 2);
    reveal_with_fuel(spec_meet_rest, 2);
    let d = LATTICE_DEPTH as nat;
    let f = (d - 1) as nat;
    let m = spec_meet(a, b, d);
    if !(a == b || a is Bottom || b is Bottom || a is Any || b is Any) {
        assert(spec_contains(a, b, f) == spec_contains(a, b, d));
        assert(spec_contains(b, a, f) == spec_contains(b, a, d));
    }
    if a == b || a is Bottom || b is Bottom || a is Any || b is Any {
        law_lattice_idempotent(a);
        law_lattice_idempotent(b);
        law_lattice_extremes(a);
        law_lattice_extremes(b);
    } else {
        match (a, b) {
            (KindV::Tensor { dtype: d1, shape: s1 }, KindV::Tensor { dtype: d2, shape: s2 }) => {
                if d1 == d2 && s1.len() == s2.len() && shapes_agree(s1, s2) {
                    let sm = shape_meet_spec(s1, s2);
                    assert(shape_contains_spec(s1, sm)) by {
                        assert forall|i: int| 0 <= i < s1.len() implies #[trigger] dim_contains(s1[i], sm[i]) by {
                            assert(dims_agree(s1[i], s2[i]));
                        }
                    }
                    assert(shape_contains_spec(s2, sm)) by {
                        assert forall|i: int| 0 <= i < s2.len() implies #[trigger] dim_contains(s2[i], sm[i]) by {
                            assert(dims_agree(s1[i], s2[i]));
                        }
                    }
                }
            },
            _ => {},
        }
    }
}

/// For flat types, a type that the other includes is its own meet with it.
#[verifier::spinoff_prover]
#[verifier::rlimit(100)]
proof fn lemma_meet_of_included(a: KindV, b: KindV)
    requires
        flat_kind(a),
        flat_kind(b),
        contains_spec(b, a),
    ensures
        contains_spec(meet_spec(a, b), a),
        contains_spec(meet_spec(b, a), a),
{
    reveal_with_fuel(spec_meet, 2);
    reveal_with_fuel(spec_meet_rest, 2);
    let d = LATTICE_DEPTH as nat;
    let f = (d - 1) as nat;
    law_lattice_idempotent(a);
    law_lattice_idempotent(b);
    law_lattice_extremes(a);
    if !(a == b || a is Bottom || b is Bottom || a is Any || b is Any) {
        assert(spec_contains(a, b, f) == spec_contains(a, b, d));
        assert(spec_contains(b, a, f) == spec_contains(b, a, d));
        match (a, b) {
            (KindV::Tensor { dtype: d1, shape: s1 }, KindV::Tensor { dtype: d2, shape: s2 }) => {
                assert(shape_contains_spec(s2, s1));
                assert(shapes_agree(s1, s2)) by {
                    assert forall|i: int| 0 <= i < s1.len() implies #[trigger] dims_agree(s1[i], s2[i]) by {
                        assert(dim_contains(s2[i], s1[i]));
                    }
                }
                assert(shapes_agree(s2, s1)) by {
                    assert forall|i: int| 0 <= i < s2.len() implies #[trigger] dims_agree(s2[i], s1[i]) by {
                        assert(dim_contains(s2[i], s1[i]));
                    }
                }
                assert(shape_contains_spec(shape_meet_spec(s1, s2), s1)) by {
                    assert forall|i: int| 0 <= i < s1.len() implies #[trigger] dim_contains(shape_meet_spec(s1, s2)[i], s1[i]) by {
                        assert(dim_contains(s2[i], s1[i]));
                    }
                }
                assert(shape_contains_spec(shape_meet_spec(s2, s1), s1)) by {
                    assert forall|i: int| 0 <= i < s1.len() implies #[trigger] dim_contains(shape_meet_spec(s2, s1)[i], s1[i]) by {
                        assert(dim_contains(s2[i], s1[i]));
                    }
                }
            },
            _ => {},
        }
    }
}

/// Among flat types, the meet is the greatest lower bound: every flat
/// type included in both arguments is included in their meet.
#[verifier::spinoff_prover]
#[verifier::rlimit(100)]
pub proof fn law_meet_greatest(a: KindV, b: KindV, c: KindV)
    requires
        flat_kind(a),
        flat_kind(b),
        flat_kind(c),
        contains_spec(a, c),
        contains_spec(b, c),
    ensures
        contains_spec(meet_spec(a, b), c),
{
    law_lattice_extremes(meet_spec(a, b));
    law_lattice_idempotent(a);
    law_lattice_idempotent(b);
    if c is Bottom {
    } else if c == a {
        lemma_meet_of_included(a, b);
    } else if c == b {
        lemma_meet_of_included(b, a);
    } else {
        lemma_meet_greatest_strict(a, b, c);
    }
}

#[verifier::spinoff_prover]
#[verifier::rlimit(100)]
proof fn lemma_meet_greatest_strict(a: KindV, b: KindV, c: KindV)
    requires
        flat_kind(a),
        flat_kind(b),
        flat_kind(c),
        contains_spec(a, c),
        contains_spec(b, c),
        !(c is Bottom),
        c != a,
        c != b,
    ensures
        contains_spec(meet_spec(a, b), c),
{
    reveal_with_fuel(spec_meet, 2);
    reveal_with_fuel(spec_meet_rest, 2);
    let d = LATTICE_DEPTH as nat;
    let f = (d - 1) as nat;
    law_lattice_idempotent(a);
    law_lattice_idempotent(b);
    law_lattice_idempotent(c);
    law_lattice_extremes(a);
    law_lattice_extremes(b);
    law_lattice_extremes(c);
    if !(a == b || a is Bottom || b is Bottom || a is Any || b is Any) {
        assert(spec_contains(a, b, f) == spec_contains(a, b, d));
        assert(spec_contains(b, a, f) == spec_contains(b, a, d));
        match (a, b, c) {
            (
                KindV::Tensor { dtype: d1, shape: s1 },
                KindV::Tensor { dtype: d2, shape: s2 },
                KindV::Tensor { dtype: d3, shape: s3 },
            ) => {
                assert(shape_contains_spec(s1, s3));
                assert(shape_contains_spec(s2, s3));
                assert(shapes_agree(s1, s2)) by {
                    assert forall|i: int| 0 <= i < s1.len() implies #[trigger] dims_agree(s1[i], s2[i]) by {
                        assert(dim_contains(s1[i], s3[i]));
                        assert(dim_contains(s2[i], s3[i]));
                    }
                }
                let sm = shape_meet_spec(s1, s2);
                assert(shape_contains_spec(sm, s3)) by {
                    assert forall|i: int| 0 <= i < sm.len() implies #[trigger] dim_contains(sm[i], s3[i]) by {
                        assert(dim_contains(s1[i], s3[i]));
                        assert(dim_contains(s2[i], s3[i]));
                    }
                }
            },
            _ => {},
        }
    }
}

/// For flat types, a type that includes the other includes their join.
#[verifier::spinoff_prover]
#[verifier::rlimit(100)]
proof fn lemma_join_of_included(a: KindV, b: KindV)
    requires
        flat_kind(a),
        flat_kind(b),
        contains_spec(a, b),
    ensures
        contains_spec(a, join_spec(a, b)),
        contains_spec(a, join_spec(b, a)),
{
    reveal_with_fuel(spec_join, 2);
    let d = LATTICE_DEPTH as nat;
    law_lattice_idempotent(a);
    law_lattice_idempotent(b);
    law_lattice_extremes(a);
    law_lattice_extremes(b);
    if !(a == b || a is Bottom || b is Bottom || a is Any || b is Any) {
        match (a, b) {
            (KindV::Tensor { dtype: d1, shape: s1 }, KindV::Tensor { dtype: d2, shape: s2 }) => {
                assert(shape_contains_spec(s1, s2));
                assert(shape_contains_spec(s1, shape_join_spec(s1, s2))) by {
                    assert forall|i: int| 0 <= i < s1.len() implies #[trigger] dim_contains(s1[i], shape_join_spec(s1, s2)[i]) by {
                        assert(dim_contains(s1[i], s2[i]));
                    }
                }
                assert(shape_contains_spec(s1, shape_join_spec(s2, s1))) by {
                    assert forall|i: int| 0 <= i < s1.len() implies #[trigger] dim_contains(s1[i], shape_join_spec(s2, s1)[i]) by {
                        assert(dim_contains(s1[i], s2[i]));
                    }
                }
            },
            _ => {},
        }
    }
}

/// Among flat types, the join is the least upper bound: every flat type
/// that includes both arguments includes their join.  Left out: two
/// integer constants with `nonnegint`: it includes `const(1)` and
/// `const(2)` but not their join, which is `smallint`.
#[verifier::spinoff_prover]
#[verifier::rlimit(100)]
pub proof fn law_join_least(a: KindV, b: KindV, c: KindV)
    requires
        flat_kind(a),
        flat_kind(b),
        flat_kind(c),
        contains_spec(c, a),
        contains_spec(c, b),
        !(a is Constant && b is Constant && c is NonNegInt),
    ensures
        contains_spec(c, join_spec(a, b)),
{
    law_lattice_extremes(join_spec(a, b));
    law_lattice_idempotent(a);
    law_lattice_idempotent(b);
    if c is Any {
    } else if c == a {
        lemma_join_of_included(a, b);
    } else if c == b {
        lemma_join_of_included(b, a);
    } else {
        lemma_join_least_strict(a, b, c);
    }
}

#[verifier::spinoff_prover]
#[verifier::rlimit(100)]
proof fn lemma_join_least_strict(a: KindV, b: KindV, c: KindV)
    requires
        flat_kind(a),
        flat_kind(b),
        flat_kind(c),
        contains_spec(c, a),
        contains_spec(c, b),
        !(a is Constant && b is Constant && c is NonNegInt),
        !(c is Any),
        c != a,
        c != b,
    ensures
        contains_spec(c, join_spec(a, b)),
{
    reveal_with_fuel(spec_join, 2);
    let d = LATTICE_DEPTH as nat;
    law_lattice_idempotent(a);
    law_lattice_idempotent(b);
    law_lattice_idempotent(c);
    law_lattice_extremes(a);
    law_lattice_extremes(b);
    law_lattice_extremes(c);
    if !(a == b || a is Bottom || b is Bottom || a is Any || b is Any) {
        match (a, b, c) {
            (
                KindV::Tensor { dtype: d1, shape: s1 },
                KindV::Tensor { dtype: d2, shape: s2 },
                KindV::Tensor { dtype: d3, shape: s3 },
            ) => {
                assert(shape_contains_spec(s3, s1));
                assert(shape_contains_spec(s3, s2));
                let sj = shape_join_spec(s1, s2);
                assert(shape_contains_spec(s3, sj)) by {
                    assert forall|i: int| 0 <= i < s3.len() implies #[trigger] dim_contains(s3[i], sj[i]) by {
                        assert(dim_contains(s3[i], s1[i]));
                        assert(dim_contains(s3[i], s2[i]));
                    }
                }
            },
            _ => {},
        }
    }
}

/// What is subtracted is no longer included: when `s` includes `o`, what
/// is left of `s` after subtracting `o` does not include `o`.  Left out:
/// the bottom type (there is nothing to take out), a union (included as
/// soon as both of its members are) and an intersection (included as soon
/// as one of its members is), since with empty members these stay
/// included in anything.
pub proof fn law_subtract_removes(s: KindV, o: KindV)
    requires
        contains_spec(s, o),
        !(o is Bottom),
        !(o is Union),
        !(o is Intersection),
    ensures
        !contains_spec(subtract_spec(s, o), o),
{
    let d = LATTICE_DEPTH as nat;
    let f = (d - 1) as nat;
    law_lattice_idempotent(o);
    let r = subtract_spec(s, o);
    if r is Difference {
        assert(r == KindV::Difference(Box::new(s), Box::new(o)));
        assert(spec_meet(o, o, f) == o);
        if r == o {
            assert(decreases_to!(r => o));
        }
    }
}

/// Inclusion between flat types does not depend on the depth, once there
/// is any.
proof fn lemma_flat_contains_depth(a: KindV, b: KindV, f: nat, g: nat)
    requires
        flat_kind(a),
        flat_kind(b),
        f >= 1,
        g >= 1,
    ensures
        spec_contains(a, b, f) == spec_contains(a, b, g),
{
}

/// The join of two flat types, at a depth of at least two, is flat.
#[verifier::spinoff_prover]
#[verifier::rlimit(100)]
proof fn lemma_flat_join_flat(a: KindV, b: KindV, f: nat)
    requires
        flat_kind(a),
        flat_kind(b),
        f >= 2,
    ensures
        flat_kind(spec_join(a, b, f)),
{
    reveal_with_fuel(spec_join, 2);
}

/// Inclusion between flat types is transitive.
#[verifier::spinoff_prover]
#[verifier::rlimit(100)]
proof fn lemma_flat_contains_trans(a: KindV, b: KindV, c: KindV, f: nat)
    requires
        flat_kind(a),
        flat_kind(b),
        flat_kind(c),
        f >= 1,
        spec_contains(a, b, f),
        spec_contains(b, c, f),
    ensures
        spec_contains(a, c, f),
{
    if a == b || b == c || c is Bottom || a is Any || a is Dynamic {
    } else {
        match (a, b, c) {
            (
                KindV::Tensor { dtype: d1, shape: s1 },
                KindV::Tensor { dtype: d2, shape: s2 },
                KindV::Tensor { dtype: d3, shape: s3 },
            ) => {
                assert(shape_contains_spec(s1, s3)) by {
                    assert forall|i: int| 0 <= i < s1.len() implies #[trigger] dim_contains(s1[i], s3[i]) by {
                        assert(dim_contains(s1[i], s2[i]));
                        assert(dim_contains(s2[i], s3[i]));
                    }
                }
            },
            _ => {},
        }
    }
}

/// The join of two flat types includes both, at any depth of at least two.
#[verifier::spinoff_prover]
#[verifier::rlimit(100)]
proof fn lemma_flat_join_upper_at(a: KindV, b: KindV, f: nat)
    requires
        flat_kind(a),
        flat_kind(b),
        f >= 2,
    ensures
        spec_contains(spec_join(a, b, f), a, f),
        spec_contains(spec_join(a, b, f), b, f),
{
    reveal_with_fuel(spec_join, 2);
    if a == b || a is Bottom || b is Bottom || a is Any || b is Any {
    } else {
        match (a, b) {
            (KindV::Tensor { dtype: d1, shape: s1 }, KindV::Tensor { dtype: d2, shape: s2 }) => {
                if d1 == d2 && s1.len() == s2.len() {
                    let sj = shape_join_spec(s1, s2);
                    assert(shape_contains_spec(sj, s1));
                    assert(shape_contains_spec(sj, s2));
                }
            },
            _ => {},
        }
    }
}

/// For flat types, a union is included exactly when both of its members
/// are, and a union includes a type exactly when one of its members does.
pub proof fn law_union_inclusion(x: KindV, a: KindV, b: KindV)
    requires
        flat_kind(x),
        flat_kind(a),
        flat_kind(b),
    ensures
        contains_spec(x, KindV::Union(Box::new(a), Box::new(b))) == (contains_spec(x, a) && contains_spec(x, b)),
        contains_spec(KindV::Union(Box::new(a), Box::new(b)), x) == (contains_spec(a, x) || contains_spec(b, x)),
{
    let d = LATTICE_DEPTH as nat;
    let f = (d - 1) as nat;
    lemma_flat_contains_depth(x, a, f, d);
    lemma_flat_contains_depth(x, b, f, d);
    lemma_flat_contains_depth(a, x, f, d);
    lemma_flat_contains_depth(b, x, f, d);
    law_lattice_extremes(a);
    law_lattice_extremes(b);
    law_lattice_extremes(KindV::Union(Box::new(a), Box::new(b)));
}

/// For flat types, an intersection includes a type exactly when both of
/// its members do, and is included in a type exactly when one of its
/// members is.
pub proof fn law_intersection_inclusion(x: KindV, a: KindV, b: KindV)
    requires
        flat_kind(x),
        flat_kind(a),
        flat_kind(b),
    ensures
        contains_spec(KindV::Intersection(Box::new(a), Box::new(b)), x) == (contains_spec(a, x)
            && contains_spec(b, x)),
        contains_spec(x, KindV::Intersection(Box::new(a), Box::new(b))) == (contains_spec(x, a)
            || contains_spec(x, b)),
{
    let d = LATTICE_DEPTH as nat;
    let f = (d - 1) as nat;
    lemma_flat_contains_depth(x, a, f, d);
    lemma_flat_contains_depth(x, b, f, d);
    lemma_flat_contains_depth(a, x, f, d);
    lemma_flat_contains_depth(b, x, f, d);
    law_lattice_extremes(a);
    law_lattice_extremes(b);
    law_lattice_extremes(KindV::Intersection(Box::new(a), Box::new(b)));
}

/// Whether a type is a container whose inner types are all flat: a message
/// with a flat payload, a stable tuple or a map shape of flat types, or an
/// actor.
pub open spec fn shallow_container(k: KindV) -> bool {
    match k {
        KindV::Message { payload, .. } => flat_kind(*payload),
        KindV::StableTuple { element_types, .. } => forall|i: int|
            0 <= i < element_types.len() ==> flat_kind(#[trigger] element_types[i]),
        KindV::MapShape { values, .. } => forall|i: int|
            0 <= i < values.len() ==> flat_kind(#[trigger] values[i]),
        KindV::Actor { .. } => true,
        _ => false,
    }
}

/// Whether two types are not a pair of containers that the lattice keeps
/// apart: messages of different priorities (the join takes the higher
/// one, the meet the lower one), stable tuples of different lengths,
/// actors of different lifecycles, or map shapes with the same keys and
/// different numbers of values.
pub open spec fn containers_comparable(a: KindV, b: KindV) -> bool {
    match (a, b) {
        (KindV::Message { priority: r1, .. }, KindV::Message { priority: r2, .. }) => r1 == r2,
        (
            KindV::StableTuple { element_types: e1, .. },
            KindV::StableTuple { element_types: e2, .. },
        ) => e1.len() == e2.len(),
        (KindV::Actor { lifecycle: l1, .. }, KindV::Actor { lifecycle: l2, .. }) => l1 == l2,
        (KindV::MapShape { keys: k1, values: v1 }, KindV::MapShape { keys: k2, values: v2 }) => k1
            == k2 ==> v1.len() == v2.len(),
        _ => true,
    }
}

/// Element-wise inclusion, one level down, gives inclusion of the first
/// `n` elements.
proof fn lemma_all_contain_from(x: Seq<KindV>, y: Seq<KindV>, n: nat, fuel: nat)
    requires
        fuel >= 1,
        forall|k: int| 0 <= k < n ==> spec_contains(#[trigger] x[k], y[k], (fuel - 1) as nat),
    ensures
        spec_all_contain(x, y, n, fuel),
    decreases n,
{
    if n > 0 {
        lemma_all_contain_from(x, y, (n - 1) as nat, fuel);
    }
}

/// The merged accepted messages of two actors hold those of both.
proof fn lemma_accepts_merge_covers(acc: Seq<KindV>, extra: Seq<KindV>)
    ensures
        accepts_cover_spec(accepts_merge(acc, extra), acc),
        accepts_cover_spec(accepts_merge(acc, extra), extra),
    decreases extra.len(),
{
    let r = accepts_merge(acc, extra);
    if extra.len() == 0 {
        assert forall|i: int| 0 <= i < acc.len() implies r.contains(#[trigger] acc[i]) by {
            assert(r[i] == acc[i]);
        }
    } else {
        let rest = extra.drop_last();
        let m = accepts_merge(acc, rest);
        lemma_accepts_merge_covers(acc, rest);
        assert forall|i: int| 0 <= i < acc.len() implies r.contains(#[trigger] acc[i]) by {
            assert(m.contains(acc[i]));
            let j = choose|j: int| 0 <= j < m.len() && m[j] == acc[i];
            if r != m {
                assert(r == m.push(extra.last()));
                assert(r[j] == m[j]);
            }
        }
        assert forall|i: int| 0 <= i < extra.len() implies r.contains(#[trigger] extra[i]) by {
            if i == extra.len() - 1 {
                if r != m {
                    assert(r == m.push(extra.last()));
                    assert(r[m.len() as int] == extra.last());
                }
            } else {
                assert(extra[i] == rest[i]);
                assert(m.contains(rest[i]));
                let j = choose|j: int| 0 <= j < m.len() && m[j] == rest[i];
                if r != m {
                    assert(r == m.push(extra.last()));
                    assert(r[j] == m[j]);
                }
            }
        }
    }
}

/// The messages kept by a filter come from the filtered sequence.
proof fn lemma_filter_within(s: Seq<KindV>, keep: Seq<KindV>)
    ensures
        accepts_cover_spec(s, accepts_filter(s, keep)),
        accepts_cover_spec(keep, accepts_filter(s, keep)),
    decreases s.len(),
{
    let pred = |m: KindV| keep.contains(m);
    let r = s.filter(pred);
    assert(r == accepts_filter(s, keep));
    reveal(Seq::filter);
    if s.len() > 0 {
        let rest = s.drop_last();
        lemma_filter_within(rest, keep);
        let m = rest.filter(pred);
        assert(m == accepts_filter(rest, keep));
        assert forall|i: int| 0 <= i < r.len() implies s.contains(#[trigger] r[i]) && keep.contains(
            r[i],
        ) by {
            if i < m.len() {
                assert(r[i] == m[i]);
                assert(rest.contains(m[i]));
                let j = choose|j: int| 0 <= j < rest.len() && rest[j] == m[i];
                assert(s[j] == rest[j]);
            } else {
                assert(r[i] == s.last());
                assert(s[s.len() - 1] == s.last());
            }
        }
    }
}

/// The join of two types, each flat or a container of flat types, includes
/// both of them, unless they are two containers that the lattice keeps
/// apart.
pub proof fn law_container_join_upper_bound(a: KindV, b: KindV)
    requires
        flat_kind(a) || shallow_container(a),
        flat_kind(b) || shallow_container(b),
        containers_comparable(a, b),
    ensures
        contains_spec(join_spec(a, b), a),
        contains_spec(join_spec(a, b), b),
{
    if flat_kind(a) && flat_kind(b) {
        law_join_upper_bound(a, b);
    } else {
        lemma_container_join_cases(a, b);
    }
}

#[verifier::spinoff_prover]
#[verifier::rlimit(100)]
proof fn lemma_container_join_cases(a: KindV, b: KindV)
    requires
        flat_kind(a) || shallow_container(a),
        flat_kind(b) || shallow_container(b),
        shallow_container(a) || shallow_container(b),
        containers_comparable(a, b),
    ensures
        contains_spec(join_spec(a, b), a),
        contains_spec(join_spec(a, b), b),
{
    reveal_with_fuel(spec_join, 2);
    let d = LATTICE_DEPTH as nat;
    let f = (d - 1) as nat;
    law_lattice_idempotent(a);
    law_lattice_idempotent(b);
    law_lattice_extremes(a);
    law_lattice_extremes(b);
    if !(a == b || a is Bottom || b is Bottom || a is Any || b is Any) {
        match (a, b) {
            (KindV::Message { payload: p1, .. }, KindV::Message { payload: p2, .. }) => {
                lemma_flat_join_upper_at(*p1, *p2, f);
            },
            (
                KindV::StableTuple { element_types: ea, .. },
                KindV::StableTuple { element_types: eb, .. },
            ) => {
                let ej = spec_join_zip(ea, eb, ea.len(), d);
                assert forall|k: int| 0 <= k < ea.len() implies spec_contains(#[trigger] ej[k], ea[k], f)
                    && spec_contains(ej[k], eb[k], f) by {
                    lemma_flat_join_upper_at(ea[k], eb[k], f);
                }
                lemma_all_contain_from(ej, ea, ea.len(), d);
                lemma_all_contain_from(ej, eb, ea.len(), d);
            },
            (KindV::MapShape { keys: k1, values: v1 }, KindV::MapShape { keys: k2, values: v2 }) => {
                if k1 == k2 {
                    let vj = spec_join_zip(v1, v2, v1.len(), d);
                    assert(min_len(v1.len(), v2.len()) == v1.len());
                    assert forall|k: int| 0 <= k < v1.len() implies spec_contains(#[trigger] vj[k], v1[k], f)
                        && spec_contains(vj[k], v2[k], f) by {
                        lemma_flat_join_upper_at(v1[k], v2[k], f);
                    }
                    lemma_all_contain_from(vj, v1, v1.len(), d);
                    lemma_all_contain_from(vj, v2, v1.len(), d);
                }
            },
            (KindV::Actor { accepts: a1, .. }, KindV::Actor { accepts: a2, .. }) => {
                lemma_accepts_merge_covers(a1, a2);
            },
            _ => {},
        }
    }
}

/// The meet of two flat types is included in both, at any depth of at
/// least two.
#[verifier::spinoff_prover]
#[verifier::rlimit(100)]
proof fn lemma_flat_meet_lower_at(a: KindV, b: KindV, g: nat)
    requires
        flat_kind(a),
        flat_kind(b),
        g >= 2,
    ensures
        spec_contains(a, spec_meet(a, b, g), g),
        spec_contains(b, spec_meet(a, b, g), g),
{
    reveal_with_fuel(spec_meet, 2);
    reveal_with_fuel(spec_meet_rest, 2);
    let f = (g - 1) as nat;
    lemma_flat_contains_depth(a, b, f, g);
    lemma_flat_contains_depth(b, a, f, g);
    if !(a == b || a is Bottom || b is Bottom || a is Any || b is Any) {
        match (a, b) {
            (KindV::Tensor { dtype: d1, shape: s1 }, KindV::Tensor { dtype: d2, shape: s2 }) => {
                if d1 == d2 && s1.len() == s2.len() && shapes_agree(s1, s2) {
                    let sm = shape_meet_spec(s1, s2);
                    assert(shape_contains_spec(s1, sm)) by {
                        assert forall|i: int| 0 <= i < s1.len() implies #[trigger] dim_contains(s1[i], sm[i]) by {
                            assert(dims_agree(s1[i], s2[i]));
                        }
                    }
                    assert(shape_contains_spec(s2, sm)) by {
                        assert forall|i: int| 0 <= i < s2.len() implies #[trigger] dim_contains(s2[i], sm[i]) by {
                            assert(dims_agree(s1[i], s2[i]));
                        }
                    }
                }
            },
            _ => {},
        }
    }
}

/// The meet of two types, each flat or a container of flat types, is
/// included in both of them, unless they are two containers that the
/// lattice keeps apart.
pub proof fn law_container_meet_lower_bound(a: KindV, b: KindV)
    requires
        flat_kind(a) || shallow_container(a),
        flat_kind(b) || shallow_container(b),
        containers_comparable(a, b),
    ensures
        contains_spec(a, meet_spec(a, b)),
        contains_spec(b, meet_spec(a, b)),
{
    if flat_kind(a) && flat_kind(b) {
        law_meet_lower_bound(a, b);
    } else {
        lemma_container_meet_cases(a, b);
    }
}

#[verifier::spinoff_prover]
#[verifier::rlimit(100)]
proof fn lemma_container_meet_cases(a: KindV, b: KindV)
    requires
        flat_kind(a) || shallow_container(a),
        flat_kind(b) || shallow_container(b),
        shallow_container(a) || shallow_container(b),
        containers_comparable(a, b),
    ensures
        contains_spec(a, meet_spec(a, b)),
        contains_spec(b, meet_spec(a, b)),
{
    reveal_with_fuel(spec_meet, 2);
    reveal_with_fuel(spec_meet_rest, 2);
    let d = LATTICE_DEPTH as nat;
    let f = (d - 1) as nat;
    law_lattice_idempotent(a);
    law_lattice_idempotent(b);
    law_lattice_extremes(a);
    law_lattice_extremes(b);
    if !(a == b || a is Bottom || b is Bottom || a is Any || b is Any) {
        match (a, b) {
            (KindV::Message { payload: p1, .. }, KindV::Message { payload: p2, .. }) => {
                lemma_flat_meet_lower_at(*p1, *p2, f);
            },
            (
                KindV::StableTuple { element_types: ea, .. },
                KindV::StableTuple { element_types: eb, .. },
            ) => {
                let em = spec_meet_zip(ea, eb, ea.len(), d);
                assert forall|k: int| 0 <= k < ea.len() implies spec_contains(#[trigger] ea[k], em[k], f)
                    && spec_contains(eb[k], em[k], f) by {
                    lemma_flat_meet_lower_at(ea[k], eb[k], f);
                }
                lemma_all_contain_from(ea, em, ea.len(), d);
                lemma_all_contain_from(eb, em, ea.len(), d);
            },
            (KindV::MapShape { keys: k1, values: v1 }, KindV::MapShape { keys: k2, values: v2 }) => {
                if k1 == k2 {
                    let vm = spec_meet_zip(v1, v2, v1.len(), d);
                    assert(min_len(v1.len(), v2.len()) == v1.len());
                    assert forall|k: int| 0 <= k < v1.len() implies spec_contains(#[trigger] v1[k], vm[k], f)
                        && spec_contains(v2[k], vm[k], f) by {
                        lemma_flat_meet_lower_at(v1[k], v2[k], f);
                    }
                    lemma_all_contain_from(v1, vm, v1.len(), d);
                    lemma_all_contain_from(v2, vm, v1.len(), d);
                }
            },
            (KindV::Actor { accepts: a1, .. }, KindV::Actor { accepts: a2, .. }) => {
                lemma_filter_within(a1, a2);
            },
            _ => {
                if a is Dynamic || b is Dynamic {
                } else if a is Tuple || b is Tuple {
                    if !(a is StableTuple || b is StableTuple) {
                        assert(!spec_contains(a, b, f));
                        assert(!spec_contains(b, a, f));
                    }
                } else if a is AnyMap || b is AnyMap {
                    if !(a is MapShape || b is MapShape) {
                        assert(!spec_contains(a, b, f));
                        assert(!spec_contains(b, a, f));
                    }
                } else {
                    lemma_container_apart(a, b, f);
                }
            },
        }
    }
}

/// A container of flat types and a type of another kind include one
/// another only through the top, bottom or dynamic type, a plain tuple or
/// the map of anything.
proof fn lemma_container_apart(a: KindV, b: KindV, f: nat)
    requires
        flat_kind(a) || shallow_container(a),
        flat_kind(b) || shallow_container(b),
        shallow_container(a) || shallow_container(b),
        !(a is Message && b is Message),
        !(a is StableTuple && b is StableTuple),
        !(a is MapShape && b is MapShape),
        !(a is Actor && b is Actor),
        !(a is Bottom || a is Any || a is Dynamic || a is Tuple || a is AnyMap),
        !(b is Bottom || b is Any || b is Dynamic || b is Tuple || b is AnyMap),
        f >= 2,
    ensures
        !spec_contains(a, b, f),
        !spec_contains(b, a, f),
{
    if a is Message {
    } else if a is StableTuple {
    } else if a is MapShape {
    } else if a is Actor {
    } else if b is Message {
    } else if b is StableTuple {
    } else if b is MapShape {
    } else {
    }
}

/// A flat type that includes a constant value includes the constant type
/// of that value, and the general type of a constant includes it.
proof fn lemma_constant_included(k: KindV, cv: ConstantValue, n: nat)
    requires
        flat_kind(k),
        n >= 1,
    ensures
        spec_contains_constant(k, cv) ==> spec_contains(k, KindV::Constant(cv), n),
        spec_contains(const_general(cv), KindV::Constant(cv), n),
{
}

/// The join of a union of two flat types with a flat type that is neither
/// a constant nor an extreme, in either order, includes both; it is the
/// union itself or a flat type.
#[verifier::spinoff_prover]
#[verifier::rlimit(100)]
proof fn lemma_union_join_plain(x: KindV, y: KindV, c: KindV, n: nat)
    requires
        flat_kind(x),
        flat_kind(y),
        flat_kind(c),
        !(c is Constant || c is Bottom || c is Any),
        n >= 4,
    ensures
        ({
            let u = KindV::Union(Box::new(x), Box::new(y));
            &&& spec_contains(spec_join(u, c, n), u, n)
            &&& spec_contains(spec_join(u, c, n), c, n)
            &&& spec_contains(spec_join(c, u, n), u, n)
            &&& spec_contains(spec_join(c, u, n), c, n)
            &&& (flat_kind(spec_join(u, c, n)) || spec_join(u, c, n) == u)
            &&& (flat_kind(spec_join(c, u, n)) || spec_join(c, u, n) == u)
        }),
{
    let u = KindV::Union(Box::new(x), Box::new(y));
    let f = (n - 1) as nat;
    let g = (n - 2) as nat;
    lemma_flat_join_flat(x, y, f);
    lemma_flat_join_upper_at(x, y, f);
    let j = spec_join(x, y, f);
    lemma_flat_join_flat(j, c, f);
    lemma_flat_join_upper_at(j, c, f);
    lemma_flat_join_flat(c, j, f);
    lemma_flat_join_upper_at(c, j, f);
    let r1 = spec_join(j, c, f);
    let r2 = spec_join(c, j, f);
    lemma_flat_contains_trans(r1, j, x, f);
    lemma_flat_contains_trans(r1, j, y, f);
    lemma_flat_contains_trans(r2, j, x, f);
    lemma_flat_contains_trans(r2, j, y, f);
    lemma_flat_contains_depth(x, c, g, f);
    lemma_flat_contains_depth(y, c, g, f);
    lemma_flat_contains_depth(r1, c, f, n);
    lemma_flat_contains_depth(r2, c, f, n);
    assert(spec_contains(u, c, f) == (spec_contains(x, c, g) || spec_contains(y, c, g)));
    assert(spec_contains(u, c, n) == (spec_contains(x, c, f) || spec_contains(y, c, f)));
    assert(spec_join(u, c, n) == if spec_contains(u, c, f) { u } else { r1 });
    assert(spec_join(c, u, n) == if spec_contains(u, c, f) { u } else { r2 });
    assert(spec_contains(r1, u, n) == (spec_contains(r1, x, f) && spec_contains(r1, y, f)));
    assert(spec_contains(r2, u, n) == (spec_contains(r2, x, f) && spec_contains(r2, y, f)));
}

/// The join of a union of two flat types with a constant type, in either
/// order, includes both.
#[verifier::spinoff_prover]
#[verifier::rlimit(100)]
proof fn lemma_union_join_const(x: KindV, y: KindV, cv: ConstantValue, n: nat)
    requires
        flat_kind(x),
        flat_kind(y),
        n >= 6,
    ensures
        ({
            let u = KindV::Union(Box::new(x), Box::new(y));
            let c = KindV::Constant(cv);
            &&& spec_contains(spec_join(u, c, n), u, n)
            &&& spec_contains(spec_join(u, c, n), c, n)
            &&& spec_contains(spec_join(c, u, n), u, n)
            &&& spec_contains(spec_join(c, u, n), c, n)
            &&& (flat_kind(spec_join(u, c, n)) || spec_join(u, c, n) == u)
            &&& (flat_kind(spec_join(c, u, n)) || spec_join(c, u, n) == u)
        }),
{
    let u = KindV::Union(Box::new(x), Box::new(y));
    let c = KindV::Constant(cv);
    let f = (n - 1) as nat;
    let g = (n - 2) as nat;
    let k = const_general(cv);
    lemma_constant_included(x, cv, f);
    lemma_constant_included(y, cv, f);
    lemma_constant_included(x, cv, g);
    lemma_constant_included(k, cv, f);
    lemma_constant_included(k, cv, g);
    assert(spec_contains(u, c, n) == (spec_contains(x, c, f) || spec_contains(y, c, f)));
    assert(spec_contains_constant(u, cv) == (spec_contains_constant(x, cv) || spec_contains_constant(
        y,
        cv,
    )));
    if spec_contains_constant(u, cv) {
        assert(spec_join(u, c, n) == u);
        assert(spec_join(c, u, n) == u);
    } else {
        lemma_union_join_plain(x, y, k, f);
        assert(spec_join(u, c, n) == spec_join(u, k, f));
        assert(spec_join(c, u, n) == spec_join(k, u, f));
        lemma_union_join_result(x, y, k, cv, spec_join(u, k, f), n);
        lemma_union_join_result(x, y, k, cv, spec_join(k, u, f), n);
    }
}

/// A join result that includes a union of flat types and the general type
/// of a constant, one level down, includes the union and the constant.
#[verifier::spinoff_prover]
#[verifier::rlimit(100)]
proof fn lemma_union_join_result(x: KindV, y: KindV, k: KindV, cv: ConstantValue, r: KindV, n: nat)
    requires
        flat_kind(x),
        flat_kind(y),
        k == const_general(cv),
        n >= 6,
        ({
            let u = KindV::Union(Box::new(x), Box::new(y));
            let f = (n - 1) as nat;
            &&& spec_contains(r, u, f)
            &&& spec_contains(r, k, f)
            &&& (flat_kind(r) || r == u)
        }),
    ensures
        spec_contains(r, KindV::Union(Box::new(x), Box::new(y)), n),
        spec_contains(r, KindV::Constant(cv), n),
{
    let u = KindV::Union(Box::new(x), Box::new(y));
    let c = KindV::Constant(cv);
    let f = (n - 1) as nat;
    let g = (n - 2) as nat;
    lemma_constant_included(k, cv, g);
    lemma_constant_included(k, cv, f);
    if r == u {
        assert(spec_contains(u, k, f) == (spec_contains(x, k, g) || spec_contains(y, k, g)));
        assert(spec_contains(u, c, n) == (spec_contains(x, c, f) || spec_contains(y, c, f)));
        if spec_contains(x, k, g) {
            lemma_flat_contains_trans(x, k, c, g);
            lemma_flat_contains_depth(x, c, g, f);
        } else {
            lemma_flat_contains_trans(y, k, c, g);
            lemma_flat_contains_depth(y, c, g, f);
        }
    } else {
        lemma_flat_contains_trans(r, k, c, f);
        lemma_flat_contains_depth(r, c, f, n);
        assert(spec_contains(r, u, f) == (spec_contains(r, x, g) && spec_contains(r, y, g)));
        assert(spec_contains(r, u, n) == (spec_contains(r, x, f) && spec_contains(r, y, f)));
        lemma_flat_contains_depth(r, x, g, f);
        lemma_flat_contains_depth(r, y, g, f);
    }
}

/// The join of a union of two flat types with any flat type, in either
/// order and at any depth of at least six, includes both; it is the union
/// itself or a flat type.
proof fn lemma_union_join_flat_at(x: KindV, y: KindV, c: KindV, n: nat)
    requires
        flat_kind(x),
        flat_kind(y),
        flat_kind(c),
        n >= 6,
    ensures
        ({
            let u = KindV::Union(Box::new(x), Box::new(y));
            &&& spec_contains(spec_join(u, c, n), u, n)
            &&& spec_contains(spec_join(u, c, n), c, n)
            &&& spec_contains(spec_join(c, u, n), u, n)
            &&& spec_contains(spec_join(c, u, n), c, n)
            &&& (flat_kind(spec_join(u, c, n)) || spec_join(u, c, n) == u)
            &&& (flat_kind(spec_join(c, u, n)) || spec_join(c, u, n) == u)
        }),
{
    match c {
        KindV::Constant(cv) => lemma_union_join_const(x, y, cv, n),
        _ => if !(c is Bottom || c is Any) {
            lemma_union_join_plain(x, y, c, n);
        },
    }
}

/// The join of two unions of flat types includes both of them.
#[verifier::spinoff_prover]
#[verifier::rlimit(100)]
pub proof fn law_unions_join_upper_bound(x1: KindV, y1: KindV, x2: KindV, y2: KindV)
    requires
        flat_kind(x1),
        flat_kind(y1),
        flat_kind(x2),
        flat_kind(y2),
    ensures
        contains_spec(
            join_spec(KindV::Union(Box::new(x1), Box::new(y1)), KindV::Union(Box::new(x2), Box::new(y2))),
            KindV::Union(Box::new(x1), Box::new(y1)),
        ),
        contains_spec(
            join_spec(KindV::Union(Box::new(x1), Box::new(y1)), KindV::Union(Box::new(x2), Box::new(y2))),
            KindV::Union(Box::new(x2), Box::new(y2)),
        ),
{
    let u1 = KindV::Union(Box::new(x1), Box::new(y1));
    let u2 = KindV::Union(Box::new(x2), Box::new(y2));
    let d = LATTICE_DEPTH as nat;
    let f = (d - 1) as nat;
    let g = (d - 2) as nat;
    let h = (d - 3) as nat;
    law_lattice_idempotent(u1);
    law_lattice_idempotent(u2);
    if u1 != u2 {
        assert(spec_contains(u1, u2, f) == (spec_contains(u1, x2, g) && spec_contains(u1, y2, g)));
        assert(spec_contains(u1, u2, d) == (spec_contains(u1, x2, f) && spec_contains(u1, y2, f)));
        assert(spec_contains(u1, x2, g) == (spec_contains(x1, x2, h) || spec_contains(y1, x2, h)));
        assert(spec_contains(u1, y2, g) == (spec_contains(x1, y2, h) || spec_contains(y1, y2, h)));
        assert(spec_contains(u1, x2, f) == (spec_contains(x1, x2, g) || spec_contains(y1, x2, g)));
        assert(spec_contains(u1, y2, f) == (spec_contains(x1, y2, g) || spec_contains(y1, y2, g)));
        lemma_flat_contains_depth(x1, x2, h, g);
        lemma_flat_contains_depth(y1, x2, h, g);
        lemma_flat_contains_depth(x1, y2, h, g);
        lemma_flat_contains_depth(y1, y2, h, g);
        let j1 = spec_join(x1, y1, f);
        lemma_flat_join_flat(x1, y1, f);
        lemma_flat_join_upper_at(x1, y1, f);
        let r = spec_join(j1, u2, f);
        assert(join_spec(u1, u2) == if spec_contains(u1, u2, f) { u1 } else { r });
        lemma_union_join_flat_at(x2, y2, j1, f);
        if !spec_contains(u1, u2, f) {
            assert(spec_contains(r, u1, d) == (spec_contains(r, x1, f) && spec_contains(r, y1, f)));
            if r == u2 {
                assert(spec_contains(u2, j1, f) == (spec_contains(x2, j1, g) || spec_contains(y2, j1, g)));
                assert(spec_contains(u2, x1, f) == (spec_contains(x2, x1, g) || spec_contains(y2, x1, g)));
                assert(spec_contains(u2, y1, f) == (spec_contains(x2, y1, g) || spec_contains(y2, y1, g)));
                lemma_flat_contains_depth(j1, x1, f, g);
                lemma_flat_contains_depth(j1, y1, f, g);
                if spec_contains(x2, j1, g) {
                    lemma_flat_contains_trans(x2, j1, x1, g);
                    lemma_flat_contains_trans(x2, j1, y1, g);
                } else {
                    lemma_flat_contains_trans(y2, j1, x1, g);
                    lemma_flat_contains_trans(y2, j1, y1, g);
                }
            } else {
                lemma_flat_contains_trans(r, j1, x1, f);
                lemma_flat_contains_trans(r, j1, y1, f);
                assert(spec_contains(r, u2, f) == (spec_contains(r, x2, g) && spec_contains(r, y2, g)));
                assert(spec_contains(r, u2, d) == (spec_contains(r, x2, f) && spec_contains(r, y2, f)));
                lemma_flat_contains_depth(r, x2, g, f);
                lemma_flat_contains_depth(r, y2, g, f);
            }
        }
    }
}

/// The join of a union of two flat types with a flat type, in either
/// order, includes both the union and the other type.
pub proof fn law_union_join_upper_bound(x: KindV, y: KindV, c: KindV)
    requires
        flat_kind(x),
        flat_kind(y),
        flat_kind(c),
    ensures
        contains_spec(join_spec(KindV::Union(Box::new(x), Box::new(y)), c), KindV::Union(Box::new(x), Box::new(y))),
        contains_spec(join_spec(KindV::Union(Box::new(x), Box::new(y)), c), c),
        contains_spec(join_spec(c, KindV::Union(Box::new(x), Box::new(y))), KindV::Union(Box::new(x), Box::new(y))),
        contains_spec(join_spec(c, KindV::Union(Box::new(x), Box::new(y))), c),
{
    lemma_union_join_flat_at(x, y, c, LATTICE_DEPTH as nat);
}

/// For flat types, at any depth of at least two, a type that includes the
/// other includes their join, in either order.
#[verifier::spinoff_prover]
#[verifier::rlimit(100)]
proof fn lemma_join_of_included_at(a: KindV, b: KindV, g: nat)
    requires
        flat_kind(a),
        flat_kind(b),
        g >= 2,
        spec_contains(a, b, g),
    ensures
        spec_contains(a, spec_join(a, b, g), g),
        spec_contains(a, spec_join(b, a, g), g),
{
    reveal_with_fuel(spec_join, 2);
    if !(a == b || a is Bottom || b is Bottom || a is Any || b is Any) {
        match (a, b) {
            (KindV::Tensor { dtype: d1, shape: s1 }, KindV::Tensor { dtype: d2, shape: s2 }) => {
                assert(shape_contains_spec(s1, s2));
                assert(shape_contains_spec(s1, shape_join_spec(s1, s2))) by {
                    assert forall|i: int| 0 <= i < s1.len() implies #[trigger] dim_contains(s1[i], shape_join_spec(s1, s2)[i]) by {
                        assert(dim_contains(s1[i], s2[i]));
                    }
                }
                assert(shape_contains_spec(s1, shape_join_spec(s2, s1))) by {
                    assert forall|i: int| 0 <= i < s1.len() implies #[trigger] dim_contains(s1[i], shape_join_spec(s2, s1)[i]) by {
                        assert(dim_contains(s1[i], s2[i]));
                    }
                }
            },
            _ => {},
        }
    }
}

/// Among flat types, at any depth of at least two, every type that
/// includes both arguments includes their join (the case of two integer
/// constants under `nonnegint` left out).
#[verifier::spinoff_prover]
#[verifier::rlimit(100)]
proof fn lemma_flat_join_least_at(a: KindV, b: KindV, c: KindV, g: nat)
    requires
        flat_kind(a),
        flat_kind(b),
        flat_kind(c),
        g >= 2,
        spec_contains(c, a, g),
        spec_contains(c, b, g),
        !(a is Constant && b is Constant && c is NonNegInt),
    ensures
        spec_contains(c, spec_join(a, b, g), g),
{
    reveal_with_fuel(spec_join, 2);
    if c is Any {
    } else if c == a {
        lemma_join_of_included_at(a, b, g);
    } else if c == b {
        lemma_join_of_included_at(b, a, g);
    } else if !(a == b || a is Bottom || b is Bottom || a is Any || b is Any) {
        match (a, b, c) {
            (
                KindV::Tensor { dtype: d1, shape: s1 },
                KindV::Tensor { dtype: d2, shape: s2 },
                KindV::Tensor { dtype: d3, shape: s3 },
            ) => {
                assert(shape_contains_spec(s3, s1));
                assert(shape_contains_spec(s3, s2));
                let sj = shape_join_spec(s1, s2);
                assert(shape_contains_spec(s3, sj)) by {
                    assert forall|i: int| 0 <= i < s3.len() implies #[trigger] dim_contains(s3[i], sj[i]) by {
                        assert(dim_contains(s3[i], s1[i]));
                        assert(dim_contains(s3[i], s2[i]));
                    }
                }
            },
            _ => {},
        }
    }
}

/// Inclusion of the first `n` elements gives inclusion of each of them,
/// one level down.
proof fn lemma_all_contain_each(x: Seq<KindV>, y: Seq<KindV>, n: nat, fuel: nat, k: int)
    requires
        spec_all_contain(x, y, n, fuel),
        0 <= k < n,
    ensures
        spec_contains(x[k], y[k], (fuel - 1) as nat),
    decreases n,
{
    if k < n - 1 {
        lemma_all_contain_each(x, y, (n - 1) as nat, fuel, k);
    }
}

/// Every accepted message of two merged actors is accepted by one of them.
proof fn lemma_accepts_merge_within(acc: Seq<KindV>, extra: Seq<KindV>)
    ensures
        forall|i: int|
            0 <= i < accepts_merge(acc, extra).len() ==> acc.contains(
                #[trigger] accepts_merge(acc, extra)[i],
            ) || extra.contains(accepts_merge(acc, extra)[i]),
    decreases extra.len(),
{
    if extra.len() > 0 {
        let rest = extra.drop_last();
        lemma_accepts_merge_within(acc, rest);
        let m = accepts_merge(acc, rest);
        let r = accepts_merge(acc, extra);
        assert forall|i: int| 0 <= i < r.len() implies acc.contains(#[trigger] r[i]) || extra.contains(
            r[i],
        ) by {
            if i < m.len() {
                assert(r[i] == m[i]);
                if rest.contains(m[i]) {
                    let j = choose|j: int| 0 <= j < rest.len() && rest[j] == m[i];
                    assert(extra[j] == rest[j]);
                }
            } else {
                assert(r[i] == extra.last());
                assert(extra[extra.len() - 1] == extra.last());
            }
        }
    }
}

/// Whether two integer constants lie under `nonnegint`: `nonnegint`
/// includes `const(1)` and `const(2)` but not their join, `smallint`.
pub open spec fn constants_under_nonneg(a: KindV, b: KindV, c: KindV) -> bool {
    a is Constant && b is Constant && c is NonNegInt
}

/// Whether `c` includes `a` and `b` without including their join because
/// of two integer constants under `nonnegint`, at the top or at the same
/// place inside three containers of one kind.
pub open spec fn join_least_exception(a: KindV, b: KindV, c: KindV) -> bool {
    match (a, b, c) {
        (
            KindV::Message { payload: p1, .. },
            KindV::Message { payload: p2, .. },
            KindV::Message { payload: p3, .. },
        ) => constants_under_nonneg(*p1, *p2, *p3),
        (
            KindV::StableTuple { element_types: e1, .. },
            KindV::StableTuple { element_types: e2, .. },
            KindV::StableTuple { element_types: e3, .. },
        ) => exists|i: int|
            0 <= i < e1.len() && i < e2.len() && i < e3.len() && #[trigger] constants_under_nonneg(
                e1[i],
                e2[i],
                e3[i],
            ),
        (
            KindV::MapShape { values: v1, .. },
            KindV::MapShape { values: v2, .. },
            KindV::MapShape { values: v3, .. },
        ) => exists|i: int|
            0 <= i < v1.len() && i < v2.len() && i < v3.len() && #[trigger] constants_under_nonneg(
                v1[i],
                v2[i],
                v3[i],
            ),
        _ => constants_under_nonneg(a, b, c),
    }
}

/// Among types that are flat or containers of flat types, the join is the
/// least upper bound: every such type that includes both arguments
/// includes their join, unless the arguments are two containers that the
/// lattice keeps apart, or integer constants under `nonnegint`.
pub proof fn law_container_join_least(a: KindV, b: KindV, c: KindV)
    requires
        flat_kind(a) || shallow_container(a),
        flat_kind(b) || shallow_container(b),
        flat_kind(c) || shallow_container(c),
        containers_comparable(a, b),
        contains_spec(c, a),
        contains_spec(c, b),
        !join_least_exception(a, b, c),
    ensures
        contains_spec(c, join_spec(a, b)),
{
    let d = LATTICE_DEPTH as nat;
    law_lattice_idempotent(a);
    law_lattice_idempotent(b);
    law_lattice_extremes(a);
    law_lattice_extremes(b);
    law_lattice_extremes(c);
    if flat_kind(a) && flat_kind(b) && flat_kind(c) {
        law_join_least(a, b, c);
    } else if c is Any || a == b || a is Bottom || b is Bottom {
    } else {
        lemma_container_join_least_cases(a, b, c);
    }
}

#[verifier::spinoff_prover]
#[verifier::rlimit(100)]
proof fn lemma_container_join_least_cases(a: KindV, b: KindV, c: KindV)
    requires
        flat_kind(a) || shallow_container(a),
        flat_kind(b) || shallow_container(b),
        flat_kind(c) || shallow_container(c),
        shallow_container(a) || shallow_container(b) || shallow_container(c),
        containers_comparable(a, b),
        contains_spec(c, a),
        contains_spec(c, b),
        !join_least_exception(a, b, c),
        !(c is Any || a == b || a is Bottom || b is Bottom),
    ensures
        contains_spec(c, join_spec(a, b)),
{
    reveal_with_fuel(spec_join, 2);
    let d = LATTICE_DEPTH as nat;
    let f = (d - 1) as nat;
    let j = spec_join(a, b, d);
    if c is Dynamic {
        if !(a is Any || b is Any) {
            if flat_kind(a) && flat_kind(b) {
                lemma_flat_join_flat(a, b, d);
            }
        }
    } else {
        match (a, b) {
            (KindV::Message { payload: p1, .. }, KindV::Message { payload: p2, .. }) => {
                if let KindV::Message { payload: p3, .. } = c {
                    if c == a {
                        assert(spec_contains(*p3, *p1, f));
                    }
                    if c == b {
                        assert(spec_contains(*p3, *p2, f));
                    }
                    lemma_flat_join_least_at(*p1, *p2, *p3, f);
                }
            },
            (
                KindV::StableTuple { element_types: ea, .. },
                KindV::StableTuple { element_types: eb, .. },
            ) => {
                if let KindV::StableTuple { element_types: ec, .. } = c {
                    let n = ea.len();
                    let ej = spec_join_zip(ea, eb, n, d);
                    assert forall|k: int| 0 <= k < n implies spec_contains(#[trigger] ec[k], ej[k], f) by {
                        if c == a {
                            assert(spec_contains(ec[k], ea[k], f));
                        } else {
                            lemma_all_contain_each(ec, ea, n, d, k);
                        }
                        if c == b {
                            assert(spec_contains(ec[k], eb[k], f));
                        } else {
                            lemma_all_contain_each(ec, eb, n, d, k);
                        }
                        assert(!constants_under_nonneg(ea[k], eb[k], ec[k]));
                        lemma_flat_join_least_at(ea[k], eb[k], ec[k], f);
                    }
                    lemma_all_contain_from(ec, ej, n, d);
                }
            },
            (KindV::MapShape { keys: k1, values: v1 }, KindV::MapShape { keys: k2, values: v2 }) => {
                if let KindV::MapShape { values: v3, .. } = c {
                    let n = v1.len();
                    let vj = spec_join_zip(v1, v2, n, d);
                    assert(min_len(v1.len(), v2.len()) == n);
                    assert forall|k: int| 0 <= k < n implies spec_contains(#[trigger] v3[k], vj[k], f) by {
                        if c == a {
                            assert(spec_contains(v3[k], v1[k], f));
                        } else {
                            lemma_all_contain_each(v3, v1, n, d, k);
                        }
                        if c == b {
                            assert(spec_contains(v3[k], v2[k], f));
                        } else {
                            lemma_all_contain_each(v3, v2, n, d, k);
                        }
                        assert(!constants_under_nonneg(v1[k], v2[k], v3[k]));
                        lemma_flat_join_least_at(v1[k], v2[k], v3[k], f);
                    }
                    lemma_all_contain_from(v3, vj, n, d);
                }
            },
            (KindV::Actor { accepts: a1, .. }, KindV::Actor { accepts: a2, .. }) => {
                if let KindV::Actor { accepts: a3, .. } = c {
                    lemma_accepts_merge_within(a1, a2);
                    let m = accepts_merge(a1, a2);
                    assert forall|i: int| 0 <= i < m.len() implies a3.contains(#[trigger] m[i]) by {
                        if a1.contains(m[i]) {
                            let x = choose|x: int| 0 <= x < a1.len() && a1[x] == m[i];
                            if c == a {
                                assert(a3[x] == m[i]);
                            } else {
                                assert(a3.contains(a1[x]));
                            }
                        } else {
                            let x = choose|x: int| 0 <= x < a2.len() && a2[x] == m[i];
                            if c == b {
                                assert(a3[x] == m[i]);
                            } else {
                                assert(a3.contains(a2[x]));
                            }
                        }
                    }
                }
            },
            _ => {
                if flat_kind(a) && flat_kind(b) {
                    lemma_flat_join_flat(a, b, d);
                }
            },
        }
    }
}

/// For flat types, at any depth of at least two, a type that the other
/// includes is included in their meet, in either order.
#[verifier::spinoff_prover]
#[verifier::rlimit(100)]
proof fn lemma_meet_of_included_at(a: KindV, b: KindV, g: nat)
    requires
        flat_kind(a),
        flat_kind(b),
        g >= 2,
        spec_contains(b, a, g),
    ensures
        spec_contains(spec_meet(a, b, g), a, g),
        spec_contains(spec_meet(b, a, g), a, g),
{
    reveal_with_fuel(spec_meet, 2);
    reveal_with_fuel(spec_meet_rest, 2);
    let f = (g - 1) as nat;
    lemma_flat_contains_depth(a, b, f, g);
    lemma_flat_contains_depth(b, a, f, g);
    if !(a == b || a is Bottom || b is Bottom || a is Any || b is Any) {
        match (a, b) {
            (KindV::Tensor { dtype: d1, shape: s1 }, KindV::Tensor { dtype: d2, shape: s2 }) => {
                assert(shape_contains_spec(s2, s1));
                assert(shapes_agree(s1, s2)) by {
                    assert forall|i: int| 0 <= i < s1.len() implies #[trigger] dims_agree(s1[i], s2[i]) by {
                        assert(dim_contains(s2[i], s1[i]));
                    }
                }
                assert(shapes_agree(s2, s1)) by {
                    assert forall|i: int| 0 <= i < s2.len() implies #[trigger] dims_agree(s2[i], s1[i]) by {
                        assert(dim_contains(s2[i], s1[i]));
                    }
                }
                assert(shape_contains_spec(shape_meet_spec(s1, s2), s1)) by {
                    assert forall|i: int| 0 <= i < s1.len() implies #[trigger] dim_contains(shape_meet_spec(s1, s2)[i], s1[i]) by {
                        assert(dim_contains(s2[i], s1[i]));
                    }
                }
                assert(shape_contains_spec(shape_meet_spec(s2, s1), s1)) by {
                    assert forall|i: int| 0 <= i < s1.len() implies #[trigger] dim_contains(shape_meet_spec(s2, s1)[i], s1[i]) by {
                        assert(dim_contains(s2[i], s1[i]));
                    }
                }
            },
            _ => {},
        }
    }
}

/// Among flat types, at any depth of at least two, every type included in
/// both arguments is included in their meet.
#[verifier::spinoff_prover]
#[verifier::rlimit(100)]
proof fn lemma_flat_meet_greatest_at(a: KindV, b: KindV, c: KindV, g: nat)
    requires
        flat_kind(a),
        flat_kind(b),
        flat_kind(c),
        g >= 2,
        spec_contains(a, c, g),
        spec_contains(b, c, g),
    ensures
        spec_contains(spec_meet(a, b, g), c, g),
{
    reveal_with_fuel(spec_meet, 2);
    reveal_with_fuel(spec_meet_rest, 2);
    let f = (g - 1) as nat;
    if c is Bottom {
    } else if c == a {
        lemma_meet_of_included_at(a, b, g);
    } else if c == b {
        lemma_meet_of_included_at(b, a, g);
    } else if !(a == b || a is Bottom || b is Bottom || a is Any || b is Any) {
        lemma_flat_contains_depth(a, b, f, g);
        lemma_flat_contains_depth(b, a, f, g);
        match (a, b, c) {
            (
                KindV::Tensor { dtype: d1, shape: s1 },
                KindV::Tensor { dtype: d2, shape: s2 },
                KindV::Tensor { dtype: d3, shape: s3 },
            ) => {
                assert(shape_contains_spec(s1, s3));
                assert(shape_contains_spec(s2, s3));
                assert(shapes_agree(s1, s2)) by {
                    assert forall|i: int| 0 <= i < s1.len() implies #[trigger] dims_agree(s1[i], s2[i]) by {
                        assert(dim_contains(s1[i], s3[i]));
                        assert(dim_contains(s2[i], s3[i]));
                    }
                }
                let sm = shape_meet_spec(s1, s2);
                assert(shape_contains_spec(sm, s3)) by {
                    assert forall|i: int| 0 <= i < sm.len() implies #[trigger] dim_contains(sm[i], s3[i]) by {
                        assert(dim_contains(s1[i], s3[i]));
                        assert(dim_contains(s2[i], s3[i]));
                    }
                }
            },
            _ => {},
        }
    }
}

/// Among types that are flat or containers of flat types, the meet is the
/// greatest lower bound: every such type included in both arguments is
/// included in their meet, unless the arguments are two containers that
/// the lattice keeps apart.
pub proof fn law_container_meet_greatest(a: KindV, b: KindV, c: KindV)
    requires
        flat_kind(a) || shallow_container(a),
        flat_kind(b) || shallow_container(b),
        flat_kind(c) || shallow_container(c),
        containers_comparable(a, b),
        contains_spec(a, c),
        contains_spec(b, c),
    ensures
        contains_spec(meet_spec(a, b), c),
{
    law_lattice_idempotent(a);
    law_lattice_idempotent(b);
    law_lattice_extremes(a);
    law_lattice_extremes(b);
    law_lattice_extremes(meet_spec(a, b));
    if flat_kind(a) && flat_kind(b) && flat_kind(c) {
        law_meet_greatest(a, b, c);
    } else if c is Bottom || a == b || a is Any || b is Any {
    } else {
        lemma_container_meet_greatest_cases(a, b, c);
    }
}

#[verifier::spinoff_prover]
#[verifier::rlimit(100)]
proof fn lemma_container_meet_greatest_cases(a: KindV, b: KindV, c: KindV)
    requires
        flat_kind(a) || shallow_container(a),
        flat_kind(b) || shallow_container(b),
        flat_kind(c) || shallow_container(c),
        shallow_container(a) || shallow_container(b) || shallow_container(c),
        containers_comparable(a, b),
        contains_spec(a, c),
        contains_spec(b, c),
        !(c is Bottom || a == b || a is Any || b is Any),
    ensures
        contains_spec(meet_spec(a, b), c),
{
    reveal_with_fuel(spec_meet, 2);
    reveal_with_fuel(spec_meet_rest, 2);
    let d = LATTICE_DEPTH as nat;
    let f = (d - 1) as nat;
    match (a, b) {
        (KindV::Message { payload: p1, .. }, KindV::Message { payload: p2, .. }) => {
            if let KindV::Message { payload: p3, .. } = c {
                if c == a {
                    assert(spec_contains(*p1, *p3, f));
                }
                if c == b {
                    assert(spec_contains(*p2, *p3, f));
                }
                lemma_flat_meet_greatest_at(*p1, *p2, *p3, f);
            }
        },
        (
            KindV::StableTuple { element_types: ea, .. },
            KindV::StableTuple { element_types: eb, .. },
        ) => {
            if let KindV::StableTuple { element_types: ec, .. } = c {
                let n = ea.len();
                let em = spec_meet_zip(ea, eb, n, d);
                assert forall|k: int| 0 <= k < n implies spec_contains(#[trigger] em[k], ec[k], f) by {
                    if c == a {
                        assert(spec_contains(ea[k], ec[k], f));
                    } else {
                        lemma_all_contain_each(ea, ec, n, d, k);
                    }
                    if c == b {
                        assert(spec_contains(eb[k], ec[k], f));
                    } else {
                        lemma_all_contain_each(eb, ec, n, d, k);
                    }
                    lemma_flat_meet_greatest_at(ea[k], eb[k], ec[k], f);
                }
                lemma_all_contain_from(em, ec, n, d);
            }
        },
        (KindV::MapShape { keys: k1, values: v1 }, KindV::MapShape { keys: k2, values: v2 }) => {
            if let KindV::MapShape { values: v3, .. } = c {
                if k1 == k2 {
                    let n = v1.len();
                    let vm = spec_meet_zip(v1, v2, n, d);
                    assert(min_len(v1.len(), v2.len()) == n);
                    assert forall|k: int| 0 <= k < n implies spec_contains(#[trigger] vm[k], v3[k], f) by {
                        if c == a {
                            assert(spec_contains(v1[k], v3[k], f));
                        } else {
                            lemma_all_contain_each(v1, v3, n, d, k);
                        }
                        if c == b {
                            assert(spec_contains(v2[k], v3[k], f));
                        } else {
                            lemma_all_contain_each(v2, v3, n, d, k);
                        }
                        lemma_flat_meet_greatest_at(v1[k], v2[k], v3[k], f);
                    }
                    lemma_all_contain_from(vm, v3, n, d);
                }
            }
        },
        (KindV::Actor { accepts: a1, .. }, KindV::Actor { accepts: a2, .. }) => {
            if let KindV::Actor { accepts: a3, .. } = c {
                let pred = |m: KindV| a2.contains(m);
                let r = a1.filter(pred);
                assert(r == accepts_filter(a1, a2));
                assert forall|i: int| 0 <= i < a3.len() implies r.contains(#[trigger] a3[i]) by {
                    if c == a {
                        assert(a1[i] == a3[i]);
                        assert(a2.contains(a3[i]));
                        a1.lemma_filter_contains(pred, i);
                    } else {
                        assert(a1.contains(a3[i]));
                        let x = choose|x: int| 0 <= x < a1.len() && a1[x] == a3[i];
                        if c == b {
                            assert(a2[i] == a3[i]);
                        } else {
                            assert(a2.contains(a3[i]));
                        }
                        a1.lemma_filter_contains(pred, x);
                    }
                }
            }
        },
        _ => {
            if flat_kind(a) && flat_kind(b) {
                lemma_flat_contains_depth(a, b, f, d);
                lemma_flat_contains_depth(b, a, f, d);
            }
        },
    }
}

/// The type of a constant value: its general type.
pub open spec fn constant_type(cv: ConstantValue) -> TypeKind {
    match cv {
        ConstantValue::Int(_) => TypeKind::SmallInt,
        ConstantValue::Atom(_) => TypeKind::Atom,
        ConstantValue::Nil => TypeKind::Nil,
        ConstantValue::True => TypeKind::Boolean,
        ConstantValue::False => TypeKind::Boolean,
        ConstantValue::Float(_) => TypeKind::Float,
    }
}

impl From<ConstantValue> for IRType {
    /// The general type of a constant value: `smallint` for an integer,
    /// `atom`, `nil`, `boolean` or `float`.
    fn from(cv: ConstantValue) -> (r: Self) {
        match cv {
            ConstantValue::Int(_) => IRType::new(TypeKind::SmallInt),
            ConstantValue::Atom(_) => IRType::new(TypeKind::Atom),
            ConstantValue::Nil => IRType::new(TypeKind::Nil),
            ConstantValue::True => IRType::new(TypeKind::Boolean),
            ConstantValue::False => IRType::new(TypeKind::Boolean),
            ConstantValue::Float(_) => IRType::new(TypeKind::Float),
        }
    }
}

impl vstd::std_specs::convert::FromSpecImpl<ConstantValue> for IRType {
    open spec fn obeys_from_spec() -> bool {
        true
    }

    open spec fn from_spec(cv: ConstantValue) -> IRType {
        IRType { kind: constant_type(cv) }
    }
}

impl Default for IRType {
    fn default() -> (r: Self)
        ensures
            r@ == KindV::Any,
    {
        IRType::new(TypeKind::Any)
    }
}


// ── Type descriptors ──────────────────────────────────────────────────────

/// Runtime type descriptor emitted for every heap-allocated type: used by
/// the GC for precise tracing and by the AOT backend for layout and
/// specialization.
#[derive(Debug, Clone)]
pub struct TypeDescriptor {
    /// Total allocation size in bytes (header included).
    pub alloc_size: u32,
    /// Bitmap: bit N is set if word N of the payload is a GC-traced pointer.
    pub pointer_map: u64,
    /// Compiler-proven structural immutability.
    pub immutable: bool,
    /// Optional compact native layout for SIR promotion.
    pub native_layout: Option<NativeLayout>,
    /// Whether this type can be promoted to the Stable Immutable Region.
    pub promotable_to_stable: bool,
}

/// Compact memory layout used after SIR promotion.
#[derive(Debug, Clone)]
pub struct NativeLayout {
    /// Field descriptors in declaration order.
    pub fields: Vec<NativeField>,
    /// Total size of the compact representation in bytes.
    pub size: u32,
}

/// A field of a native layout.
#[derive(Debug, Clone, Copy, PartialEq, Eq, Structural)]
pub struct NativeField {
    /// Byte offset of the field
    pub offset: u32,
    /// What the field holds
    pub kind: NativeFieldKind,
}

/// What a native field holds.
#[derive(Debug, Clone, Copy, PartialEq, Eq, Structural)]
pub enum NativeFieldKind {
    /// A 64-bit integer
    I64,
    /// A 64-bit float
    F64,
    /// A pointer
    Ptr,
    /// Raw bytes
    Bytes { len: u32 },
}

/// The byte offsets of the pointer words of a bitmap, from the lowest bit
/// up: word `n` is at byte `n` times the size of a pointer.
pub open spec fn pointer_offsets_spec(pointer_map: u64, n: int) -> Seq<usize>
    decreases n,
{
    if n <= 0 {
        Seq::empty()
    } else {
        let rest = pointer_offsets_spec(pointer_map, n - 1);
        if pointer_map & (1u64 << ((n - 1) as u64)) != 0 {
            rest.push(((n - 1) * (usize::BITS / 8) as int) as usize)
        } else {
            rest
        }
    }
}

impl TypeDescriptor {
    /// The byte offsets of the pointer fields, in increasing order.
    pub fn pointer_offsets(&self) -> (r: Vec<usize>)
        ensures
            r@ == pointer_offsets_spec(self.pointer_map, 64),
    {
        let word = (usize::BITS / 8) as usize;
        let mut r: Vec<usize> = Vec::new();
        let mut bit: u64 = 0;
        while bit < 64
            invariant
                bit <= 64,
                word == usize::BITS / 8,
                r@ == pointer_offsets_spec(self.pointer_map, bit as int),
            decreases 64 - bit,
        {
            if self.pointer_map & (1u64 << bit) != 0 {
                assert(word <= 8) by {
                    assert(usize::BITS == 32 || usize::BITS == 64);
                }
                assert(bit * word <= 64 * 8) by (nonlinear_arith)
                    requires
                        bit < 64,
                        word <= 8,
                ;
                r.push(bit as usize * word);
            }
            bit = bit + 1;
        }
        r
    }
}

} // verus!
