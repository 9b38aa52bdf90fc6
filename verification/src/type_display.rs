//! The text form of types, as the compiler prints them in traces and
//! diagnostics: `smallint`, `tuple(2)`, `(smallint ∪ float)`,
//! `msg<atom, High>`, `rec<0: smallint>`, `spec<smallint>` and so on.

use crate::function::{decimal, i64_decimal, signed_decimal, u64_decimal};
use crate::type_system::{
    ActorLifecycle, ConstantValue, GuardV, IRType, KindV, MessagePriority, NativeResourceKind,
    SpeculativeGuard, TensorDtype, TypeKind, guard_view, kind_view, lemma_tys_view, tys_view,
};
use vstd::prelude::*;

verus! {

broadcast use vstd::seq::group_seq_axioms, vstd::std_specs::vec::group_vec_axioms;

/// The name of a message priority.
pub open spec fn priority_name(p: MessagePriority) -> Seq<char> {
    match p {
        MessagePriority::Low => "Low"@,
        MessagePriority::Normal => "Normal"@,
        MessagePriority::High => "High"@,
        MessagePriority::Critical => "Critical"@,
    }
}

/// The name of an actor lifecycle.
pub open spec fn lifecycle_name(l: ActorLifecycle) -> Seq<char> {
    match l {
        ActorLifecycle::Transient => "Transient"@,
        ActorLifecycle::Permanent => "Permanent"@,
        ActorLifecycle::Temporary => "Temporary"@,
        ActorLifecycle::Supervisor => "Supervisor"@,
    }
}

/// The name of a tensor element type.
pub open spec fn dtype_name(d: TensorDtype) -> Seq<char> {
    match d {
        TensorDtype::F32 => "F32"@,
        TensorDtype::F16 => "F16"@,
        TensorDtype::F64 => "F64"@,
        TensorDtype::I32 => "I32"@,
        TensorDtype::I64 => "I64"@,
        TensorDtype::U8 => "U8"@,
        TensorDtype::Bool => "Bool"@,
    }
}

/// The name of a native resource kind.
pub open spec fn resource_name(r: NativeResourceKind) -> Seq<char> {
    match r {
        NativeResourceKind::GpuContext => "GpuContext"@,
        NativeResourceKind::MlModel => "MlModel"@,
        NativeResourceKind::TensorBuffer => "TensorBuffer"@,
        NativeResourceKind::IoHandle => "IoHandle"@,
        NativeResourceKind::Socket => "Socket"@,
        NativeResourceKind::SharedMemory => "SharedMemory"@,
        NativeResourceKind::UiSurface => "UiSurface"@,
        NativeResourceKind::MediaDevice => "MediaDevice"@,
        NativeResourceKind::Opaque => "Opaque"@,
    }
}

/// The ownership flags of a capability.
pub open spec fn cap_flags(owned: bool, shareable: bool) -> Seq<char> {
    if owned && shareable {
        "owned+shared"@
    } else if owned {
        "owned"@
    } else if shareable {
        "shared"@
    } else {
        "borrowed"@
    }
}

/// The text of a constant.
pub open spec fn const_text(c: ConstantValue) -> Seq<char> {
    match c {
        ConstantValue::Int(i) => "const("@ + signed_decimal(i as int) + ")"@,
        ConstantValue::Atom(a) => "const(atom:"@ + decimal(a as nat) + ")"@,
        ConstantValue::Nil => "const(nil)"@,
        ConstantValue::True => "const(true)"@,
        ConstantValue::False => "const(false)"@,
        ConstantValue::Float(bits) => "const(float:"@ + decimal(bits as nat) + ")"@,
    }
}

/// The text of a tensor dimension: its size, or `?` when dynamic.
pub open spec fn dim_text(d: Option<u64>) -> Seq<char> {
    match d {
        Some(v) => decimal(v as nat),
        None => "?"@,
    }
}

/// The texts of the dimensions, separated by `, `.
pub open spec fn dims_text(s: Seq<Option<u64>>) -> Seq<char>
    decreases s.len(),
{
    if s.len() == 0 {
        Seq::empty()
    } else if s.len() == 1 {
        dim_text(s[0])
    } else {
        dims_text(s.drop_last()) + ", "@ + dim_text(s.last())
    }
}

/// The text of a flag, as `Debug` writes it.
pub open spec fn bool_text(b: bool) -> Seq<char> {
    if b {
        "true"@
    } else {
        "false"@
    }
}

/// The `Debug` text of a constant: `Int(5)`, `Atom(3)`, `Nil`, ...
pub open spec fn const_debug(c: ConstantValue) -> Seq<char> {
    match c {
        ConstantValue::Int(i) => "Int("@ + signed_decimal(i as int) + ")"@,
        ConstantValue::Atom(a) => "Atom("@ + decimal(a as nat) + ")"@,
        ConstantValue::Nil => "Nil"@,
        ConstantValue::True => "True"@,
        ConstantValue::False => "False"@,
        ConstantValue::Float(bits) => "Float("@ + decimal(bits as nat) + ")"@,
    }
}

/// The `Debug` text of a tensor dimension: `Some(3)` or `None`.
pub open spec fn dim_debug(d: Option<u64>) -> Seq<char> {
    match d {
        Some(v) => "Some("@ + decimal(v as nat) + ")"@,
        None => "None"@,
    }
}

/// The `Debug` texts of the dimensions, separated by `, `.
pub open spec fn dims_debug(s: Seq<Option<u64>>) -> Seq<char>
    decreases s.len(),
{
    if s.len() == 0 {
        Seq::empty()
    } else if s.len() == 1 {
        dim_debug(s[0])
    } else {
        dims_debug(s.drop_last()) + ", "@ + dim_debug(s.last())
    }
}

/// The decimal texts of the keys, separated by `, `.
pub open spec fn keys_debug(s: Seq<u32>) -> Seq<char>
    decreases s.len(),
{
    if s.len() == 0 {
        Seq::empty()
    } else if s.len() == 1 {
        decimal(s[0] as nat)
    } else {
        keys_debug(s.drop_last()) + ", "@ + decimal(s.last() as nat)
    }
}

/// The `Debug` text of a type of that kind: `IRType { kind: ... }`.
pub open spec fn ty_debug(k: KindV) -> Seq<char>
    decreases k, 1int,
{
    "IRType { kind: "@ + kind_debug(k) + " }"@
}

/// The `Debug` text of a type kind, as its derived `Debug` writes it
/// (the variant that holds any map is named `Map`).
pub open spec fn kind_debug(k: KindV) -> Seq<char>
    decreases k, 0int,
{
    match k {
        KindV::Any => "Any"@,
        KindV::Bottom => "Bottom"@,
        KindV::SmallInt => "SmallInt"@,
        KindV::NonNegInt => "NonNegInt"@,
        KindV::Int64 => "Int64"@,
        KindV::Float => "Float"@,
        KindV::Atom => "Atom"@,
        KindV::Boolean => "Boolean"@,
        KindV::Nil => "Nil"@,
        KindV::Cons => "Cons"@,
        KindV::List => "List"@,
        KindV::Tuple { arity } => "Tuple { arity: "@ + decimal(arity as nat) + " }"@,
        KindV::StableTuple { element_types, immutable } => "StableTuple { element_types: ["@ + tys_debug(
            element_types,
        ) + "], immutable: "@ + bool_text(immutable) + " }"@,
        KindV::AnyMap => "Map"@,
        KindV::Binary => "Binary"@,
        KindV::Fun { arity } => "Fun { arity: "@ + decimal(arity as nat) + " }"@,
        KindV::Pid => "Pid"@,
        KindV::Port => "Port"@,
        KindV::Reference => "Reference"@,
        KindV::Message { payload, priority } => "Message { payload: "@ + ty_debug(*payload) + ", priority: "@
            + priority_name(priority) + " }"@,
        KindV::Actor { accepts, lifecycle } => "Actor { accepts: ["@ + tys_debug(accepts) + "], lifecycle: "@
            + lifecycle_name(lifecycle) + " }"@,
        KindV::Tensor { dtype, shape } => "Tensor { dtype: "@ + dtype_name(dtype) + ", shape: ["@ + dims_debug(
            shape,
        ) + "] }"@,
        KindV::Capability { resource, owned, shareable } => "Capability { resource: "@ + resource_name(resource)
            + ", owned: "@ + bool_text(owned) + ", shareable: "@ + bool_text(shareable) + " }"@,
        KindV::Union(a, b) => "Union("@ + ty_debug(*a) + ", "@ + ty_debug(*b) + ")"@,
        KindV::Intersection(a, b) => "Intersection("@ + ty_debug(*a) + ", "@ + ty_debug(*b) + ")"@,
        KindV::Difference(a, b) => "Difference("@ + ty_debug(*a) + ", "@ + ty_debug(*b) + ")"@,
        KindV::Constant(c) => "Constant("@ + const_debug(c) + ")"@,
        KindV::MapShape { keys, values } => "MapShape { keys: ["@ + keys_debug(keys) + "], values: ["@ + tys_debug(
            values,
        ) + "] }"@,
        KindV::RecursiveVar { id, bound } => match bound {
            Some(b) => "RecursiveVar { id: "@ + decimal(id as nat) + ", bound: Some("@ + ty_debug(*b) + ") }"@,
            None => "RecursiveVar { id: "@ + decimal(id as nat) + ", bound: None }"@,
        },
        KindV::Dynamic => "Dynamic"@,
        KindV::Speculative { assumed, actual, guard } => "Speculative { assumed: "@ + ty_debug(*assumed)
            + ", actual: "@ + ty_debug(*actual) + ", guard: "@ + guard_debug(guard) + " }"@,
    }
}

/// The `Debug` texts of a list of types, separated by `, `.
pub open spec fn tys_debug(s: Seq<KindV>) -> Seq<char>
    decreases s, 0int,
{
    if s.len() == 0 {
        Seq::empty()
    } else if s.len() == 1 {
        ty_debug(s[0])
    } else {
        tys_debug(s.drop_last()) + ", "@ + ty_debug(s.last())
    }
}

/// The `Debug` text of a speculative guard, as its derived `Debug`
/// writes it.
pub open spec fn guard_debug(g: GuardV) -> Seq<char>
    decreases g, 0int,
{
    match g {
        GuardV::IsImmediate(k) => "IsImmediate("@ + kind_debug(*k) + ")"@,
        GuardV::IsComposite(k) => "IsComposite("@ + kind_debug(*k) + ")"@,
        GuardV::StableTupleShape { element_types } => "StableTupleShape { element_types: ["@ + tys_debug(
            element_types,
        ) + "] }"@,
        GuardV::MapShapeKeys { keys } => "MapShapeKeys { keys: ["@ + keys_debug(keys) + "] }"@,
        GuardV::IsConstant(c) => "IsConstant("@ + const_debug(c) + ")"@,
        GuardV::IsInUnion { alternatives } => "IsInUnion { alternatives: ["@ + tys_debug(alternatives) + "] }"@,
        GuardV::TensorSpec { dtype, shape } => "TensorSpec { dtype: "@ + dtype_name(dtype) + ", shape: ["@
            + dims_debug(shape) + "] }"@,
        GuardV::Trivial => "Trivial"@,
    }
}

/// The text of a type.
pub open spec fn display_spec(k: KindV) -> Seq<char>
    decreases k,
{
    match k {
        KindV::Any => "any"@,
        KindV::Bottom => "bottom"@,
        KindV::SmallInt => "smallint"@,
        KindV::NonNegInt => "nonnegint"@,
        KindV::Int64 => "int64"@,
        KindV::Float => "float"@,
        KindV::Atom => "atom"@,
        KindV::Boolean => "boolean"@,
        KindV::Nil => "nil"@,
        KindV::Cons => "cons"@,
        KindV::List => "list"@,
        KindV::Tuple { arity } => "tuple("@ + decimal(arity as nat) + ")"@,
        KindV::StableTuple { element_types, immutable } => (if immutable {
            "stable_tuple("@
        } else {
            "fixed_tuple("@
        }) + list_text(element_types) + ")"@,
        KindV::AnyMap => "map"@,
        KindV::Binary => "binary"@,
        KindV::Fun { arity } => "fun("@ + decimal(arity as nat) + ")"@,
        KindV::Pid => "pid"@,
        KindV::Port => "port"@,
        KindV::Reference => "reference"@,
        KindV::Message { payload, priority } => "msg<"@ + display_spec(*payload) + ", "@ + priority_name(
            priority,
        ) + ">"@,
        KindV::Actor { accepts, lifecycle } => "actor<"@ + lifecycle_name(lifecycle) + ", "@ + decimal(
            accepts.len(),
        ) + " msg>"@,
        KindV::Tensor { dtype, shape } => "tensor<"@ + dtype_name(dtype) + ", ["@ + dims_text(shape) + "]>"@,
        KindV::Capability { resource, owned, shareable } => "cap<"@ + resource_name(resource) + ", "@
            + cap_flags(owned, shareable) + ">"@,
        KindV::Union(a, b) => "("@ + display_spec(*a) + " ∪ "@ + display_spec(*b) + ")"@,
        KindV::Intersection(a, b) => "("@ + display_spec(*a) + " ∩ "@ + display_spec(*b) + ")"@,
        KindV::Difference(a, b) => "("@ + display_spec(*a) + " \\ "@ + display_spec(*b) + ")"@,
        KindV::MapShape { keys, values } => "map{"@ + pairs_text(keys, values) + "}"@,
        KindV::Constant(c) => const_text(c),
        KindV::RecursiveVar { id, bound } => match bound {
            Some(b) => "rec<"@ + decimal(id as nat) + ": "@ + display_spec(*b) + ">"@,
            None => "rec<"@ + decimal(id as nat) + ">"@,
        },
        KindV::Dynamic => "dynamic"@,
        KindV::Speculative { assumed, actual, guard } => if guard is Trivial {
            "spec<"@ + display_spec(*assumed) + ">"@
        } else {
            "spec<"@ + display_spec(*assumed) + " | "@ + display_spec(*actual) + ", "@ + guard_debug(guard)
                + ">"@
        },
    }
}

/// The texts of a list of types, separated by `, `.
pub open spec fn list_text(s: Seq<KindV>) -> Seq<char>
    decreases s,
{
    if s.len() == 0 {
        Seq::empty()
    } else if s.len() == 1 {
        display_spec(s[0])
    } else {
        list_text(s.drop_last()) + ", "@ + display_spec(s.last())
    }
}

/// The texts `atom(key): value` of the first `min(len)` keys and values,
/// separated by `, `.
pub open spec fn pairs_text(keys: Seq<u32>, values: Seq<KindV>) -> Seq<char>
    decreases values,
{
    let n = if keys.len() < values.len() { keys.len() } else { values.len() };
    if n == 0 {
        Seq::empty()
    } else {
        let item = "atom("@ + decimal(keys[n - 1] as nat) + "): "@ + display_spec(values[n - 1]);
        if n == 1 {
            item
        } else {
            pairs_text(keys.take(n - 1), values.take(n - 1)) + ", "@ + item
        }
    }
}


// ── Printing ──────────────────────────────────────────────────────────────

fn priority_str(p: MessagePriority) -> (r: &'static str)
    ensures
        r@ == priority_name(p),
{
    match p {
        MessagePriority::Low => "Low",
        MessagePriority::Normal => "Normal",
        MessagePriority::High => "High",
        MessagePriority::Critical => "Critical",
    }
}

fn lifecycle_str(l: ActorLifecycle) -> (r: &'static str)
    ensures
        r@ == lifecycle_name(l),
{
    match l {
        ActorLifecycle::Transient => "Transient",
        ActorLifecycle::Permanent => "Permanent",
        ActorLifecycle::Temporary => "Temporary",
        ActorLifecycle::Supervisor => "Supervisor",
    }
}

fn dtype_str(d: TensorDtype) -> (r: &'static str)
    ensures
        r@ == dtype_name(d),
{
    match d {
        TensorDtype::F32 => "F32",
        TensorDtype::F16 => "F16",
        TensorDtype::F64 => "F64",
        TensorDtype::I32 => "I32",
        TensorDtype::I64 => "I64",
        TensorDtype::U8 => "U8",
        TensorDtype::Bool => "Bool",
    }
}

fn resource_str(r: NativeResourceKind) -> (s: &'static str)
    ensures
        s@ == resource_name(r),
{
    match r {
        NativeResourceKind::GpuContext => "GpuContext",
        NativeResourceKind::MlModel => "MlModel",
        NativeResourceKind::TensorBuffer => "TensorBuffer",
        NativeResourceKind::IoHandle => "IoHandle",
        NativeResourceKind::Socket => "Socket",
        NativeResourceKind::SharedMemory => "SharedMemory",
        NativeResourceKind::UiSurface => "UiSurface",
        NativeResourceKind::MediaDevice => "MediaDevice",
        NativeResourceKind::Opaque => "Opaque",
    }
}

fn flags_str(owned: bool, shareable: bool) -> (r: &'static str)
    ensures
        r@ == cap_flags(owned, shareable),
{
    if owned && shareable {
        "owned+shared"
    } else if owned {
        "owned"
    } else if shareable {
        "shared"
    } else {
        "borrowed"
    }
}

fn const_string(c: ConstantValue) -> (r: String)
    ensures
        r@ == const_text(c),
{
    match c {
        ConstantValue::Int(i) => {
            let mut s = String::from_str("const(");
            let d = i64_decimal(i);
            s.append(d.as_str());
            s.append(")");
            s
        },
        ConstantValue::Atom(a) => {
            let mut s = String::from_str("const(atom:");
            let d = u64_decimal(a as u64);
            s.append(d.as_str());
            s.append(")");
            s
        },
        ConstantValue::Nil => String::from_str("const(nil)"),
        ConstantValue::True => String::from_str("const(true)"),
        ConstantValue::False => String::from_str("const(false)"),
        ConstantValue::Float(bits) => {
            let mut s = String::from_str("const(float:");
            let d = u64_decimal(bits);
            s.append(d.as_str());
            s.append(")");
            s
        },
    }
}

fn dims_string(shape: &Vec<Option<u64>>) -> (r: String)
    ensures
        r@ == dims_text(shape@),
{
    let mut s = String::new();
    let mut i: usize = 0;
    while i < shape.len()
        invariant
            i <= shape@.len(),
            s@ == dims_text(shape@.take(i as int)),
        decreases shape@.len() - i,
    {
        proof {
            assert(shape@.take(i + 1).drop_last() == shape@.take(i as int));
            assert(shape@.take(i + 1).last() == shape@[i as int]);
            if i == 0 {
                assert(shape@.take(1)[0] == shape@[0]);
            }
        }
        if i > 0 {
            s.append(", ");
        }
        match shape[i] {
            Some(v) => {
                let d = u64_decimal(v);
                s.append(d.as_str());
            },
            None => {
                s.append("?");
            },
        }
        i = i + 1;
    }
    proof {
        assert(shape@.take(shape@.len() as int) == shape@);
    }
    s
}

fn bool_str(b: bool) -> (r: &'static str)
    ensures
        r@ == bool_text(b),
{
    if b {
        "true"
    } else {
        "false"
    }
}

fn const_debug_string(c: ConstantValue) -> (r: String)
    ensures
        r@ == const_debug(c),
{
    match c {
        ConstantValue::Int(i) => {
            let mut s = String::from_str("Int(");
            let d = i64_decimal(i);
            s.append(d.as_str());
            s.append(")");
            s
        },
        ConstantValue::Atom(a) => {
            let mut s = String::from_str("Atom(");
            let d = u64_decimal(a as u64);
            s.append(d.as_str());
            s.append(")");
            s
        },
        ConstantValue::Nil => String::from_str("Nil"),
        ConstantValue::True => String::from_str("True"),
        ConstantValue::False => String::from_str("False"),
        ConstantValue::Float(bits) => {
            let mut s = String::from_str("Float(");
            let d = u64_decimal(bits);
            s.append(d.as_str());
            s.append(")");
            s
        },
    }
}

fn dims_debug_string(shape: &Vec<Option<u64>>) -> (r: String)
    ensures
        r@ == dims_debug(shape@),
{
    let mut s = String::new();
    let mut i: usize = 0;
    while i < shape.len()
        invariant
            i <= shape@.len(),
            s@ == dims_debug(shape@.take(i as int)),
        decreases shape@.len() - i,
    {
        proof {
            assert(shape@.take(i + 1).drop_last() == shape@.take(i as int));
            assert(shape@.take(i + 1).last() == shape@[i as int]);
            if i == 0 {
                assert(shape@.take(1)[0] == shape@[0]);
            }
        }
        if i > 0 {
            s.append(", ");
        }
        match shape[i] {
            Some(v) => {
                s.append("Some(");
                let d = u64_decimal(v);
                s.append(d.as_str());
                s.append(")");
            },
            None => {
                s.append("None");
            },
        }
        i = i + 1;
    }
    proof {
        assert(shape@.take(shape@.len() as int) == shape@);
    }
    s
}

fn keys_debug_string(keys: &Vec<u32>) -> (r: String)
    ensures
        r@ == keys_debug(keys@),
{
    let mut s = String::new();
    let mut i: usize = 0;
    while i < keys.len()
        invariant
            i <= keys@.len(),
            s@ == keys_debug(keys@.take(i as int)),
        decreases keys@.len() - i,
    {
        proof {
            assert(keys@.take(i + 1).drop_last() == keys@.take(i as int));
            assert(keys@.take(i + 1).last() == keys@[i as int]);
            if i == 0 {
                assert(keys@.take(1)[0] == keys@[0]);
            }
        }
        if i > 0 {
            s.append(", ");
        }
        let d = u64_decimal(keys[i] as u64);
        s.append(d.as_str());
        i = i + 1;
    }
    proof {
        assert(keys@.take(keys@.len() as int) == keys@);
    }
    s
}

/// The `Debug` text of a type: `IRType { kind: ... }`.
fn ty_debug_string(t: &IRType) -> (r: String)
    ensures
        r@ == ty_debug(t@),
    decreases t,
{
    let mut s = String::from_str("IRType { kind: ");
    let k = kind_debug_string(&t.kind);
    s.append(k.as_str());
    s.append(" }");
    s
}

/// The `Debug` texts of a list of types, separated by `, `.
fn tys_debug_string(v: &Vec<IRType>) -> (r: String)
    ensures
        r@ == tys_debug(tys_view(v@)),
    decreases v,
{
    proof {
        lemma_tys_view(v@);
    }
    let ghost tv = tys_view(v@);
    let mut s = String::new();
    let mut i: usize = 0;
    while i < v.len()
        invariant
            i <= v@.len() == tv.len(),
            tv == tys_view(v@),
            forall|j: int| 0 <= j < v@.len() ==> #[trigger] tv[j] == v@[j]@,
            s@ == tys_debug(tv.take(i as int)),
        decreases v@.len() - i,
    {
        proof {
            assert(tv.take(i + 1).drop_last() == tv.take(i as int));
            assert(tv.take(i + 1).last() == tv[i as int]);
            if i == 0 {
                assert(tv.take(1)[0] == tv[0]);
            }
            assert(decreases_to!(v => v@[i as int]));
        }
        if i > 0 {
            s.append(", ");
        }
        let d = ty_debug_string(&v[i]);
        s.append(d.as_str());
        i = i + 1;
    }
    proof {
        assert(tv.take(v@.len() as int) == tv);
    }
    s
}

/// The `Debug` text of a type kind.
fn kind_debug_string(k: &TypeKind) -> (r: String)
    ensures
        r@ == kind_debug(kind_view(*k)),
    decreases k,
{
    match k {
        TypeKind::Any => String::from_str("Any"),
        TypeKind::Bottom => String::from_str("Bottom"),
        TypeKind::SmallInt => String::from_str("SmallInt"),
        TypeKind::NonNegInt => String::from_str("NonNegInt"),
        TypeKind::Int64 => String::from_str("Int64"),
        TypeKind::Float => String::from_str("Float"),
        TypeKind::Atom => String::from_str("Atom"),
        TypeKind::Boolean => String::from_str("Boolean"),
        TypeKind::Nil => String::from_str("Nil"),
        TypeKind::Cons => String::from_str("Cons"),
        TypeKind::List => String::from_str("List"),
        TypeKind::Tuple { arity } => {
            let mut s = String::from_str("Tuple { arity: ");
            let d = u64_decimal(*arity as u64);
            s.append(d.as_str());
            s.append(" }");
            s
        },
        TypeKind::StableTuple { element_types, immutable } => {
            let mut s = String::from_str("StableTuple { element_types: [");
            let l = tys_debug_string(element_types);
            s.append(l.as_str());
            s.append("], immutable: ");
            s.append(bool_str(*immutable));
            s.append(" }");
            s
        },
        TypeKind::AnyMap => String::from_str("Map"),
        TypeKind::Binary => String::from_str("Binary"),
        TypeKind::Fun { arity } => {
            let mut s = String::from_str("Fun { arity: ");
            let d = u64_decimal(*arity as u64);
            s.append(d.as_str());
            s.append(" }");
            s
        },
        TypeKind::Pid => String::from_str("Pid"),
        TypeKind::Port => String::from_str("Port"),
        TypeKind::Reference => String::from_str("Reference"),
        TypeKind::Message { payload, priority } => {
            let mut s = String::from_str("Message { payload: ");
            let p = ty_debug_string(payload);
            s.append(p.as_str());
            s.append(", priority: ");
            s.append(priority_str(*priority));
            s.append(" }");
            s
        },
        TypeKind::Actor { accepts, lifecycle } => {
            let mut s = String::from_str("Actor { accepts: [");
            let l = tys_debug_string(accepts);
            s.append(l.as_str());
            s.append("], lifecycle: ");
            s.append(lifecycle_str(*lifecycle));
            s.append(" }");
            s
        },
        TypeKind::Tensor { dtype, shape } => {
            let mut s = String::from_str("Tensor { dtype: ");
            s.append(dtype_str(*dtype));
            s.append(", shape: [");
            let d = dims_debug_string(shape);
            s.append(d.as_str());
            s.append("] }");
            s
        },
        TypeKind::Capability { resource, owned, shareable } => {
            let mut s = String::from_str("Capability { resource: ");
            s.append(resource_str(*resource));
            s.append(", owned: ");
            s.append(bool_str(*owned));
            s.append(", shareable: ");
            s.append(bool_str(*shareable));
            s.append(" }");
            s
        },
        TypeKind::Union(a, b) => {
            let mut s = String::from_str("Union(");
            let x = ty_debug_string(a);
            s.append(x.as_str());
            s.append(", ");
            let y = ty_debug_string(b);
            s.append(y.as_str());
            s.append(")");
            s
        },
        TypeKind::Intersection(a, b) => {
            let mut s = String::from_str("Intersection(");
            let x = ty_debug_string(a);
            s.append(x.as_str());
            s.append(", ");
            let y = ty_debug_string(b);
            s.append(y.as_str());
            s.append(")");
            s
        },
        TypeKind::Difference(a, b) => {
            let mut s = String::from_str("Difference(");
            let x = ty_debug_string(a);
            s.append(x.as_str());
            s.append(", ");
            let y = ty_debug_string(b);
            s.append(y.as_str());
            s.append(")");
            s
        },
        TypeKind::Constant(c) => {
            let mut s = String::from_str("Constant(");
            let x = const_debug_string(*c);
            s.append(x.as_str());
            s.append(")");
            s
        },
        TypeKind::MapShape { keys, values } => {
            let mut s = String::from_str("MapShape { keys: [");
            let x = keys_debug_string(keys);
            s.append(x.as_str());
            s.append("], values: [");
            let y = tys_debug_string(values);
            s.append(y.as_str());
            s.append("] }");
            s
        },
        TypeKind::RecursiveVar { id, bound } => {
            let mut s = String::from_str("RecursiveVar { id: ");
            let d = u64_decimal(*id as u64);
            s.append(d.as_str());
            match bound {
                Some(b) => {
                    s.append(", bound: Some(");
                    let x = ty_debug_string(b);
                    s.append(x.as_str());
                    s.append(") }");
                },
                None => {
                    s.append(", bound: None }");
                },
            }
            s
        },
        TypeKind::Dynamic => String::from_str("Dynamic"),
        TypeKind::Speculative { assumed, actual, guard } => {
            let mut s = String::from_str("Speculative { assumed: ");
            let x = ty_debug_string(assumed);
            s.append(x.as_str());
            s.append(", actual: ");
            let y = ty_debug_string(actual);
            s.append(y.as_str());
            s.append(", guard: ");
            let g = guard_debug_string(guard);
            s.append(g.as_str());
            s.append(" }");
            s
        },
    }
}

/// The `Debug` text of a speculative guard.
fn guard_debug_string(g: &SpeculativeGuard) -> (r: String)
    ensures
        r@ == guard_debug(guard_view(*g)),
    decreases g,
{
    match g {
        SpeculativeGuard::IsImmediate(k) => {
            let mut s = String::from_str("IsImmediate(");
            let x = kind_debug_string(k);
            s.append(x.as_str());
            s.append(")");
            s
        },
        SpeculativeGuard::IsComposite(k) => {
            let mut s = String::from_str("IsComposite(");
            let x = kind_debug_string(k);
            s.append(x.as_str());
            s.append(")");
            s
        },
        SpeculativeGuard::StableTupleShape { element_types } => {
            let mut s = String::from_str("StableTupleShape { element_types: [");
            let x = tys_debug_string(element_types);
            s.append(x.as_str());
            s.append("] }");
            s
        },
        SpeculativeGuard::MapShapeKeys { keys } => {
            let mut s = String::from_str("MapShapeKeys { keys: [");
            let x = keys_debug_string(keys);
            s.append(x.as_str());
            s.append("] }");
            s
        },
        SpeculativeGuard::IsConstant(c) => {
            let mut s = String::from_str("IsConstant(");
            let x = const_debug_string(*c);
            s.append(x.as_str());
            s.append(")");
            s
        },
        SpeculativeGuard::IsInUnion { alternatives } => {
            let mut s = String::from_str("IsInUnion { alternatives: [");
            let x = tys_debug_string(alternatives);
            s.append(x.as_str());
            s.append("] }");
            s
        },
        SpeculativeGuard::TensorSpec { dtype, shape } => {
            let mut s = String::from_str("TensorSpec { dtype: ");
            s.append(dtype_str(*dtype));
            s.append(", shape: [");
            let d = dims_debug_string(shape);
            s.append(d.as_str());
            s.append("] }");
            s
        },
        SpeculativeGuard::Trivial => String::from_str("Trivial"),
    }
}

/// The texts of a list of types, separated by `, `.
fn display_list(v: &Vec<IRType>) -> (r: String)
    ensures
        r@ == list_text(tys_view(v@)),
    decreases v,
{
    proof {
        lemma_tys_view(v@);
    }
    let ghost tv = tys_view(v@);
    let mut s = String::new();
    let mut i: usize = 0;
    while i < v.len()
        invariant
            i <= v@.len() == tv.len(),
            tv == tys_view(v@),
            forall|j: int| 0 <= j < v@.len() ==> #[trigger] tv[j] == v@[j]@,
            s@ == list_text(tv.take(i as int)),
        decreases v@.len() - i,
    {
        proof {
            assert(tv.take(i + 1).drop_last() == tv.take(i as int));
            assert(tv.take(i + 1).last() == tv[i as int]);
            if i == 0 {
                assert(tv.take(1)[0] == tv[0]);
            }
            assert(decreases_to!(v => v@[i as int]));
        }
        if i > 0 {
            s.append(", ");
        }
        let d = display_type(&v[i]);
        s.append(d.as_str());
        i = i + 1;
    }
    proof {
        assert(tv.take(v@.len() as int) == tv);
    }
    s
}

/// The texts `atom(key): value` of a map shape, separated by `, `.
fn pairs_string(keys: &Vec<u32>, values: &Vec<IRType>) -> (r: String)
    ensures
        r@ == pairs_text(keys@, tys_view(values@)),
    decreases values,
{
    proof {
        lemma_tys_view(values@);
    }
    let ghost tv = tys_view(values@);
    let n = if keys.len() < values.len() { keys.len() } else { values.len() };
    let mut s = String::new();
    let mut i: usize = 0;
    while i < n
        invariant
            i <= n,
            n == if keys@.len() < values@.len() { keys@.len() } else { values@.len() },
            tv == tys_view(values@),
            tv.len() == values@.len(),
            forall|j: int| 0 <= j < values@.len() ==> #[trigger] tv[j] == values@[j]@,
            s@ == pairs_text(keys@.take(i as int), tv.take(i as int)),
        decreases n - i,
    {
        proof {
            assert(keys@.take(i + 1).take(i as int) == keys@.take(i as int));
            assert(tv.take(i + 1).take(i as int) == tv.take(i as int));
            assert(keys@.take(i + 1)[i as int] == keys@[i as int]);
            assert(tv.take(i + 1)[i as int] == tv[i as int]);
            assert(decreases_to!(values => values@[i as int]));
        }
        if i > 0 {
            s.append(", ");
        }
        s.append("atom(");
        let k = u64_decimal(keys[i] as u64);
        s.append(k.as_str());
        s.append("): ");
        let d = display_type(&values[i]);
        s.append(d.as_str());
        i = i + 1;
    }
    proof {
        let m = if keys@.len() < values@.len() { keys@.len() } else { values@.len() };
        if keys@.len() < values@.len() {
            assert(keys@.take(n as int) == keys@);
        } else {
            assert(tv.take(n as int) == tv);
        }
        lemma_pairs_text_trim(keys@, tv);
    }
    s
}

proof fn lemma_pairs_text_trim(keys: Seq<u32>, values: Seq<KindV>)
    ensures
        ({
            let n = if keys.len() < values.len() { keys.len() } else { values.len() };
            pairs_text(keys, values) == pairs_text(keys.take(n as int), values.take(n as int))
        }),
{
    let n = if keys.len() < values.len() { keys.len() } else { values.len() };
    let k2 = keys.take(n as int);
    let v2 = values.take(n as int);
    if n > 0 {
        assert(k2.take(n - 1) == keys.take(n - 1));
        assert(v2.take(n - 1) == values.take(n - 1));
        assert(k2[n - 1] == keys[n - 1]);
        assert(v2[n - 1] == values[n - 1]);
    }
}

/// The text of a type.
pub fn display_type(t: &IRType) -> (r: String)
    ensures
        r@ == display_spec(t@),
    decreases t,
{
    match &t.kind {
        TypeKind::Any => String::from_str("any"),
        TypeKind::Bottom => String::from_str("bottom"),
        TypeKind::SmallInt => String::from_str("smallint"),
        TypeKind::NonNegInt => String::from_str("nonnegint"),
        TypeKind::Int64 => String::from_str("int64"),
        TypeKind::Float => String::from_str("float"),
        TypeKind::Atom => String::from_str("atom"),
        TypeKind::Boolean => String::from_str("boolean"),
        TypeKind::Nil => String::from_str("nil"),
        TypeKind::Cons => String::from_str("cons"),
        TypeKind::List => String::from_str("list"),
        TypeKind::Tuple { arity } => {
            let mut s = String::from_str("tuple(");
            let d = u64_decimal(*arity as u64);
            s.append(d.as_str());
            s.append(")");
            s
        },
        TypeKind::StableTuple { element_types, immutable } => {
            let mut s = if *immutable {
                String::from_str("stable_tuple(")
            } else {
                String::from_str("fixed_tuple(")
            };
            let l = display_list(element_types);
            s.append(l.as_str());
            s.append(")");
            s
        },
        TypeKind::AnyMap => String::from_str("map"),
        TypeKind::Binary => String::from_str("binary"),
        TypeKind::Fun { arity } => {
            let mut s = String::from_str("fun(");
            let d = u64_decimal(*arity as u64);
            s.append(d.as_str());
            s.append(")");
            s
        },
        TypeKind::Pid => String::from_str("pid"),
        TypeKind::Port => String::from_str("port"),
        TypeKind::Reference => String::from_str("reference"),
        TypeKind::Message { payload, priority } => {
            let mut s = String::from_str("msg<");
            let p = display_type(payload);
            s.append(p.as_str());
            s.append(", ");
            s.append(priority_str(*priority));
            s.append(">");
            s
        },
        TypeKind::Actor { accepts, lifecycle } => {
            proof {
                lemma_tys_view(accepts@);
            }
            let mut s = String::from_str("actor<");
            s.append(lifecycle_str(*lifecycle));
            s.append(", ");
            let d = u64_decimal(accepts.len() as u64);
            s.append(d.as_str());
            s.append(" msg>");
            s
        },
        TypeKind::Tensor { dtype, shape } => {
            let mut s = String::from_str("tensor<");
            s.append(dtype_str(*dtype));
            s.append(", [");
            let d = dims_string(shape);
            s.append(d.as_str());
            s.append("]>");
            s
        },
        TypeKind::Capability { resource, owned, shareable } => {
            let mut s = String::from_str("cap<");
            s.append(resource_str(*resource));
            s.append(", ");
            s.append(flags_str(*owned, *shareable));
            s.append(">");
            s
        },
        TypeKind::Union(a, b) => {
            let mut s = String::from_str("(");
            let x = display_type(a);
            s.append(x.as_str());
            s.append(" ∪ ");
            let y = display_type(b);
            s.append(y.as_str());
            s.append(")");
            s
        },
        TypeKind::Intersection(a, b) => {
            let mut s = String::from_str("(");
            let x = display_type(a);
            s.append(x.as_str());
            s.append(" ∩ ");
            let y = display_type(b);
            s.append(y.as_str());
            s.append(")");
            s
        },
        TypeKind::Difference(a, b) => {
            let mut s = String::from_str("(");
            let x = display_type(a);
            s.append(x.as_str());
            s.append(" \\ ");
            let y = display_type(b);
            s.append(y.as_str());
            s.append(")");
            s
        },
        TypeKind::MapShape { keys, values } => {
            let mut s = String::from_str("map{");
            let p = pairs_string(keys, values);
            s.append(p.as_str());
            s.append("}");
            s
        },
        TypeKind::Constant(c) => const_string(*c),
        TypeKind::RecursiveVar { id, bound } => {
            let mut s = String::from_str("rec<");
            let d = u64_decimal(*id as u64);
            s.append(d.as_str());
            match bound {
                Some(b) => {
                    s.append(": ");
                    let x = display_type(b);
                    s.append(x.as_str());
                },
                None => {},
            }
            s.append(">");
            s
        },
        TypeKind::Dynamic => String::from_str("dynamic"),
        TypeKind::Speculative { assumed, actual, guard } => {
            let mut s = String::from_str("spec<");
            let x = display_type(assumed);
            s.append(x.as_str());
            if !guard.is_trivial() {
                s.append(" | ");
                let y = display_type(actual);
                s.append(y.as_str());
                s.append(", ");
                let g = guard_debug_string(guard);
                s.append(g.as_str());
            }
            s.append(">");
            s
        },
    }
}

impl IRType {
    /// The text of this type: `smallint`, `tuple(2)`, `(smallint ∪
    /// float)`, `msg<atom, High>`, `rec<0: smallint>`, `spec<smallint>`
    /// and so on.
    pub fn display(&self) -> (r: String)
        ensures
            r@ == display_spec(self@),
    {
        display_type(self)
    }
}

} // verus!
