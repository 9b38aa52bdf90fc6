use dala_ir::type_system::{
    ConstantValue, IRType, MessagePriority, NativeResourceKind, SpeculativeGuard, TensorDtype,
    TypeDescriptor, TypeKind,
};

#[test]
fn test_stable_tuple_join_matching() {
    let a = IRType::new(TypeKind::StableTuple {
        element_types: vec![IRType::new(TypeKind::SmallInt), IRType::new(TypeKind::Atom)],
        immutable: true,
    });
    let b = IRType::new(TypeKind::StableTuple {
        element_types: vec![
            IRType::new(TypeKind::NonNegInt),
            IRType::new(TypeKind::Atom),
        ],
        immutable: true,
    });
    let joined = a.join(&b);
    assert!(matches!(
        joined.kind,
        TypeKind::StableTuple {
            immutable: true,
            ..
        }
    ));
}

#[test]
fn test_stable_tuple_join_mismatch_arity() {
    let a = IRType::new(TypeKind::StableTuple {
        element_types: vec![IRType::new(TypeKind::SmallInt)],
        immutable: true,
    });
    let b = IRType::new(TypeKind::StableTuple {
        element_types: vec![IRType::new(TypeKind::SmallInt), IRType::new(TypeKind::Atom)],
        immutable: true,
    });
    let joined = a.join(&b);
    // Falls back to regular Tuple
    assert!(matches!(joined.kind, TypeKind::Tuple { arity: 2 }));
}

#[test]
fn test_message_type_priority() {
    let msg = IRType::new(TypeKind::Message {
        payload: Box::new(IRType::new(TypeKind::Tuple { arity: 2 })),
        priority: MessagePriority::High,
    });
    assert_eq!(msg.message_priority(), Some(MessagePriority::High));
    assert!(msg.is_message());
}

#[test]
fn test_tensor_type() {
    let t = IRType::new(TypeKind::Tensor {
        dtype: TensorDtype::F32,
        shape: vec![Some(1), Some(224), Some(224), Some(3)],
    });
    assert!(t.is_tensor());
    assert_eq!(t.tensor_shape().unwrap().len(), 4);
}

#[test]
fn test_capability_type() {
    let cap = IRType::new(TypeKind::Capability {
        resource: NativeResourceKind::GpuContext,
        owned: true,
        shareable: false,
    });
    assert!(cap.is_capability());
    assert_eq!(
        cap.capability_resource(),
        Some(NativeResourceKind::GpuContext)
    );
}

#[test]
fn test_immutable_predicate() {
    assert!(IRType::new(TypeKind::Nil).is_immutable());
    assert!(IRType::new(TypeKind::SmallInt).is_immutable());
    assert!(IRType::new(TypeKind::Atom).is_immutable());
    assert!(!IRType::new(TypeKind::Cons).is_immutable());
    assert!(!IRType::new(TypeKind::Tuple { arity: 2 }).is_immutable());

    let stable = IRType::new(TypeKind::StableTuple {
        element_types: vec![IRType::new(TypeKind::SmallInt)],
        immutable: true,
    });
    assert!(stable.is_immutable());
}

#[test]
fn test_message_join_takes_higher_priority() {
    let low = IRType::new(TypeKind::Message {
        payload: Box::new(IRType::new(TypeKind::SmallInt)),
        priority: MessagePriority::Low,
    });
    let high = IRType::new(TypeKind::Message {
        payload: Box::new(IRType::new(TypeKind::SmallInt)),
        priority: MessagePriority::High,
    });
    let joined = low.join(&high);
    assert_eq!(joined.message_priority(), Some(MessagePriority::High));
}

#[test]
fn test_type_descriptor_pointer_offsets() {
    let desc = TypeDescriptor {
        alloc_size: 32,
        pointer_map: 0b0000_1010,
        immutable: true,
        native_layout: None,
        promotable_to_stable: true,
    };
    let offsets: Vec<usize> = desc.pointer_offsets();
    // Bits 1 and 3 are set → offsets 8 and 24 (on 64-bit)
    assert_eq!(offsets, vec![8, 24]);
}

#[test]
fn test_union_subtyping() {
    // Union(A, B).contains(C) when C is a subtype of A
    let union = IRType::new(TypeKind::Union(
        Box::new(IRType::new(TypeKind::SmallInt)),
        Box::new(IRType::new(TypeKind::Atom)),
    ));
    // NonNegInt is a subtype of SmallInt
    assert!(union.contains(&IRType::new(TypeKind::NonNegInt)));
    // Constant Int(42) is a subtype of SmallInt
    assert!(union.contains(&IRType::new(TypeKind::Constant(ConstantValue::Int(42)))));
    // Atom is directly in the union
    assert!(union.contains(&IRType::new(TypeKind::Atom)));
    // Float is not in the union
    assert!(!union.contains(&IRType::new(TypeKind::Float)));
}

#[test]
fn test_intersection_subtyping() {
    // Intersection(A, B).contains(C) when C is a subtype of both A and B
    let intersection = IRType::new(TypeKind::Intersection(
        Box::new(IRType::new(TypeKind::SmallInt)),
        Box::new(IRType::new(TypeKind::NonNegInt)),
    ));
    // NonNegInt is a subtype of both SmallInt and NonNegInt
    assert!(intersection.contains(&IRType::new(TypeKind::NonNegInt)));
    // Constant Int(0) is a subtype of both SmallInt and NonNegInt
    assert!(intersection.contains(&IRType::new(TypeKind::Constant(ConstantValue::Int(0)))));
    // Constant Int(-1) is a subtype of SmallInt but not NonNegInt
    assert!(!intersection.contains(&IRType::new(TypeKind::Constant(ConstantValue::Int(-1)))));
}

#[test]
fn test_difference_type() {
    // Difference(A, B) removes values from A that are in B
    let diff = IRType::new(TypeKind::Difference(
        Box::new(IRType::new(TypeKind::SmallInt)),
        Box::new(IRType::new(TypeKind::NonNegInt)),
    ));
    // Negative ints are in SmallInt but not NonNegInt, so they should be in the difference
    assert!(diff.contains(&IRType::new(TypeKind::Constant(ConstantValue::Int(-1)))));
    // NonNegInt values should be removed
    assert!(!diff.contains(&IRType::new(TypeKind::NonNegInt)));
    // Constant Int(0) is NonNegInt, so should be removed
    assert!(!diff.contains(&IRType::new(TypeKind::Constant(ConstantValue::Int(0)))));
}

#[test]
fn test_map_shape_join_matching() {
    // MapShape join with matching keys joins value types
    let a = IRType::new(TypeKind::MapShape {
        keys: vec![1, 2],
        values: vec![IRType::new(TypeKind::SmallInt), IRType::new(TypeKind::Atom)],
    });
    let b = IRType::new(TypeKind::MapShape {
        keys: vec![1, 2],
        values: vec![
            IRType::new(TypeKind::NonNegInt),
            IRType::new(TypeKind::Atom),
        ],
    });
    let joined = a.join(&b);
    assert!(joined.is_map_shape());
    let (_, values) = joined.map_shape().unwrap();
    // SmallInt.join(NonNegInt) = SmallInt
    assert!(matches!(values[0].kind, TypeKind::SmallInt));
    // Atom.join(Atom) = Atom
    assert!(matches!(values[1].kind, TypeKind::Atom));
}

#[test]
fn test_map_shape_join_mismatching() {
    // MapShape join with different keys falls back to Map
    let a = IRType::new(TypeKind::MapShape {
        keys: vec![1, 2],
        values: vec![IRType::new(TypeKind::SmallInt), IRType::new(TypeKind::Atom)],
    });
    let b = IRType::new(TypeKind::MapShape {
        keys: vec![3, 4],
        values: vec![IRType::new(TypeKind::Float), IRType::new(TypeKind::Boolean)],
    });
    let joined = a.join(&b);
    assert!(matches!(joined.kind, TypeKind::AnyMap));
}

#[test]
fn test_map_shape_meet() {
    // MapShape meet with matching keys meets value types
    let a = IRType::new(TypeKind::MapShape {
        keys: vec![1, 2],
        values: vec![IRType::new(TypeKind::SmallInt), IRType::new(TypeKind::Atom)],
    });
    let b = IRType::new(TypeKind::MapShape {
        keys: vec![1, 2],
        values: vec![
            IRType::new(TypeKind::NonNegInt),
            IRType::new(TypeKind::Boolean),
        ],
    });
    let met = a.meet(&b);
    assert!(met.is_map_shape());
    let (_, values) = met.map_shape().unwrap();
    // SmallInt.meet(NonNegInt) = NonNegInt
    assert!(matches!(values[0].kind, TypeKind::NonNegInt));
    // Atom.meet(Boolean) — no specific meet rule, falls to generic fallback
    // Atom does not contain Boolean and Boolean does not contain Atom,
    // so the meet is Bottom
    assert!(matches!(values[1].kind, TypeKind::Bottom));
}

#[test]
fn test_map_shape_subtyping() {
    // Map contains MapShape
    let map = IRType::new(TypeKind::AnyMap);
    let shape = IRType::new(TypeKind::MapShape {
        keys: vec![1],
        values: vec![IRType::new(TypeKind::SmallInt)],
    });
    assert!(map.contains(&shape));

    // MapShape subtyping is element-wise: wider value types in the container
    let shape_a = IRType::new(TypeKind::MapShape {
        keys: vec![1],
        values: vec![IRType::new(TypeKind::Int64)],
    });
    let shape_b = IRType::new(TypeKind::MapShape {
        keys: vec![1],
        values: vec![IRType::new(TypeKind::SmallInt)],
    });
    // shape_a has Int64 value, shape_b has SmallInt value
    // Int64.contains(SmallInt) is true, so shape_a.contains(shape_b) should be true
    assert!(shape_a.contains(&shape_b));
    // SmallInt does NOT contain Int64, so shape_b does NOT contain shape_a
    assert!(!shape_b.contains(&shape_a));
}

#[test]
fn test_exhaustiveness_boolean() {
    // [true, false] is exhaustive for boolean
    let boolean = IRType::new(TypeKind::Boolean);
    let patterns = vec![
        IRType::new(TypeKind::Constant(ConstantValue::True)),
        IRType::new(TypeKind::Constant(ConstantValue::False)),
    ];
    assert!(boolean.is_exhaustive(&patterns));
}

#[test]
fn test_exhaustiveness_list() {
    // [nil, cons] is exhaustive for list
    let list = IRType::new(TypeKind::List);
    let patterns = vec![IRType::new(TypeKind::Nil), IRType::new(TypeKind::Cons)];
    assert!(list.is_exhaustive(&patterns));
}

#[test]
fn test_exhaustiveness_non_exhaustive() {
    // [const(0)] is NOT exhaustive for SmallInt
    let smallint = IRType::new(TypeKind::SmallInt);
    let patterns = vec![IRType::new(TypeKind::Constant(ConstantValue::Int(0)))];
    assert!(!smallint.is_exhaustive(&patterns));

    // [true] alone is NOT exhaustive for boolean
    let boolean = IRType::new(TypeKind::Boolean);
    let patterns = vec![IRType::new(TypeKind::Constant(ConstantValue::True))];
    assert!(!boolean.is_exhaustive(&patterns));
}

#[test]
fn test_uncovered_type() {
    // uncovered_by returns the uncovered portion
    let smallint = IRType::new(TypeKind::SmallInt);
    let patterns = vec![IRType::new(TypeKind::Constant(ConstantValue::Int(0)))];
    let uncovered = smallint.uncovered_by(&patterns);
    // Should not be Bottom — there are many SmallInt values not covered by const(0)
    assert!(uncovered.kind != TypeKind::Bottom);

    // subtract is conservative: List \ Nil = Difference(List, Nil)
    // and Difference(List, Nil) \ Cons remains Difference (not Bottom)
    // because subtract can't prove the Difference contains Cons.
    // This is expected — subtract is a conservative approximation.
    let list = IRType::new(TypeKind::List);
    let _uncovered = list.uncovered_by(&vec![
        IRType::new(TypeKind::Nil),
        IRType::new(TypeKind::Cons),
    ]);
    // The result is not Bottom because subtract is conservative,
    // but is_exhaustive correctly returns true via join+contains.
    assert!(list.is_exhaustive(&[IRType::new(TypeKind::Nil), IRType::new(TypeKind::Cons),]));
}

#[test]
fn test_type_normalization_absorption() {
    // SmallInt | Int64 → Int64 (since Int64 contains SmallInt)
    let union = IRType::new(TypeKind::Union(
        Box::new(IRType::new(TypeKind::SmallInt)),
        Box::new(IRType::new(TypeKind::Int64)),
    ));
    let normalized = union.normalize();
    assert!(matches!(normalized.kind, TypeKind::Int64));

    // NonNegInt | SmallInt → SmallInt (since SmallInt contains NonNegInt)
    let union2 = IRType::new(TypeKind::Union(
        Box::new(IRType::new(TypeKind::NonNegInt)),
        Box::new(IRType::new(TypeKind::SmallInt)),
    ));
    let normalized2 = union2.normalize();
    assert!(matches!(normalized2.kind, TypeKind::SmallInt));
}

#[test]
fn test_type_normalization_flatten() {
    // (A | B) | C should flatten to A | B | C
    let nested = IRType::new(TypeKind::Union(
        Box::new(IRType::new(TypeKind::Union(
            Box::new(IRType::new(TypeKind::SmallInt)),
            Box::new(IRType::new(TypeKind::Atom)),
        ))),
        Box::new(IRType::new(TypeKind::Float)),
    ));
    let normalized = nested.normalize();
    // After normalization, union_arity should be 3 (flattened)
    assert_eq!(normalized.union_arity(), 3);
}

#[test]
fn test_union_arity() {
    // A simple type has arity 1
    assert_eq!(IRType::new(TypeKind::SmallInt).union_arity(), 1);

    // A union of two types has arity 2
    let union = IRType::new(TypeKind::Union(
        Box::new(IRType::new(TypeKind::SmallInt)),
        Box::new(IRType::new(TypeKind::Atom)),
    ));
    assert_eq!(union.union_arity(), 2);

    // A nested union (A | B) | C has arity 3
    let nested = IRType::new(TypeKind::Union(
        Box::new(IRType::new(TypeKind::Union(
            Box::new(IRType::new(TypeKind::SmallInt)),
            Box::new(IRType::new(TypeKind::Atom)),
        ))),
        Box::new(IRType::new(TypeKind::Float)),
    ));
    assert_eq!(nested.union_arity(), 3);
}

#[test]
fn test_is_singleton() {
    // Constants are singletons
    assert!(IRType::new(TypeKind::Constant(ConstantValue::Int(42))).is_singleton());
    assert!(IRType::new(TypeKind::Constant(ConstantValue::Atom(42))).is_singleton());
    assert!(IRType::new(TypeKind::Constant(ConstantValue::True)).is_singleton());
    assert!(IRType::new(TypeKind::Constant(ConstantValue::False)).is_singleton());
    assert!(IRType::new(TypeKind::Constant(ConstantValue::Nil)).is_singleton());

    // Non-constants are not singletons
    assert!(!IRType::new(TypeKind::SmallInt).is_singleton());
    assert!(!IRType::new(TypeKind::Boolean).is_singleton());
    assert!(!IRType::new(TypeKind::Atom).is_singleton());
    assert!(!IRType::new(TypeKind::Float).is_singleton());
}

#[test]
fn test_is_empty() {
    // Bottom type is empty
    assert!(IRType::new(TypeKind::Bottom).is_empty());

    // Other types are not empty
    assert!(!IRType::new(TypeKind::Any).is_empty());
    assert!(!IRType::new(TypeKind::SmallInt).is_empty());
    assert!(!IRType::new(TypeKind::Constant(ConstantValue::Int(0))).is_empty());
}

#[test]
fn test_is_any() {
    // Any type
    assert!(IRType::new(TypeKind::Any).is_any());

    // Other types are not Any
    assert!(!IRType::new(TypeKind::Bottom).is_any());
    assert!(!IRType::new(TypeKind::SmallInt).is_any());
    assert!(!IRType::new(TypeKind::Boolean).is_any());
}

#[test]
fn test_compound_predicates() {
    let union = IRType::new(TypeKind::Union(
        Box::new(IRType::new(TypeKind::SmallInt)),
        Box::new(IRType::new(TypeKind::Atom)),
    ));
    assert!(union.is_union());
    assert!(!union.is_intersection());
    assert!(!union.is_difference());
    assert!(union.is_compound());
    assert!(!union.is_simple());

    let intersection = IRType::new(TypeKind::Intersection(
        Box::new(IRType::new(TypeKind::SmallInt)),
        Box::new(IRType::new(TypeKind::NonNegInt)),
    ));
    assert!(!intersection.is_union());
    assert!(intersection.is_intersection());
    assert!(!intersection.is_difference());
    assert!(intersection.is_compound());
    assert!(!intersection.is_simple());

    let difference = IRType::new(TypeKind::Difference(
        Box::new(IRType::new(TypeKind::SmallInt)),
        Box::new(IRType::new(TypeKind::NonNegInt)),
    ));
    assert!(!difference.is_union());
    assert!(!difference.is_intersection());
    assert!(difference.is_difference());
    assert!(difference.is_compound());
    assert!(!difference.is_simple());

    // Simple types
    assert!(IRType::new(TypeKind::SmallInt).is_simple());
    assert!(IRType::new(TypeKind::Atom).is_simple());
    assert!(!IRType::new(TypeKind::SmallInt).is_compound());
}

#[test]
fn test_subtract_basic() {
    // Subtracting Bottom returns self
    let a = IRType::new(TypeKind::SmallInt);
    let result = a.subtract(&IRType::new(TypeKind::Bottom));
    assert_eq!(result.kind, TypeKind::SmallInt);

    // Subtracting self returns Bottom
    let result = a.subtract(&a);
    assert_eq!(result.kind, TypeKind::Bottom);

    // Subtracting Any returns Bottom
    let result = a.subtract(&IRType::new(TypeKind::Any));
    assert_eq!(result.kind, TypeKind::Bottom);

    // Subtracting a contained type produces Difference
    let result = a.subtract(&IRType::new(TypeKind::NonNegInt));
    assert!(result.is_difference());

    // Subtracting a non-contained type returns self (conservative)
    let result = a.subtract(&IRType::new(TypeKind::Float));
    assert_eq!(result.kind, TypeKind::SmallInt);
}

#[test]
fn test_contains_constant_with_union() {
    // contains_constant works through unions
    let union = IRType::new(TypeKind::Union(
        Box::new(IRType::new(TypeKind::SmallInt)),
        Box::new(IRType::new(TypeKind::Atom)),
    ));
    // Int constant is contained via SmallInt branch
    assert!(union.contains_constant(&ConstantValue::Int(42)));
    // Atom constant is contained via Atom branch
    assert!(union.contains_constant(&ConstantValue::Atom(1)));
    // Float constant is NOT contained
    assert!(!union.contains_constant(&ConstantValue::Float(1.0f64.to_bits())));

    // Direct type containment
    assert!(IRType::new(TypeKind::SmallInt).contains_constant(&ConstantValue::Int(-5)));
    assert!(IRType::new(TypeKind::NonNegInt).contains_constant(&ConstantValue::Int(0)));
    assert!(!IRType::new(TypeKind::NonNegInt).contains_constant(&ConstantValue::Int(-1)));
}

#[test]
fn test_dynamic_type_join() {
    // dynamic | A = Any
    let dynamic = IRType::new(TypeKind::Dynamic);
    let smallint = IRType::new(TypeKind::SmallInt);
    let joined = dynamic.join(&smallint);
    assert!(joined.is_any());
}

#[test]
fn test_dynamic_type_meet() {
    // dynamic ∩ A = A
    let dynamic = IRType::new(TypeKind::Dynamic);
    let smallint = IRType::new(TypeKind::SmallInt);
    let met = dynamic.meet(&smallint);
    assert!(matches!(met.kind, TypeKind::SmallInt));
}

#[test]
fn test_dynamic_type_contains() {
    // dynamic contains everything
    let dynamic = IRType::new(TypeKind::Dynamic);
    assert!(dynamic.contains(&IRType::new(TypeKind::SmallInt)));
    assert!(dynamic.contains(&IRType::new(TypeKind::Any)));
    assert!(dynamic.contains(&IRType::new(TypeKind::Bottom)));
}

#[test]
fn test_recursive_var_join_with_bound() {
    // rec<X: SmallInt> | NonNegInt = SmallInt | NonNegInt = SmallInt
    let rec = IRType::new(TypeKind::RecursiveVar {
        id: 0,
        bound: Some(Box::new(IRType::new(TypeKind::SmallInt))),
    });
    let nonneg = IRType::new(TypeKind::NonNegInt);
    let joined = rec.join(&nonneg);
    assert!(matches!(joined.kind, TypeKind::SmallInt));
}

#[test]
fn test_recursive_var_join_unbound() {
    // rec<X> | Anything = Any
    let rec = IRType::new(TypeKind::RecursiveVar { id: 0, bound: None });
    let joined = rec.join(&IRType::new(TypeKind::SmallInt));
    assert!(joined.is_any());
}

#[test]
fn test_recursive_var_meet_with_bound() {
    // rec<X: SmallInt> ∩ NonNegInt = SmallInt ∩ NonNegInt = NonNegInt
    let rec = IRType::new(TypeKind::RecursiveVar {
        id: 0,
        bound: Some(Box::new(IRType::new(TypeKind::SmallInt))),
    });
    let nonneg = IRType::new(TypeKind::NonNegInt);
    let met = rec.meet(&nonneg);
    assert!(matches!(met.kind, TypeKind::NonNegInt));
}

#[test]
fn test_recursive_var_contains_with_bound() {
    // rec<X: SmallInt> contains NonNegInt (because SmallInt contains NonNegInt)
    let rec = IRType::new(TypeKind::RecursiveVar {
        id: 0,
        bound: Some(Box::new(IRType::new(TypeKind::SmallInt))),
    });
    assert!(rec.contains(&IRType::new(TypeKind::NonNegInt)));
    assert!(!rec.contains(&IRType::new(TypeKind::Float)));
}

#[test]
fn test_speculative_join_uses_actual() {
    // spec<SmallInt | Any>.join(Atom) = Any.join(Atom) = Any
    let spec = IRType::new(TypeKind::Speculative {
        assumed: Box::new(IRType::new(TypeKind::SmallInt)),
        actual: Box::new(IRType::new(TypeKind::Any)),
        guard: SpeculativeGuard::Trivial,
    });
    let atom = IRType::new(TypeKind::Atom);
    let joined = spec.join(&atom);
    assert!(joined.is_any());
}

#[test]
fn test_speculative_meet_uses_assumed() {
    // spec<SmallInt | Any>.meet(NonNegInt) = SmallInt.meet(NonNegInt) = NonNegInt
    let spec = IRType::new(TypeKind::Speculative {
        assumed: Box::new(IRType::new(TypeKind::SmallInt)),
        actual: Box::new(IRType::new(TypeKind::Any)),
        guard: SpeculativeGuard::Trivial,
    });
    let nonneg = IRType::new(TypeKind::NonNegInt);
    let met = spec.meet(&nonneg);
    assert!(matches!(met.kind, TypeKind::NonNegInt));
}

#[test]
fn test_speculative_contains_uses_assumed() {
    // spec<SmallInt | Any> contains NonNegInt (because SmallInt contains NonNegInt)
    let spec = IRType::new(TypeKind::Speculative {
        assumed: Box::new(IRType::new(TypeKind::SmallInt)),
        actual: Box::new(IRType::new(TypeKind::Any)),
        guard: SpeculativeGuard::Trivial,
    });
    assert!(spec.contains(&IRType::new(TypeKind::NonNegInt)));
    assert!(!spec.contains(&IRType::new(TypeKind::Float)));
}

#[test]
fn type_system_test_speculative_type_display() {
    let spec = IRType::new(TypeKind::Speculative {
        assumed: Box::new(IRType::new(TypeKind::SmallInt)),
        actual: Box::new(IRType::new(TypeKind::Any)),
        guard: SpeculativeGuard::Trivial,
    });
    let display = spec.display();
    assert!(display.contains("spec"));
    assert!(display.contains("smallint"));
}

#[test]
fn test_dynamic_type_display() {
    let dynamic = IRType::new(TypeKind::Dynamic);
    assert_eq!(dynamic.display(), "dynamic");
}

#[test]
fn test_recursive_var_display() {
    let rec = IRType::new(TypeKind::RecursiveVar {
        id: 0,
        bound: Some(Box::new(IRType::new(TypeKind::SmallInt))),
    });
    let display = rec.display();
    assert!(display.contains("rec"));
    assert!(display.contains("0"));

    let rec_unbound = IRType::new(TypeKind::RecursiveVar { id: 1, bound: None });
    let display = rec_unbound.display();
    assert!(display.contains("rec"));
    assert!(display.contains("1"));
}

#[test]
fn type_system_test_guard_costs() {
    assert_eq!(SpeculativeGuard::Trivial.cost(), 0);
    assert_eq!(
        SpeculativeGuard::IsImmediate(Box::new(TypeKind::SmallInt)).cost(),
        1
    );
    assert_eq!(
        SpeculativeGuard::IsComposite(Box::new(TypeKind::Tuple { arity: 2 })).cost(),
        2
    );
    assert_eq!(
        SpeculativeGuard::StableTupleShape {
            element_types: vec![IRType::new(TypeKind::SmallInt); 3]
        }
        .cost(),
        5
    );
    assert_eq!(
        SpeculativeGuard::MapShapeKeys {
            keys: vec![1, 2, 3]
        }
        .cost(),
        5
    );
    assert_eq!(
        SpeculativeGuard::IsInUnion {
            alternatives: vec![IRType::new(TypeKind::SmallInt); 4]
        }
        .cost(),
        4
    );
    assert_eq!(
        SpeculativeGuard::TensorSpec {
            dtype: TensorDtype::F32,
            shape: vec![Some(1), Some(224), None]
        }
        .cost(),
        5 // 3 + 2 concrete dimensions
    );
}

#[test]
fn type_system_test_guard_trivial() {
    assert!(SpeculativeGuard::Trivial.is_trivial());
    assert!(!SpeculativeGuard::IsImmediate(Box::new(TypeKind::SmallInt)).is_trivial());
    assert!(!SpeculativeGuard::IsConstant(ConstantValue::Int(0)).is_trivial());
}


