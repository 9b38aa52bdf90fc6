use dala_ir::opt::native_specialize::{
    boxed_size, estimate_savings, map_shape_layout, native_field_for_type, native_size,
    stable_tuple_layout,
};
use dala_ir::type_system::{IRType, NativeFieldKind, TypeKind};

#[test]
fn test_stable_tuple_layout_two_ints() {
    let types = vec![
        IRType::new(TypeKind::SmallInt),
        IRType::new(TypeKind::SmallInt),
    ];
    let layout = stable_tuple_layout(&types);
    assert_eq!(layout.fields.len(), 2);
    assert_eq!(layout.fields[0].offset, 0);
    assert_eq!(layout.fields[1].offset, 8);
    assert_eq!(layout.size, 16);
    assert!(matches!(layout.fields[0].kind, NativeFieldKind::I64));
}

#[test]
fn test_stable_tuple_layout_mixed() {
    let types = vec![
        IRType::new(TypeKind::SmallInt),
        IRType::new(TypeKind::Float),
    ];
    let layout = stable_tuple_layout(&types);
    assert_eq!(layout.fields.len(), 2);
    assert!(matches!(layout.fields[0].kind, NativeFieldKind::I64));
    assert!(matches!(layout.fields[1].kind, NativeFieldKind::F64));
}

#[test]
fn test_map_shape_layout() {
    let values = vec![
        IRType::new(TypeKind::SmallInt),
        IRType::new(TypeKind::Binary),
    ];
    let layout = map_shape_layout(&values);
    // First field is hidden class pointer
    assert!(layout.fields.len() >= 3);
    assert!(matches!(layout.fields[0].kind, NativeFieldKind::Ptr));
}

#[test]
fn test_native_field_for_type() {
    let (kind, size) = native_field_for_type(&IRType::new(TypeKind::SmallInt));
    assert!(matches!(kind, NativeFieldKind::I64));
    assert_eq!(size, 8);

    let (kind, size) = native_field_for_type(&IRType::new(TypeKind::Float));
    assert!(matches!(kind, NativeFieldKind::F64));
    assert_eq!(size, 8);

    let (kind, size) = native_field_for_type(&IRType::new(TypeKind::Cons));
    assert!(matches!(kind, NativeFieldKind::Ptr));
    assert_eq!(size, 8);
}

#[test]
fn test_estimate_savings() {
    // A stable tuple of two ints should save significant memory
    let ty = IRType::new(TypeKind::StableTuple {
        element_types: vec![
            IRType::new(TypeKind::SmallInt),
            IRType::new(TypeKind::SmallInt),
        ],
        immutable: true,
    });
    let savings = estimate_savings(&ty);
    // Boxed: 8 + 2*8 = 24 bytes, Native: 16 bytes → save 8 bytes
    assert!(savings > 0, "expected positive savings, got {}", savings);
}

#[test]
fn test_boxed_vs_native_size() {
    // Two integers: boxed needs tags, native doesn't
    let ty = IRType::new(TypeKind::StableTuple {
        element_types: vec![
            IRType::new(TypeKind::SmallInt),
            IRType::new(TypeKind::SmallInt),
        ],
        immutable: true,
    });
    let boxed = boxed_size(&ty);
    let native = native_size(&ty);
    assert!(
        boxed > native,
        "boxed ({}) should be larger than native ({})",
        boxed,
        native
    );
}


