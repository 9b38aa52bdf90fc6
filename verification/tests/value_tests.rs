use dala_ir::type_system::{ConstantValue, IRType, TypeKind};
use dala_ir::value::{IRValue, IRValueId, ValueDef, ValueUse};
use dala_ir::InstId;

#[test]
fn test_ir_value_constant() {
    let val = IRValue::Constant {
        value: ConstantValue::Int(42),
        ty: IRType::new(TypeKind::SmallInt),
    };
    assert!(val.is_constant());
    assert!(!val.is_inst_result());
    assert!(!val.is_argument());
    assert_eq!(val.as_int(), Some(42));
    assert_eq!(val.as_atom_index(), None);
    assert_eq!(val.as_bool(), None);
}

#[test]
fn test_ir_value_inst_result() {
    let val = IRValue::InstResult {
        inst: InstId(5),
        result_index: 0,
        ty: IRType::new(TypeKind::Int64),
    };
    assert!(!val.is_constant());
    assert!(val.is_inst_result());
    assert!(!val.is_argument());
    assert_eq!(val.as_int(), None);
}

#[test]
fn test_ir_value_argument() {
    let val = IRValue::Argument {
        index: 2,
        ty: IRType::new(TypeKind::Float),
    };
    assert!(!val.is_constant());
    assert!(!val.is_inst_result());
    assert!(val.is_argument());
}

#[test]
fn test_ir_value_placeholder() {
    let val = IRValue::Placeholder;
    assert!(!val.is_constant());
    assert!(!val.is_inst_result());
    assert!(!val.is_argument());
    assert_eq!(val.as_int(), None);
    assert_eq!(val.as_bool(), None);
    assert_eq!(val.as_atom_index(), None);
}

#[test]
fn test_ir_value_ty_constant() {
    let val = IRValue::Constant {
        value: ConstantValue::Int(42),
        ty: IRType::new(TypeKind::SmallInt),
    };
    assert!(matches!(val.ty().kind, TypeKind::SmallInt));
}

#[test]
fn test_ir_value_ty_placeholder() {
    let val = IRValue::Placeholder;
    assert!(matches!(val.ty().kind, TypeKind::Any));
}

#[test]
fn test_ir_value_as_int_variants() {
    // Int constant
    let int_val = IRValue::Constant {
        value: ConstantValue::Int(7),
        ty: IRType::new(TypeKind::SmallInt),
    };
    assert_eq!(int_val.as_int(), Some(7));

    // Non-int constant
    let atom_val = IRValue::Constant {
        value: ConstantValue::Atom(0),
        ty: IRType::new(TypeKind::Atom),
    };
    assert_eq!(atom_val.as_int(), None);

    // True constant
    let true_val = IRValue::Constant {
        value: ConstantValue::True,
        ty: IRType::new(TypeKind::Boolean),
    };
    assert_eq!(true_val.as_int(), None);
}

#[test]
fn test_ir_value_as_bool_variants() {
    let true_val = IRValue::Constant {
        value: ConstantValue::True,
        ty: IRType::new(TypeKind::Boolean),
    };
    assert_eq!(true_val.as_bool(), Some(true));

    let false_val = IRValue::Constant {
        value: ConstantValue::False,
        ty: IRType::new(TypeKind::Boolean),
    };
    assert_eq!(false_val.as_bool(), Some(false));

    let int_val = IRValue::Constant {
        value: ConstantValue::Int(1),
        ty: IRType::new(TypeKind::SmallInt),
    };
    assert_eq!(int_val.as_bool(), None);
}

#[test]
fn test_ir_value_as_atom_index_variants() {
    let atom_val = IRValue::Constant {
        value: ConstantValue::Atom(5),
        ty: IRType::new(TypeKind::Atom),
    };
    assert_eq!(atom_val.as_atom_index(), Some(5));

    let nil_val = IRValue::Constant {
        value: ConstantValue::Nil,
        ty: IRType::new(TypeKind::Nil),
    };
    assert_eq!(nil_val.as_atom_index(), None);
}

#[test]
fn test_ir_value_id_equality() {
    assert_eq!(IRValueId(0), IRValueId(0));
    assert_ne!(IRValueId(0), IRValueId(1));
}

#[test]
fn test_ir_value_id_copy() {
    let a = IRValueId(42);
    let b = a;
    // If IRValueId is Copy, this should compile (and it does since it's a simple usize wrapper)
    let _ = a;
    let _ = b;
}

#[test]
fn test_value_use() {
    let vu = ValueUse {
        value_id: IRValueId(3),
        user_inst: InstId(7),
    };
    assert_eq!(vu.value_id, IRValueId(3));
    assert_eq!(vu.user_inst, InstId(7));
}

#[test]
fn test_value_def() {
    let vd = ValueDef {
        inst_id: InstId(5),
        result_index: 2,
    };
    assert_eq!(vd.inst_id, InstId(5));
    assert_eq!(vd.result_index, 2);
}


