use dala_ir::constant::Constant;
use dala_ir::type_system::{ConstantValue, TypeKind};

#[test]
fn test_constant_int() {
    let c = Constant::Int(42);
    assert_eq!(c.as_int(), Some(42));
    assert_eq!(c.as_bool(), None);
    assert_eq!(c.as_float_bits(), None);
    assert_eq!(c.as_atom_index(), None);
    assert!(c.is_known());
}

#[test]
fn test_constant_int_zero() {
    let c = Constant::Int(0);
    assert_eq!(c.as_int(), Some(0));
}

#[test]
fn test_constant_int_negative() {
    let c = Constant::Int(-100);
    assert_eq!(c.as_int(), Some(-100));
}

#[test]
fn test_constant_atom() {
    let c = Constant::Atom(5);
    assert_eq!(c.as_atom_index(), Some(5));
    assert_eq!(c.as_int(), None);
    assert!(c.is_known());
}

#[test]
fn test_constant_nil() {
    let c = Constant::Nil;
    assert_eq!(c.as_int(), None);
    assert_eq!(c.as_bool(), None);
    assert!(c.is_known());
}

#[test]
fn test_constant_true() {
    let c = Constant::True;
    assert_eq!(c.as_bool(), Some(true));
    assert!(c.is_known());
}

#[test]
fn test_constant_false() {
    let c = Constant::False;
    assert_eq!(c.as_bool(), Some(false));
    assert!(c.is_known());
}

#[test]
fn test_constant_float() {
    let c = Constant::Float((3.14f64).to_bits());
    assert_eq!(c.as_float_bits(), Some((3.14f64).to_bits()));
    assert_eq!(c.as_int(), None);
    assert!(c.is_known());
}

#[test]
fn test_constant_float_zero() {
    let c = Constant::Float((0.0f64).to_bits());
    assert_eq!(c.as_float_bits(), Some((0.0f64).to_bits()));
}

#[test]
fn test_constant_float_negative() {
    let c = Constant::Float((-1.5f64).to_bits());
    assert_eq!(c.as_float_bits(), Some((-1.5f64).to_bits()));
}

#[test]
fn test_constant_tuple_empty() {
    let c = Constant::Tuple(vec![]);
    assert!(c.is_known());
    assert!(matches!(c.ir_type().kind, TypeKind::Tuple { arity: 0 }));
}

#[test]
fn test_constant_tuple_elements() {
    let c = Constant::Tuple(vec![Constant::Int(1), Constant::Int(2)]);
    assert!(matches!(c.ir_type().kind, TypeKind::Tuple { arity: 2 }));
}

#[test]
fn test_constant_list_empty() {
    let c = Constant::List(vec![]);
    assert!(c.is_known());
    assert!(matches!(c.ir_type().kind, TypeKind::List));
}

#[test]
fn test_constant_list_elements() {
    let c = Constant::List(vec![Constant::Int(1), Constant::Int(2)]);
    assert!(c.is_known());
}

#[test]
fn test_constant_binary() {
    let c = Constant::Binary(vec![0xDE, 0xAD, 0xBE, 0xEF]);
    assert!(c.is_known());
    assert!(matches!(c.ir_type().kind, TypeKind::Binary));
}

#[test]
fn test_constant_binary_empty() {
    let c = Constant::Binary(vec![]);
    assert!(c.is_known());
}

#[test]
fn test_constant_ir_type_int_positive() {
    let c = Constant::Int(42);
    assert!(matches!(c.ir_type().kind, TypeKind::NonNegInt));
}

#[test]
fn test_constant_ir_type_int_zero() {
    let c = Constant::Int(0);
    assert!(matches!(c.ir_type().kind, TypeKind::NonNegInt));
}

#[test]
fn test_constant_ir_type_int_negative() {
    let c = Constant::Int(-1);
    assert!(matches!(c.ir_type().kind, TypeKind::SmallInt));
}

#[test]
fn test_constant_ir_type_atom() {
    let c = Constant::Atom(0);
    assert!(matches!(c.ir_type().kind, TypeKind::Atom));
}

#[test]
fn test_constant_ir_type_nil() {
    let c = Constant::Nil;
    assert!(matches!(c.ir_type().kind, TypeKind::Nil));
}

#[test]
fn test_constant_ir_type_true() {
    let c = Constant::True;
    assert!(matches!(c.ir_type().kind, TypeKind::Boolean));
}

#[test]
fn test_constant_ir_type_false() {
    let c = Constant::False;
    assert!(matches!(c.ir_type().kind, TypeKind::Boolean));
}

#[test]
fn test_constant_ir_type_float() {
    let c = Constant::Float((1.0f64).to_bits());
    assert!(matches!(c.ir_type().kind, TypeKind::Float));
}

#[test]
fn test_from_i64() {
    let c: Constant = 42i64.into();
    assert_eq!(c, Constant::Int(42));
}

#[test]
fn test_from_bool_true() {
    let c: Constant = true.into();
    assert_eq!(c, Constant::True);
}

#[test]
fn test_from_bool_false() {
    let c: Constant = false.into();
    assert_eq!(c, Constant::False);
}

#[test]
fn test_from_constant_for_constant_value() {
    let c = Constant::Int(42);
    let cv: ConstantValue = c.into();
    assert_eq!(cv, ConstantValue::Int(42));
}

#[test]
fn test_from_constant_for_constant_value_atom() {
    let c = Constant::Atom(3);
    let cv: ConstantValue = c.into();
    assert_eq!(cv, ConstantValue::Atom(3));
}

#[test]
fn test_from_constant_for_constant_value_nil() {
    let c = Constant::Nil;
    let cv: ConstantValue = c.into();
    assert_eq!(cv, ConstantValue::Nil);
}

#[test]
fn test_from_constant_for_constant_value_true() {
    let c = Constant::True;
    let cv: ConstantValue = c.into();
    assert_eq!(cv, ConstantValue::True);
}

#[test]
fn test_from_constant_for_constant_value_false() {
    let c = Constant::False;
    let cv: ConstantValue = c.into();
    assert_eq!(cv, ConstantValue::False);
}

#[test]
fn test_from_constant_for_constant_value_float() {
    let c = Constant::Float((1.5f64).to_bits());
    let cv: ConstantValue = c.into();
    assert_eq!(cv, ConstantValue::Float(1.5f64.to_bits()));
}

#[test]
fn test_from_constant_for_constant_value_tuple_falls_back_to_nil() {
    let c = Constant::Tuple(vec![Constant::Int(1)]);
    let cv: ConstantValue = c.into();
    assert_eq!(cv, ConstantValue::Nil);
}

#[test]
fn test_from_constant_for_constant_value_list_falls_back_to_nil() {
    let c = Constant::List(vec![]);
    let cv: ConstantValue = c.into();
    assert_eq!(cv, ConstantValue::Nil);
}

#[test]
fn test_from_constant_for_constant_value_binary_falls_back_to_nil() {
    let c = Constant::Binary(vec![0xFF]);
    let cv: ConstantValue = c.into();
    assert_eq!(cv, ConstantValue::Nil);
}

#[test]
fn test_constant_equality() {
    assert_eq!(Constant::Int(1), Constant::Int(1));
    assert_ne!(Constant::Int(1), Constant::Int(2));
    assert_ne!(Constant::Int(1), Constant::Atom(1));
    assert_eq!(Constant::Atom(0), Constant::Atom(0));
    assert_eq!(Constant::Nil, Constant::Nil);
    assert_eq!(Constant::True, Constant::True);
    assert_eq!(Constant::False, Constant::False);
    assert_ne!(Constant::True, Constant::False);
}

#[test]
fn test_constant_float_equality() {
    assert_eq!(Constant::Float((1.0f64).to_bits()), Constant::Float((1.0f64).to_bits()));
    assert_ne!(Constant::Float((1.0f64).to_bits()), Constant::Float((2.0f64).to_bits()));
}


