use dala_ir::module::{CompilationUnit, CompileInfo, IRModule};
use dala_ir::type_system::{ConstantValue, IRType, TypeKind};
use dala_ir::{IRFunctionId, TypeId};

#[test]
fn test_module_new() {
    let module = IRModule::new(42);
    assert_eq!(module.name, 42);
    assert!(module.functions.is_empty());
    assert!(module.function_bodies.is_empty());
    assert!(module.exports.is_empty());
    assert!(module.imports.is_empty());
    assert!(module.attributes.is_empty());
    assert!(module.literals.is_empty());
    assert!(module.line_info.is_empty());
}

#[test]
fn test_module_add_function() {
    let mut module = IRModule::new(0);
    let id = module.add_function(1, 2);
    assert_eq!(module.function_count(), 1);
    assert_eq!(id, IRFunctionId(0));
    assert!(module.get_function(1, 2).is_some());
}

#[test]
fn test_module_add_multiple_functions() {
    let mut module = IRModule::new(0);
    let id1 = module.add_function(1, 2);
    let id2 = module.add_function(3, 4);
    let id3 = module.add_function(5, 6);
    assert_eq!(module.function_count(), 3);
    assert_ne!(id1, id2);
    assert_ne!(id2, id3);
}

#[test]
fn test_module_get_function_not_found() {
    let module = IRModule::new(0);
    assert!(module.get_function(999, 0).is_none());
}

#[test]
fn test_module_get_function_body() {
    let mut module = IRModule::new(0);
    let id = module.add_function(1, 2);
    let body = module.get_function_body(id);
    assert_eq!(body.name, 1);
    assert_eq!(body.arity, 2);
}

#[test]
fn test_module_get_function_body_mut() {
    let mut module = IRModule::new(0);
    let id = module.add_function(1, 2);
    let body = module.get_function_body_mut(id);
    body.compiled = true;
    assert!(module.get_function_body(id).compiled);
}

#[test]
fn test_module_add_export() {
    let mut module = IRModule::new(0);
    module.add_export(1, 2);
    module.add_export(3, 4);
    assert_eq!(module.exports.len(), 2);
    assert!(module.is_exported(1, 2));
    assert!(module.is_exported(3, 4));
    assert!(!module.is_exported(1, 3));
}

#[test]
fn test_module_add_import() {
    let mut module = IRModule::new(0);
    module.add_import(10, 1, 2);
    module.add_import(10, 3, 4);
    module.add_import(20, 5, 6);

    let imports_from_10 = module.imports.get(&10).unwrap();
    assert_eq!(imports_from_10.len(), 2);
    assert_eq!(imports_from_10[0], (1, 2));
    assert_eq!(imports_from_10[1], (3, 4));

    let imports_from_20 = module.imports.get(&20).unwrap();
    assert_eq!(imports_from_20.len(), 1);
}

#[test]
fn test_module_add_literal() {
    let mut module = IRModule::new(0);
    let idx1 = module.add_literal(42);
    let idx2 = module.add_literal(99);
    assert_eq!(idx1, 0);
    assert_eq!(idx2, 1);
    assert_eq!(module.literals.len(), 2);
    assert_eq!(module.literals[0], 42);
    assert_eq!(module.literals[1], 99);
}

#[test]
fn test_module_exported_functions() {
    let mut module = IRModule::new(0);
    module.add_export(1, 0);
    module.add_export(2, 1);
    let exported = module.exported_functions();
    assert_eq!(exported.len(), 2);
    assert_eq!(exported[0], (1, 0));
    assert_eq!(exported[1], (2, 1));
}

#[test]
fn test_module_function_count_empty() {
    let module = IRModule::new(0);
    assert_eq!(module.function_count(), 0);
}

#[test]
fn test_compile_info_default() {
    let info = CompileInfo::default();
    assert!(info.source_file.is_none());
    assert!(info.options.is_empty());
    assert!(info.version.is_none());
    assert!(!info.debug_info);
}

#[test]
fn test_compilation_unit_new() {
    let module = IRModule::new(0);
    let cu = CompilationUnit::new(module);
    assert!(cu.types.is_empty());
    assert!(cu.constants.is_empty());
}

#[test]
fn test_compilation_unit_add_type() {
    let module = IRModule::new(0);
    let mut cu = CompilationUnit::new(module);
    let t1 = cu.add_type(IRType::new(TypeKind::Int64));
    let t2 = cu.add_type(IRType::new(TypeKind::Float));
    assert_eq!(t1, TypeId(0));
    assert_eq!(t2, TypeId(1));
    assert_eq!(cu.types.len(), 2);
}

#[test]
fn test_compilation_unit_add_constant() {
    let module = IRModule::new(0);
    let mut cu = CompilationUnit::new(module);
    let c1 = cu.add_constant(42);
    let c2 = cu.add_constant(99);
    assert_eq!(c1, 0);
    assert_eq!(c2, 1);
    assert_eq!(cu.constants.len(), 2);
}


#[test]
fn test_from_constant_value_for_ir_type() {
    assert!(matches!(
        IRType::from(ConstantValue::Int(0)).kind,
        TypeKind::SmallInt
    ));
    assert!(matches!(
        IRType::from(ConstantValue::Atom(0)).kind,
        TypeKind::Atom
    ));
    assert!(matches!(
        IRType::from(ConstantValue::Nil).kind,
        TypeKind::Nil
    ));
    assert!(matches!(
        IRType::from(ConstantValue::True).kind,
        TypeKind::Boolean
    ));
    assert!(matches!(
        IRType::from(ConstantValue::False).kind,
        TypeKind::Boolean
    ));
    assert!(matches!(
        IRType::from(ConstantValue::Float(0)).kind,
        TypeKind::Float
    ));
}


