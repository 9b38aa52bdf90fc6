use dala_ir::function::IRFunction;
use dala_ir::instruction::{IRInst, IRInstKind, SideEffects};
use dala_ir::opt::type_inference::infer_types;
use dala_ir::type_system::{IRType, TypeKind};
use dala_ir::value::IRValueId;

#[test]
fn test_type_inference_basic() {
    let mut func = IRFunction::new(0, 0, 1);
    let entry = func.entry_block;
    let block = func.get_block_mut(entry);

    // x = const(42)
    block.instructions.push(IRInst {
        kind: IRInstKind::ConstSmallInt { value: 42 },
        result: Some(IRValueId(0)),
        operands: vec![],
        beam_offset: 0,
        side_effects: SideEffects::none(),
    });
    // y = x + 1
    block.instructions.push(IRInst {
        kind: IRInstKind::Add,
        result: Some(IRValueId(1)),
        operands: vec![IRValueId(0), IRValueId(0)],
        beam_offset: 0,
        side_effects: SideEffects::none(),
    });
    // ret(y)
    block.instructions.push(IRInst {
        kind: IRInstKind::Ret {
            value: IRValueId(1),
        },
        result: None,
        operands: vec![],
        beam_offset: 0,
        side_effects: SideEffects::none(),
    });

    let types = infer_types(&func);
    // The constant should have a constant type
    let const_type = types.get(&IRValueId(0)).unwrap();
    assert!(matches!(const_type.kind, TypeKind::Constant(_)));
}

#[test]
fn test_type_inference_with_narrowing() {
    let mut func = IRFunction::new(0, 0, 1);
    let entry = func.entry_block;
    let block = func.get_block_mut(entry);

    // x = some value
    // is_tuple(x) → narrow x to tuple
    block.instructions.push(IRInst {
        kind: IRInstKind::IsTuple,
        result: Some(IRValueId(1)),
        operands: vec![IRValueId(0)],
        beam_offset: 0,
        side_effects: SideEffects::none(),
    });
    block.instructions.push(IRInst {
        kind: IRInstKind::Narrow {
            value: IRValueId(0),
            new_type: Box::new(IRType::new(TypeKind::Tuple { arity: 2 })),
        },
        result: Some(IRValueId(2)),
        operands: vec![],
        beam_offset: 0,
        side_effects: SideEffects::none(),
    });
    block.instructions.push(IRInst {
        kind: IRInstKind::Ret {
            value: IRValueId(2),
        },
        result: None,
        operands: vec![],
        beam_offset: 0,
        side_effects: SideEffects::none(),
    });

    let types = infer_types(&func);
    // After narrowing, the value should be a tuple
    let narrowed = types.get(&IRValueId(2)).unwrap();
    assert!(matches!(narrowed.kind, TypeKind::Tuple { .. }));
}

#[test]
fn test_type_inference_boolean_result() {
    let mut func = IRFunction::new(0, 0, 1);
    let entry = func.entry_block;
    let block = func.get_block_mut(entry);

    // x = const(42)
    block.instructions.push(IRInst {
        kind: IRInstKind::ConstSmallInt { value: 42 },
        result: Some(IRValueId(0)),
        operands: vec![],
        beam_offset: 0,
        side_effects: SideEffects::none(),
    });
    // y = is_atom(x)
    block.instructions.push(IRInst {
        kind: IRInstKind::IsAtom,
        result: Some(IRValueId(1)),
        operands: vec![IRValueId(0)],
        beam_offset: 0,
        side_effects: SideEffects::none(),
    });
    // ret(y)
    block.instructions.push(IRInst {
        kind: IRInstKind::Ret {
            value: IRValueId(1),
        },
        result: None,
        operands: vec![],
        beam_offset: 0,
        side_effects: SideEffects::none(),
    });

    let types = infer_types(&func);
    let bool_result = types.get(&IRValueId(1)).unwrap();
    assert!(matches!(bool_result.kind, TypeKind::Boolean));
}


