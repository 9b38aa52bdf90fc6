use dala_ir::function::IRFunction;
use dala_ir::instruction::{IRInst, IRInstKind, SideEffects};
use dala_ir::opt::pattern_match::{optimize, try_convert_type_chain};
use dala_ir::value::IRValueId;

#[test]
fn test_type_chain_detection() {
    let val = IRValueId(0);
    let insts = vec![
        IRInst {
            kind: IRInstKind::IsTuple,
            result: None,
            operands: vec![val],
            beam_offset: 0,
            side_effects: SideEffects::none(),
        },
        IRInst {
            kind: IRInstKind::IsAtom,
            result: None,
            operands: vec![val],
            beam_offset: 0,
            side_effects: SideEffects::none(),
        },
        IRInst {
            kind: IRInstKind::IsList,
            result: None,
            operands: vec![val],
            beam_offset: 0,
            side_effects: SideEffects::none(),
        },
    ];

    let switch = try_convert_type_chain(&insts);
    assert!(switch.is_some());
    let switch = switch.unwrap();
    assert_eq!(switch.targets.len(), 3);
    assert_eq!(switch.chain_length, 3);
}

#[test]
fn test_single_type_test_not_converted() {
    let val = IRValueId(0);
    let insts = vec![IRInst {
        kind: IRInstKind::IsTuple,
        result: None,
        operands: vec![val],
        beam_offset: 0,
        side_effects: SideEffects::none(),
    }];

    // Single test — not worth converting
    assert!(try_convert_type_chain(&insts).is_none());
}

#[test]
fn test_stable_tuple_access_optimization() {
    let mut func = IRFunction::new(0, 0, 1);
    let entry = func.entry_block;
    let block = func.get_block_mut(entry);

    block.instructions.push(IRInst {
        kind: IRInstKind::TupleGet {
            tuple: IRValueId(0),
            index: 2,
        },
        result: Some(IRValueId(1)),
        operands: vec![],
        beam_offset: 0,
        side_effects: SideEffects::none(),
    });

    let changed = optimize(&mut func);
    // The optimization should have been applied
    assert!(changed);
}


