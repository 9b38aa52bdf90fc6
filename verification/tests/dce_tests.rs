use dala_ir::function::IRFunction;
use dala_ir::instruction::{IRInst, IRInstKind, Label, SideEffects};
use dala_ir::opt::dce::eliminate_dead_code;
use dala_ir::value::IRValueId;

#[test]
fn test_dce_empty_function() {
    let mut func = IRFunction::new(0, 0, 0);
    let changed = eliminate_dead_code(&mut func);
    // Empty function (just entry block with no insts) should not change
    let _ = changed;
}

#[test]
fn test_dce_removes_unreachable_block() {
    let mut func = IRFunction::new(0, 0, 0);
    // Create an unreachable block
    let unreachable = func.create_block();
    let block = func.get_block_mut(unreachable);
    block.push_inst(IRInst::new(IRInstKind::Nop));

    let changed = eliminate_dead_code(&mut func);
    assert!(changed);
    assert!(!func.get_block(unreachable).reachable);
}

#[test]
fn test_dce_keeps_reachable_blocks() {
    let mut func = IRFunction::new(0, 0, 0);
    let b1 = func.create_block();
    // Make b1 reachable by adding a branch from entry
    let entry = func.get_block_mut(func.entry_block);
    entry.push_inst(IRInst::new(IRInstKind::Br {
        target: Label(b1.0 as u32),
    }));
    // Add b1 as successor of entry
    entry.successors.push(Label(b1.0 as u32));
    // Add a terminator to b1
    let block = func.get_block_mut(b1);
    block.push_inst(IRInst::new(IRInstKind::Ret {
        value: IRValueId(0),
    }));

    let _changed = eliminate_dead_code(&mut func);
    // Both entry and b1 should remain reachable
    assert!(func.get_block(func.entry_block).reachable);
    assert!(func.get_block(b1).reachable);
}

#[test]
fn test_dce_removes_unused_nop() {
    let mut func = IRFunction::new(0, 0, 0);
    let block = func.get_block_mut(func.entry_block);
    block.push_inst(IRInst {
        kind: IRInstKind::Nop,
        result: Some(IRValueId(0)),
        operands: vec![],
        beam_offset: 0,
        side_effects: SideEffects::none(),
    });
    block.push_inst(IRInst::new(IRInstKind::Ret {
        value: IRValueId(1),
    }));

    let changed = eliminate_dead_code(&mut func);
    // Nop with unused result should be removed
    assert!(changed);
}

#[test]
fn test_dce_keeps_side_effecting_insts() {
    let mut func = IRFunction::new(0, 0, 0);
    let block = func.get_block_mut(func.entry_block);
    // Call has side effects and should be kept even if result is unused
    block.push_inst(IRInst {
        kind: IRInstKind::Call {
            func: IRValueId(0),
            args: vec![],
        },
        result: Some(IRValueId(5)),
        operands: vec![],
        beam_offset: 0,
        side_effects: SideEffects {
            calls: true,
            may_raise: true,
            allocates: true,
            ..SideEffects::none()
        },
    });
    block.push_inst(IRInst::new(IRInstKind::Ret {
        value: IRValueId(1),
    }));

    let changed = eliminate_dead_code(&mut func);
    // The call should be kept because it has side effects
    let block = func.get_block(func.entry_block);
    assert!(
        block
            .instructions
            .iter()
            .any(|i| matches!(i.kind, IRInstKind::Call { .. })),
        "Side-effecting call should be kept"
    );
}

#[test]
fn test_dce_multiple_unreachable_blocks() {
    let mut func = IRFunction::new(0, 0, 0);
    let u1 = func.create_block();
    let u2 = func.create_block();
    let u3 = func.create_block();

    // Add instructions to unreachable blocks
    for id in [u1, u2, u3] {
        let block = func.get_block_mut(id);
        block.push_inst(IRInst::new(IRInstKind::Nop));
    }

    let changed = eliminate_dead_code(&mut func);
    assert!(changed);
    assert!(!func.get_block(u1).reachable);
    assert!(!func.get_block(u2).reachable);
    assert!(!func.get_block(u3).reachable);
}


