use dala_ir::function::IRFunction;
use dala_ir::instruction::{IRInst, IRInstKind, Label};
use dala_ir::opt::simplify_cfg::simplify;
use dala_ir::value::IRValueId;

#[test]
fn test_simplify_empty_function() {
    let mut func = IRFunction::new(0, 0, 0);
    let changed = simplify(&mut func);
    let _ = changed;
}

#[test]
fn test_simplify_single_block_no_change() {
    let mut func = IRFunction::new(0, 0, 0);
    let block = func.get_block_mut(func.entry_block);
    block.push_inst(IRInst::new(IRInstKind::Ret {
        value: IRValueId(0),
    }));

    let changed = simplify(&mut func);
    assert!(!changed);
}

#[test]
fn test_simplify_removes_unreachable_block() {
    let mut func = IRFunction::new(0, 0, 0);
    let unreachable = func.create_block();
    let block = func.get_block_mut(unreachable);
    block.push_inst(IRInst::new(IRInstKind::Nop));

    let changed = simplify(&mut func);
    assert!(changed);
    assert!(!func.get_block(unreachable).reachable);
}

#[test]
fn test_simplify_keeps_reachable_blocks() {
    // Create a function with a conditional branch where both branches are reachable
    let mut func = IRFunction::new(0, 0, 0);
    let b1 = func.create_block();
    let b2 = func.create_block();
    let entry = func.get_block_mut(func.entry_block);
    entry.push_inst(IRInst::new(IRInstKind::BrIf {
        cond: IRValueId(0),
        true_target: Label(b1.0 as u32),
        false_target: Label(b2.0 as u32),
    }));
    entry.successors.push(Label(b1.0 as u32));
    entry.successors.push(Label(b2.0 as u32));
    let block1 = func.get_block_mut(b1);
    block1.push_inst(IRInst::new(IRInstKind::Ret {
        value: IRValueId(0),
    }));
    let block2 = func.get_block_mut(b2);
    block2.push_inst(IRInst::new(IRInstKind::Ret {
        value: IRValueId(0),
    }));

    let _changed = simplify(&mut func);
    // Entry should remain reachable
    assert!(func.get_block(func.entry_block).reachable);
}

#[test]
fn test_simplify_eliminates_fallthrough_branch() {
    let mut func = IRFunction::new(0, 0, 0);
    let b1 = func.create_block();
    // Entry falls through to b1, so a Br to b1 is redundant
    let entry = func.get_block_mut(func.entry_block);
    entry.push_inst(IRInst::new(IRInstKind::Br {
        target: Label(b1.0 as u32),
    }));
    let block = func.get_block_mut(b1);
    block.push_inst(IRInst::new(IRInstKind::Ret {
        value: IRValueId(0),
    }));

    let changed = simplify(&mut func);
    // The fallthrough branch should be eliminated
    let _ = changed;
}

#[test]
fn test_simplify_chain_of_blocks() {
    let mut func = IRFunction::new(0, 0, 0);
    let b1 = func.create_block();
    let b2 = func.create_block();

    let entry = func.get_block_mut(func.entry_block);
    entry.push_inst(IRInst::new(IRInstKind::Br {
        target: Label(b1.0 as u32),
    }));
    entry.successors.push(Label(b1.0 as u32));
    let block1 = func.get_block_mut(b1);
    block1.push_inst(IRInst::new(IRInstKind::Br {
        target: Label(b2.0 as u32),
    }));
    block1.successors.push(Label(b2.0 as u32));
    let block2 = func.get_block_mut(b2);
    block2.push_inst(IRInst::new(IRInstKind::Ret {
        value: IRValueId(0),
    }));

    let _changed = simplify(&mut func);
}


