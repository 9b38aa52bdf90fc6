use dala_ir::function::{BasicBlock, IRFunction, StackMapEntry};
use dala_ir::instruction::{IRInst, IRInstKind, Label};
use dala_ir::value::IRValueId;
use dala_ir::{BlockId, TypeId};

#[test]
fn test_basic_block_new() {
    let bb = BasicBlock::new(Label(5));
    assert_eq!(bb.label.0, 5);
    assert!(bb.instructions.is_empty());
    assert!(bb.predecessors.is_empty());
    assert!(bb.successors.is_empty());
    assert!(bb.reachable);
}

#[test]
fn test_basic_block_default() {
    let bb = BasicBlock::default();
    assert_eq!(bb.label.0, 0);
    // Default derives reachable=false; new() sets reachable=true
    assert!(!bb.reachable);
}

#[test]
fn test_basic_block_push_inst() {
    let mut bb = BasicBlock::new(Label(0));
    bb.push_inst(IRInst::new(IRInstKind::Add));
    bb.push_inst(IRInst::new(IRInstKind::Ret {
        value: IRValueId(0),
    }));
    assert_eq!(bb.instructions.len(), 2);
}

#[test]
fn test_basic_block_terminator() {
    let mut bb = BasicBlock::new(Label(0));
    assert!(bb.terminator().is_none());

    bb.push_inst(IRInst::new(IRInstKind::Add));
    bb.push_inst(IRInst::new(IRInstKind::Ret {
        value: IRValueId(0),
    }));
    let term = bb.terminator().unwrap();
    assert!(matches!(term.kind, IRInstKind::Ret { .. }));
}

#[test]
fn test_basic_block_is_terminated() {
    let mut bb = BasicBlock::new(Label(0));
    assert!(!bb.is_terminated());

    bb.push_inst(IRInst::new(IRInstKind::Br { target: Label(1) }));
    assert!(bb.is_terminated());
}

#[test]
fn test_basic_block_not_terminated_on_non_terminator() {
    let mut bb = BasicBlock::new(Label(0));
    bb.push_inst(IRInst::new(IRInstKind::Add));
    assert!(!bb.is_terminated());
}

#[test]
fn test_basic_block_terminated_variants() {
    let terminators = [
        IRInstKind::Br { target: Label(0) },
        IRInstKind::BrIf {
            cond: IRValueId(0),
            true_target: Label(0),
            false_target: Label(1),
        },
        IRInstKind::Switch {
            value: IRValueId(0),
            default: Label(0),
            targets: vec![],
        },
        IRInstKind::Ret {
            value: IRValueId(0),
        },
        IRInstKind::TailCall {
            func: IRValueId(0),
            args: vec![],
        },
        IRInstKind::Throw {
            reason: IRValueId(0),
        },
    ];

    for kind in &terminators {
        let mut bb = BasicBlock::new(Label(0));
        bb.push_inst(IRInst::new(kind.clone()));
        assert!(bb.is_terminated(), "Expected {:?} to be a terminator", kind);
    }
}

#[test]
fn test_ir_function_new() {
    let func = IRFunction::new(1, 2, 3);
    assert_eq!(func.module, 1);
    assert_eq!(func.name, 2);
    assert_eq!(func.arity, 3);
    assert_eq!(func.file, 0);
    assert_eq!(func.line, 0);
    assert_eq!(func.blocks.len(), 1); // entry block
    assert_eq!(func.entry_block, BlockId(0));
    assert!(!func.compiled);
    assert!(func.stack_maps.is_empty());
}

#[test]
fn test_ir_function_create_block() {
    let mut func = IRFunction::new(0, 0, 0);
    let b1 = func.create_block();
    let b2 = func.create_block();
    assert_eq!(func.blocks.len(), 3);
    assert_eq!(b1, BlockId(1));
    assert_eq!(b2, BlockId(2));
}

#[test]
fn test_ir_function_get_block() {
    let mut func = IRFunction::new(0, 0, 0);
    let b1 = func.create_block();
    let block = func.get_block(b1);
    assert_eq!(block.label.0, 1);
}

#[test]
fn test_ir_function_get_block_mut() {
    let mut func = IRFunction::new(0, 0, 0);
    let b1 = func.create_block();
    let block = func.get_block_mut(b1);
    block.push_inst(IRInst::new(IRInstKind::Nop));
    assert_eq!(block.instructions.len(), 1);
}

#[test]
fn test_ir_function_block_count() {
    let mut func = IRFunction::new(0, 0, 0);
    assert_eq!(func.block_count(), 1);
    func.create_block();
    assert_eq!(func.block_count(), 2);
    func.create_block();
    assert_eq!(func.block_count(), 3);
}

#[test]
fn test_ir_function_name_str() {
    let func = IRFunction::new(0, 42, 0);
    assert_eq!(func.name_str(), "f42");
}

#[test]
fn test_ir_function_full_name() {
    let func = IRFunction::new(7, 42, 3);
    assert_eq!(func.full_name(), "m7.f42/3");
}

#[test]
fn test_ir_function_add_param_type() {
    let mut func = IRFunction::new(0, 0, 2);
    func.add_param_type(TypeId(0));
    func.add_param_type(TypeId(1));
    assert_eq!(func.param_types.len(), 2);
    assert_eq!(func.param_types[0], TypeId(0));
    assert_eq!(func.param_types[1], TypeId(1));
}

#[test]
fn test_ir_function_set_return_type() {
    let mut func = IRFunction::new(0, 0, 0);
    func.set_return_type(TypeId(5));
    assert_eq!(func.return_type, TypeId(5));
}

#[test]
fn test_ir_function_add_stack_map() {
    let mut func = IRFunction::new(0, 0, 0);
    func.add_stack_map(0, 0b101, 3);
    func.add_stack_map(4, 0b111, 5);
    assert_eq!(func.stack_maps.len(), 2);
    assert_eq!(func.stack_maps[0].instruction_offset, 0);
    assert_eq!(func.stack_maps[0].live_registers, 0b101);
    assert_eq!(func.stack_maps[0].live_stack_slots, 3);
    assert_eq!(func.stack_maps[1].instruction_offset, 4);
}

#[test]
fn test_ir_function_zero_arity() {
    let func = IRFunction::new(0, 0, 0);
    assert_eq!(func.arity, 0);
    assert!(func.param_types.is_empty());
}

#[test]
fn test_ir_function_many_blocks() {
    let mut func = IRFunction::new(0, 0, 0);
    for _ in 0..100 {
        func.create_block();
    }
    assert_eq!(func.block_count(), 101);
}

#[test]
fn test_stack_map_entry_zero() {
    let entry = StackMapEntry {
        instruction_offset: 0,
        live_registers: 0,
        live_stack_slots: 0,
    };
    assert_eq!(entry.instruction_offset, 0);
    assert_eq!(entry.live_registers, 0);
    assert_eq!(entry.live_stack_slots, 0);
}

#[test]
fn test_stack_map_entry_max() {
    let entry = StackMapEntry {
        instruction_offset: u32::MAX,
        live_registers: u64::MAX,
        live_stack_slots: u32::MAX,
    };
    assert_eq!(entry.instruction_offset, u32::MAX);
    assert_eq!(entry.live_registers, u64::MAX);
    assert_eq!(entry.live_stack_slots, u32::MAX);
}


