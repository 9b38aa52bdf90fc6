use dala_ir::function::IRFunction;
use dala_ir::instruction::{IRInst, IRInstKind, SideEffects};
use dala_ir::opt::escape_analysis::{EscapeStatus, analyze, find_allocations};
use dala_ir::value::IRValueId;

#[test]
fn test_escape_status_join() {
    assert!(matches!(
        EscapeStatus::NoEscape.join(EscapeStatus::NoEscape),
        EscapeStatus::NoEscape
    ));
    assert!(matches!(
        EscapeStatus::NoEscape.join(EscapeStatus::Escapes),
        EscapeStatus::Escapes
    ));
    assert!(matches!(
        EscapeStatus::Escapes.join(EscapeStatus::NoEscape),
        EscapeStatus::Escapes
    ));
    assert!(matches!(
        EscapeStatus::Conditional.join(EscapeStatus::NoEscape),
        EscapeStatus::Conditional
    ));
}

#[test]
fn test_escape_status_can_stack_allocate() {
    assert!(EscapeStatus::NoEscape.can_stack_allocate());
    assert!(!EscapeStatus::Escapes.can_stack_allocate());
    assert!(!EscapeStatus::Conditional.can_stack_allocate());
}

#[test]
fn test_allocations_found() {
    let mut func = IRFunction::new(0, 0, 1);
    let entry = func.entry_block;
    let block = func.get_block_mut(entry);

    // Add an allocation instruction
    block.instructions.push(IRInst {
        kind: IRInstKind::Alloc { words: 4 },
        result: Some(IRValueId(0)),
        operands: vec![],
        beam_offset: 0,
        side_effects: SideEffects {
            allocates: true,
            ..SideEffects::none()
        },
    });
    // Add a return
    block.instructions.push(IRInst {
        kind: IRInstKind::Ret {
            value: IRValueId(0),
        },
        result: None,
        operands: vec![],
        beam_offset: 0,
        side_effects: SideEffects::none(),
    });

    let allocs = find_allocations(&func);
    assert!(!allocs.is_empty());
}

#[test]
fn test_returned_value_escapes() {
    let mut func = IRFunction::new(0, 0, 1);
    let entry = func.entry_block;
    let block = func.get_block_mut(entry);

    block.instructions.push(IRInst {
        kind: IRInstKind::Alloc { words: 4 },
        result: Some(IRValueId(0)),
        operands: vec![],
        beam_offset: 0,
        side_effects: SideEffects {
            allocates: true,
            ..SideEffects::none()
        },
    });
    block.instructions.push(IRInst {
        kind: IRInstKind::Ret {
            value: IRValueId(0),
        },
        result: None,
        operands: vec![],
        beam_offset: 0,
        side_effects: SideEffects::none(),
    });

    let info = analyze(&func);
    let alloc_info = info.get(&IRValueId(0)).unwrap();
    assert!(matches!(alloc_info.status, EscapeStatus::Escapes));
}

#[test]
fn test_local_only_value_does_not_escape() {
    let mut func = IRFunction::new(0, 0, 1);
    let entry = func.entry_block;
    let block = func.get_block_mut(entry);

    // Allocate
    block.instructions.push(IRInst {
        kind: IRInstKind::Alloc { words: 4 },
        result: Some(IRValueId(0)),
        operands: vec![],
        beam_offset: 0,
        side_effects: SideEffects {
            allocates: true,
            ..SideEffects::none()
        },
    });
    // Use locally (type test)
    block.instructions.push(IRInst {
        kind: IRInstKind::IsTuple,
        result: Some(IRValueId(1)),
        operands: vec![IRValueId(0)],
        beam_offset: 0,
        side_effects: SideEffects::none(),
    });
    // Return something else
    block.instructions.push(IRInst {
        kind: IRInstKind::Ret {
            value: IRValueId(1),
        },
        result: None,
        operands: vec![],
        beam_offset: 0,
        side_effects: SideEffects::none(),
    });

    let info = analyze(&func);
    let alloc_info = info.get(&IRValueId(0)).unwrap();
    assert!(matches!(alloc_info.status, EscapeStatus::NoEscape));
}

#[test]
fn test_sent_value_escapes() {
    let mut func = IRFunction::new(0, 0, 2);
    let entry = func.entry_block;
    let block = func.get_block_mut(entry);

    block.instructions.push(IRInst {
        kind: IRInstKind::Alloc { words: 4 },
        result: Some(IRValueId(0)),
        operands: vec![],
        beam_offset: 0,
        side_effects: SideEffects {
            allocates: true,
            ..SideEffects::none()
        },
    });
    block.instructions.push(IRInst {
        kind: IRInstKind::Send {
            dest: IRValueId(1),
            msg: IRValueId(0),
        },
        result: None,
        operands: vec![],
        beam_offset: 0,
        side_effects: SideEffects {
            writes_heap: true,
            ..SideEffects::none()
        },
    });
    block.instructions.push(IRInst {
        kind: IRInstKind::Ret {
            value: IRValueId(1),
        },
        result: None,
        operands: vec![],
        beam_offset: 0,
        side_effects: SideEffects::none(),
    });

    let info = analyze(&func);
    let alloc_info = info.get(&IRValueId(0)).unwrap();
    assert!(matches!(alloc_info.status, EscapeStatus::Escapes));
}


