use dala_ir::function::IRFunction;
use dala_ir::instruction::{IRInst, IRInstKind, SideEffects, is_terminator};
use dala_ir::opt::tail_call::analyze;
use dala_ir::value::IRValueId;

/// Helper: build a minimal `IRFunction` with one block whose
/// instructions are given as a `Vec<IRInstKind>`.  Each instruction
/// is assigned a fresh `IRValueId` result (except terminators).
fn make_function_with_block(inst_kinds: Vec<IRInstKind>) -> IRFunction {
    let mut func = IRFunction::new(0, 0, 1);
    // Clear the auto-created entry block instructions and replace.
    let entry_id = func.entry_block;
    let block = func.get_block_mut(entry_id);
    block.instructions.clear();

    for (i, kind) in inst_kinds.into_iter().enumerate() {
        let result = if is_terminator(&kind) {
            None
        } else {
            Some(IRValueId(i))
        };
        block.instructions.push(IRInst {
            kind,
            result,
            operands: vec![],
            beam_offset: 0,
            side_effects: SideEffects::none(),
        });
    }

    func
}

#[test]
fn test_tail_call_detected_before_ret() {
    // Simulate:  result = call(f, [arg]) ; ret(result)
    let mut func = make_function_with_block(vec![
        IRInstKind::Call {
            func: IRValueId(99),
            args: vec![IRValueId(0)],
        },
        IRInstKind::Ret {
            value: IRValueId(0),
        },
    ]);

    let changed = analyze(&mut func);
    assert!(changed, "tail call should be detected");

    let block = func.get_block(func.entry_block);
    match &block.instructions[0].kind {
        IRInstKind::TailCall { .. } => {} // good
        other => panic!("expected TailCall, got {:?}", other),
    }
}

#[test]
fn test_non_tail_call_not_converted() {
    // Simulate:  result = call(f, [arg]) ; x = add(result, 1) ; ret(x)
    // The call is NOT in tail position because another instruction
    // follows it before the Ret.
    let mut func = make_function_with_block(vec![
        IRInstKind::Call {
            func: IRValueId(99),
            args: vec![IRValueId(0)],
        },
        IRInstKind::Add,
        IRInstKind::Ret {
            value: IRValueId(2),
        },
    ]);

    let changed = analyze(&mut func);
    assert!(!changed, "non-tail call should NOT be converted");

    let block = func.get_block(func.entry_block);
    assert!(matches!(
        block.instructions[0].kind,
        IRInstKind::Call { .. }
    ));
}

#[test]
fn test_tail_call_before_throw() {
    // Tail call before a Throw terminator.
    let mut func = make_function_with_block(vec![
        IRInstKind::Call {
            func: IRValueId(99),
            args: vec![IRValueId(0)],
        },
        IRInstKind::Throw {
            reason: IRValueId(0),
        },
    ]);

    let changed = analyze(&mut func);
    assert!(changed);

    let block = func.get_block(func.entry_block);
    assert!(matches!(
        block.instructions[0].kind,
        IRInstKind::TailCall { .. }
    ));
}

#[test]
fn test_recursive_tail_call_pattern() {
    // Simulate a classic recursive tail call:
    //   _ = self(arg)   // tail call
    //   ret _
    let mut func = make_function_with_block(vec![
        IRInstKind::Call {
            func: IRValueId(42), // "self"
            args: vec![IRValueId(0)],
        },
        IRInstKind::Ret {
            value: IRValueId(0),
        },
    ]);

    assert!(analyze(&mut func));

    // After conversion the first instruction must be a TailCall.
    let block = func.get_block(func.entry_block);
    match &block.instructions[0].kind {
        IRInstKind::TailCall { func, args } => {
            assert_eq!(*func, IRValueId(42));
            assert_eq!(*args, vec![IRValueId(0)]);
        }
        other => panic!("expected TailCall, got {:?}", other),
    }
}

#[test]
fn test_deeply_scanned_nop_skip() {
    // Nop between call and ret should be skipped.
    let mut func = make_function_with_block(vec![
        IRInstKind::Call {
            func: IRValueId(10),
            args: vec![],
        },
        IRInstKind::Nop,
        IRInstKind::Ret {
            value: IRValueId(0),
        },
    ]);

    assert!(analyze(&mut func));

    let block = func.get_block(func.entry_block);
    assert!(matches!(
        block.instructions[0].kind,
        IRInstKind::TailCall { .. }
    ));
}

#[test]
fn test_empty_block_no_panic() {
    let mut func = IRFunction::new(0, 0, 0);
    // Entry block with no instructions.
    let entry = func.entry_block;
    func.get_block_mut(entry).instructions.clear();
    let changed = analyze(&mut func);
    assert!(!changed);
}

#[test]
fn test_single_instruction_no_panic() {
    let mut func = make_function_with_block(vec![IRInstKind::Ret {
        value: IRValueId(0),
    }]);
    let changed = analyze(&mut func);
    assert!(!changed);
}


