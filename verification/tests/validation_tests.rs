use dala_ir::function::IRFunction;
use dala_ir::instruction::{IRInst, IRInstKind, Label, SideEffects, is_terminator};
use dala_ir::opt::validation::{ValidationError, validate};
use dala_ir::value::IRValueId;

fn make_function_with_block(inst_kinds: Vec<IRInstKind>) -> IRFunction {
    let mut func = IRFunction::new(0, 0, 1);
    let entry_id = func.entry_block;
    let block = func.get_block_mut(entry_id);
    block.instructions.clear();

    for (i, kind) in inst_kinds.into_iter().enumerate() {
        let result = if is_terminator(&kind) {
            None
        } else {
            Some(IRValueId(i))
        };
        block.instructions.push(IRInst {
            kind,
            result,
            operands: vec![],
            beam_offset: 0,
            side_effects: SideEffects::none(),
        });
    }
    func
}

#[test]
fn valid_function_passes() {
    // A minimal valid function: define a value then return it.
    let mut func = IRFunction::new(0, 0, 0);
    let entry = func.entry_block;
    let block = func.get_block_mut(entry);
    // Define a constant value
    block.instructions.push(IRInst {
        kind: IRInstKind::ConstSmallInt { value: 42 },
        result: Some(IRValueId(0)),
        operands: vec![],
        beam_offset: 0,
        side_effects: SideEffects::none(),
    });
    // Return that value
    block.instructions.push(IRInst {
        kind: IRInstKind::Ret {
            value: IRValueId(0),
        },
        result: None,
        operands: vec![],
        beam_offset: 0,
        side_effects: SideEffects::none(),
    });
    let result = validate(&func);
    assert!(
        result.is_ok(),
        "valid function should pass validation, got: {:?}",
        result.err()
    );
}

#[test]
fn catches_missing_terminator() {
    let func = make_function_with_block(vec![]);
    let result = validate(&func);
    assert!(result.is_err());
    let errs = result.unwrap_err().0;
    assert!(
        errs.iter()
            .any(|e| matches!(e, ValidationError::MissingTerminator { .. }))
    );
}

#[test]
fn catches_multiple_terminators() {
    let func = make_function_with_block(vec![
        IRInstKind::Ret {
            value: IRValueId(0),
        },
        IRInstKind::Ret {
            value: IRValueId(0),
        },
    ]);
    let result = validate(&func);
    assert!(result.is_err());
    let errs = result.unwrap_err().0;
    assert!(
        errs.iter()
            .any(|e| matches!(e, ValidationError::MultipleTerminators { .. }))
    );
}

#[test]
fn catches_empty_function() {
    let func = IRFunction::new(0, 0, 0);
    // Clear the entry block to make it truly empty
    let mut func = func;
    func.blocks.clear();
    let result = validate(&func);
    assert!(result.is_err());
    let errs = result.unwrap_err().0;
    assert!(
        errs.iter()
            .any(|e| matches!(e, ValidationError::EmptyFunction))
    );
}

#[test]
fn catches_entry_with_predecessors() {
    let mut func = make_function_with_block(vec![IRInstKind::Ret {
        value: IRValueId(0),
    }]);
    let entry = func.entry_block;
    func.get_block_mut(entry).predecessors.push(Label(99));
    let result = validate(&func);
    assert!(result.is_err());
    let errs = result.unwrap_err().0;
    assert!(
        errs.iter()
            .any(|e| matches!(e, ValidationError::EntryHasPredecessors { .. }))
    );
}


