use dala_ir::function::IRFunction;
use dala_ir::instruction::{IRInst, IRInstKind, SideEffects};
use dala_ir::opt::const_prop::{fold_constants, propagate_constants};
use dala_ir::value::IRValueId;

fn make_func_with_add() -> IRFunction {
    let mut func = IRFunction::new(0, 0, 0);
    let block_id = func.entry_block;
    let block = func.get_block_mut(block_id);

    // Emit: result = ConstSmallInt(3) + ConstSmallInt(4)
    block.push_inst(IRInst {
        kind: IRInstKind::Add,
        result: Some(IRValueId(0)),
        operands: vec![IRValueId(1), IRValueId(2)],
        beam_offset: 0,
        side_effects: SideEffects::none(),
    });
    block.push_inst(IRInst {
        kind: IRInstKind::Ret {
            value: IRValueId(0),
        },
        result: None,
        operands: vec![],
        beam_offset: 0,
        side_effects: SideEffects::none(),
    });

    func
}

#[test]
fn test_propagate_constants_detects_change() {
    let mut func = make_func_with_add();
    let changed = propagate_constants(&mut func);
    let _ = changed;
}

#[test]
fn test_fold_constants_no_change_on_non_const() {
    let mut func = IRFunction::new(0, 0, 0);
    let block = func.get_block_mut(func.entry_block);
    block.push_inst(IRInst {
        kind: IRInstKind::Add,
        result: Some(IRValueId(0)),
        operands: vec![IRValueId(1), IRValueId(2)],
        beam_offset: 0,
        side_effects: SideEffects::none(),
    });
    let changed = fold_constants(&mut func);
    assert!(!changed);
}

#[test]
fn test_fold_constants_empty_function() {
    let mut func = IRFunction::new(0, 0, 0);
    let changed = fold_constants(&mut func);
    assert!(!changed);
}

#[test]
fn test_fold_constants_div_by_zero_no_fold() {
    let mut func = make_func_with_add();
    let block = func.get_block_mut(func.entry_block);
    // Replace the Add with Div
    block.instructions[0].kind = IRInstKind::Div;
    let changed = fold_constants(&mut func);
    // Division by zero should NOT be folded (b=0 from ConstSmallInt)
    // Note: fold_constants doesn't seed value_map, so this tests the
    // function doesn't panic on Div instructions
    let _ = changed;
}

#[test]
fn test_fold_constants_rem_by_zero_no_fold() {
    let mut func = make_func_with_add();
    let block = func.get_block_mut(func.entry_block);
    block.instructions[0].kind = IRInstKind::Rem;
    let changed = fold_constants(&mut func);
    let _ = changed;
}

#[test]
fn test_fold_constants_simple_add_no_panic() {
    let mut func = make_func_with_add();
    let _changed = fold_constants(&mut func);
}

#[test]
fn test_fold_constants_sub() {
    let mut func = IRFunction::new(0, 0, 0);
    let block = func.get_block_mut(func.entry_block);
    block.push_inst(IRInst {
        kind: IRInstKind::ConstSmallInt { value: 6 },
        result: Some(IRValueId(0)),
        operands: vec![],
        beam_offset: 0,
        side_effects: SideEffects::none(),
    });
    block.push_inst(IRInst {
        kind: IRInstKind::ConstSmallInt { value: 7 },
        result: Some(IRValueId(1)),
        operands: vec![],
        beam_offset: 0,
        side_effects: SideEffects::none(),
    });
    block.push_inst(IRInst {
        kind: IRInstKind::Mul,
        result: Some(IRValueId(2)),
        operands: vec![IRValueId(0), IRValueId(1)],
        beam_offset: 0,
        side_effects: SideEffects::none(),
    });

    let _changed = fold_constants(&mut func);
}

#[test]
fn test_fold_constants_div() {
    let mut func = IRFunction::new(0, 0, 0);
    let block = func.get_block_mut(func.entry_block);
    block.push_inst(IRInst {
        kind: IRInstKind::ConstSmallInt { value: 20 },
        result: Some(IRValueId(0)),
        operands: vec![],
        beam_offset: 0,
        side_effects: SideEffects::none(),
    });
    block.push_inst(IRInst {
        kind: IRInstKind::ConstSmallInt { value: 4 },
        result: Some(IRValueId(1)),
        operands: vec![],
        beam_offset: 0,
        side_effects: SideEffects::none(),
    });
    block.push_inst(IRInst {
        kind: IRInstKind::Div,
        result: Some(IRValueId(2)),
        operands: vec![IRValueId(0), IRValueId(1)],
        beam_offset: 0,
        side_effects: SideEffects::none(),
    });

    let _changed = fold_constants(&mut func);
}

#[test]
fn test_fold_constants_comparison_eq() {
    let mut func = IRFunction::new(0, 0, 0);
    let block = func.get_block_mut(func.entry_block);
    block.push_inst(IRInst {
        kind: IRInstKind::ConstSmallInt { value: 5 },
        result: Some(IRValueId(0)),
        operands: vec![],
        beam_offset: 0,
        side_effects: SideEffects::none(),
    });
    block.push_inst(IRInst {
        kind: IRInstKind::ConstSmallInt { value: 5 },
        result: Some(IRValueId(1)),
        operands: vec![],
        beam_offset: 0,
        side_effects: SideEffects::none(),
    });
    block.push_inst(IRInst {
        kind: IRInstKind::Eq,
        result: Some(IRValueId(2)),
        operands: vec![IRValueId(0), IRValueId(1)],
        beam_offset: 0,
        side_effects: SideEffects::none(),
    });

    let _changed = fold_constants(&mut func);
}

#[test]
fn test_fold_constants_comparison_ne() {
    let mut func = IRFunction::new(0, 0, 0);
    let block = func.get_block_mut(func.entry_block);
    block.push_inst(IRInst {
        kind: IRInstKind::ConstSmallInt { value: 5 },
        result: Some(IRValueId(0)),
        operands: vec![],
        beam_offset: 0,
        side_effects: SideEffects::none(),
    });
    block.push_inst(IRInst {
        kind: IRInstKind::ConstSmallInt { value: 3 },
        result: Some(IRValueId(1)),
        operands: vec![],
        beam_offset: 0,
        side_effects: SideEffects::none(),
    });
    block.push_inst(IRInst {
        kind: IRInstKind::Ne,
        result: Some(IRValueId(2)),
        operands: vec![IRValueId(0), IRValueId(1)],
        beam_offset: 0,
        side_effects: SideEffects::none(),
    });

    let _changed = fold_constants(&mut func);
}

#[test]
fn test_fold_constants_comparison_gt() {
    let mut func = IRFunction::new(0, 0, 0);
    let block = func.get_block_mut(func.entry_block);
    block.push_inst(IRInst {
        kind: IRInstKind::ConstSmallInt { value: 10 },
        result: Some(IRValueId(0)),
        operands: vec![],
        beam_offset: 0,
        side_effects: SideEffects::none(),
    });
    block.push_inst(IRInst {
        kind: IRInstKind::ConstSmallInt { value: 5 },
        result: Some(IRValueId(1)),
        operands: vec![],
        beam_offset: 0,
        side_effects: SideEffects::none(),
    });
    block.push_inst(IRInst {
        kind: IRInstKind::Gt,
        result: Some(IRValueId(2)),
        operands: vec![IRValueId(0), IRValueId(1)],
        beam_offset: 0,
        side_effects: SideEffects::none(),
    });

    let _changed = fold_constants(&mut func);
}

#[test]
fn test_fold_constants_comparison_lt() {
    let mut func = IRFunction::new(0, 0, 0);
    let block = func.get_block_mut(func.entry_block);
    block.push_inst(IRInst {
        kind: IRInstKind::ConstSmallInt { value: 3 },
        result: Some(IRValueId(0)),
        operands: vec![],
        beam_offset: 0,
        side_effects: SideEffects::none(),
    });
    block.push_inst(IRInst {
        kind: IRInstKind::ConstSmallInt { value: 5 },
        result: Some(IRValueId(1)),
        operands: vec![],
        beam_offset: 0,
        side_effects: SideEffects::none(),
    });
    block.push_inst(IRInst {
        kind: IRInstKind::Lt,
        result: Some(IRValueId(2)),
        operands: vec![IRValueId(0), IRValueId(1)],
        beam_offset: 0,
        side_effects: SideEffects::none(),
    });

    let _changed = fold_constants(&mut func);
}

#[test]
fn test_fold_constants_bitwise_and() {
    let mut func = IRFunction::new(0, 0, 0);
    let block = func.get_block_mut(func.entry_block);
    block.push_inst(IRInst {
        kind: IRInstKind::ConstSmallInt { value: 0b1100 },
        result: Some(IRValueId(0)),
        operands: vec![],
        beam_offset: 0,
        side_effects: SideEffects::none(),
    });
    block.push_inst(IRInst {
        kind: IRInstKind::ConstSmallInt { value: 0b1010 },
        result: Some(IRValueId(1)),
        operands: vec![],
        beam_offset: 0,
        side_effects: SideEffects::none(),
    });
    block.push_inst(IRInst {
        kind: IRInstKind::BitAnd,
        result: Some(IRValueId(2)),
        operands: vec![IRValueId(0), IRValueId(1)],
        beam_offset: 0,
        side_effects: SideEffects::none(),
    });

    let _changed = fold_constants(&mut func);
}

#[test]
fn test_fold_constants_bitwise_or() {
    let mut func = IRFunction::new(0, 0, 0);
    let block = func.get_block_mut(func.entry_block);
    block.push_inst(IRInst {
        kind: IRInstKind::ConstSmallInt { value: 0b1100 },
        result: Some(IRValueId(0)),
        operands: vec![],
        beam_offset: 0,
        side_effects: SideEffects::none(),
    });
    block.push_inst(IRInst {
        kind: IRInstKind::ConstSmallInt { value: 0b0011 },
        result: Some(IRValueId(1)),
        operands: vec![],
        beam_offset: 0,
        side_effects: SideEffects::none(),
    });
    block.push_inst(IRInst {
        kind: IRInstKind::BitOr,
        result: Some(IRValueId(2)),
        operands: vec![IRValueId(0), IRValueId(1)],
        beam_offset: 0,
        side_effects: SideEffects::none(),
    });

    let _changed = fold_constants(&mut func);
}

#[test]
fn test_fold_constants_bitwise_xor() {
    let mut func = IRFunction::new(0, 0, 0);
    let block = func.get_block_mut(func.entry_block);
    block.push_inst(IRInst {
        kind: IRInstKind::ConstSmallInt { value: 0b1111 },
        result: Some(IRValueId(0)),
        operands: vec![],
        beam_offset: 0,
        side_effects: SideEffects::none(),
    });
    block.push_inst(IRInst {
        kind: IRInstKind::ConstSmallInt { value: 0b1010 },
        result: Some(IRValueId(1)),
        operands: vec![],
        beam_offset: 0,
        side_effects: SideEffects::none(),
    });
    block.push_inst(IRInst {
        kind: IRInstKind::BitXor,
        result: Some(IRValueId(2)),
        operands: vec![IRValueId(0), IRValueId(1)],
        beam_offset: 0,
        side_effects: SideEffects::none(),
    });

    let _changed = fold_constants(&mut func);
}

#[test]
fn test_fold_constants_shift_left() {
    let mut func = IRFunction::new(0, 0, 0);
    let block = func.get_block_mut(func.entry_block);
    block.push_inst(IRInst {
        kind: IRInstKind::ConstSmallInt { value: 1 },
        result: Some(IRValueId(0)),
        operands: vec![],
        beam_offset: 0,
        side_effects: SideEffects::none(),
    });
    block.push_inst(IRInst {
        kind: IRInstKind::ConstSmallInt { value: 4 },
        result: Some(IRValueId(1)),
        operands: vec![],
        beam_offset: 0,
        side_effects: SideEffects::none(),
    });
    block.push_inst(IRInst {
        kind: IRInstKind::ShiftLeft,
        result: Some(IRValueId(2)),
        operands: vec![IRValueId(0), IRValueId(1)],
        beam_offset: 0,
        side_effects: SideEffects::none(),
    });

    let _changed = fold_constants(&mut func);
}

#[test]
fn test_fold_constants_shift_right() {
    let mut func = IRFunction::new(0, 0, 0);
    let block = func.get_block_mut(func.entry_block);
    block.push_inst(IRInst {
        kind: IRInstKind::ConstSmallInt { value: 16 },
        result: Some(IRValueId(0)),
        operands: vec![],
        beam_offset: 0,
        side_effects: SideEffects::none(),
    });
    block.push_inst(IRInst {
        kind: IRInstKind::ConstSmallInt { value: 2 },
        result: Some(IRValueId(1)),
        operands: vec![],
        beam_offset: 0,
        side_effects: SideEffects::none(),
    });
    block.push_inst(IRInst {
        kind: IRInstKind::ShiftRight,
        result: Some(IRValueId(2)),
        operands: vec![IRValueId(0), IRValueId(1)],
        beam_offset: 0,
        side_effects: SideEffects::none(),
    });

    let _changed = fold_constants(&mut func);
}

#[test]
fn test_fold_constants_is_small_int() {
    let mut func = IRFunction::new(0, 0, 0);
    let block = func.get_block_mut(func.entry_block);
    block.push_inst(IRInst {
        kind: IRInstKind::ConstSmallInt { value: 42 },
        result: Some(IRValueId(0)),
        operands: vec![],
        beam_offset: 0,
        side_effects: SideEffects::none(),
    });
    block.push_inst(IRInst {
        kind: IRInstKind::IsSmallInt,
        result: Some(IRValueId(1)),
        operands: vec![IRValueId(0)],
        beam_offset: 0,
        side_effects: SideEffects::none(),
    });

    let _changed = fold_constants(&mut func);
}

#[test]
fn test_fold_constants_is_atom() {
    let mut func = IRFunction::new(0, 0, 0);
    let block = func.get_block_mut(func.entry_block);
    block.push_inst(IRInst {
        kind: IRInstKind::ConstAtom { index: 3 },
        result: Some(IRValueId(0)),
        operands: vec![],
        beam_offset: 0,
        side_effects: SideEffects::none(),
    });
    block.push_inst(IRInst {
        kind: IRInstKind::IsAtom,
        result: Some(IRValueId(1)),
        operands: vec![IRValueId(0)],
        beam_offset: 0,
        side_effects: SideEffects::none(),
    });

    let _changed = fold_constants(&mut func);
}

#[test]
fn test_fold_constants_is_nil() {
    let mut func = IRFunction::new(0, 0, 0);
    let block = func.get_block_mut(func.entry_block);
    block.push_inst(IRInst {
        kind: IRInstKind::ConstNil,
        result: Some(IRValueId(0)),
        operands: vec![],
        beam_offset: 0,
        side_effects: SideEffects::none(),
    });
    block.push_inst(IRInst {
        kind: IRInstKind::IsNil,
        result: Some(IRValueId(1)),
        operands: vec![IRValueId(0)],
        beam_offset: 0,
        side_effects: SideEffects::none(),
    });

    let _changed = fold_constants(&mut func);
}

#[test]
fn test_fold_constants_float_folded_to_int_bits() {
    let mut func = IRFunction::new(0, 0, 0);
    let block = func.get_block_mut(func.entry_block);
    block.push_inst(IRInst {
        kind: IRInstKind::ConstSmallInt {
            value: 1.5f64.to_bits() as i64,
        },
        result: Some(IRValueId(0)),
        operands: vec![],
        beam_offset: 0,
        side_effects: SideEffects::none(),
    });
    block.push_inst(IRInst {
        kind: IRInstKind::ConstSmallInt { value: 0 },
        result: Some(IRValueId(1)),
        operands: vec![],
        beam_offset: 0,
        side_effects: SideEffects::none(),
    });
    block.push_inst(IRInst {
        kind: IRInstKind::Add,
        result: Some(IRValueId(2)),
        operands: vec![IRValueId(0), IRValueId(1)],
        beam_offset: 0,
        side_effects: SideEffects::none(),
    });

    let _changed = fold_constants(&mut func);
}


