use dala_ir::builder::IRBuilder;
use dala_ir::constant::Constant;
use dala_ir::instruction::{IRInstKind, SideEffects};
use dala_ir::value::IRValueId;
use dala_ir::{BlockId, InstId, TypeId};

#[test]
fn test_builder_new() {
    let builder = IRBuilder::new(1, 2, 3);
    assert_eq!(builder.function.module, 1);
    assert_eq!(builder.function.name, 2);
    assert_eq!(builder.function.arity, 3);
    assert_eq!(builder.current_block(), BlockId(0));
}

#[test]
fn test_builder_default() {
    let builder = IRBuilder::default();
    assert_eq!(builder.function.module, 0);
    assert_eq!(builder.function.name, 0);
    assert_eq!(builder.function.arity, 0);
}

#[test]
fn test_builder_current_block() {
    let mut builder = IRBuilder::new(0, 0, 0);
    assert_eq!(builder.current_block(), BlockId(0));

    let b1 = builder.create_block();
    builder.set_current_block(b1);
    assert_eq!(builder.current_block(), b1);
}

#[test]
fn test_builder_create_block() {
    let mut builder = IRBuilder::new(0, 0, 0);
    let b1 = builder.create_block();
    let b2 = builder.create_block();
    assert_eq!(b1, BlockId(1));
    assert_eq!(b2, BlockId(2));
    assert_eq!(builder.function.block_count(), 3);
}

#[test]
fn test_builder_seal_block() {
    let mut builder = IRBuilder::new(0, 0, 0);
    let new_block = builder.seal_block();
    assert_eq!(builder.current_block(), new_block);
    assert_eq!(builder.function.block_count(), 2);
}

#[test]
fn test_builder_constant() {
    let mut builder = IRBuilder::new(0, 0, 0);
    let val_id = builder.constant(Constant::Int(42));
    let val = builder.get_value(val_id);
    assert!(val.is_constant());
    assert_eq!(val.as_int(), Some(42));
}

#[test]
fn test_builder_const_small_int() {
    let mut builder = IRBuilder::new(0, 0, 0);
    let val_id = builder.const_small_int(42);
    let val = builder.get_value(val_id);
    assert!(val.is_constant());
    assert_eq!(val.as_int(), Some(42));
}

#[test]
fn test_builder_const_small_int_zero() {
    let mut builder = IRBuilder::new(0, 0, 0);
    let val_id = builder.const_small_int(0);
    assert_eq!(builder.get_value(val_id).as_int(), Some(0));
}

#[test]
fn test_builder_const_small_int_negative() {
    let mut builder = IRBuilder::new(0, 0, 0);
    let val_id = builder.const_small_int(-1);
    assert_eq!(builder.get_value(val_id).as_int(), Some(-1));
}

#[test]
fn test_builder_const_small_int_min() {
    let mut builder = IRBuilder::new(0, 0, 0);
    let val_id = builder.const_small_int(i64::MIN);
    assert_eq!(builder.get_value(val_id).as_int(), Some(i64::MIN));
}

#[test]
fn test_builder_const_small_int_max() {
    let mut builder = IRBuilder::new(0, 0, 0);
    let val_id = builder.const_small_int(i64::MAX);
    assert_eq!(builder.get_value(val_id).as_int(), Some(i64::MAX));
}

#[test]
fn test_builder_const_atom() {
    let mut builder = IRBuilder::new(0, 0, 0);
    let val_id = builder.const_atom(5);
    let val = builder.get_value(val_id);
    assert!(val.is_constant());
    assert_eq!(val.as_atom_index(), Some(5));
}

#[test]
fn test_builder_const_nil() {
    let mut builder = IRBuilder::new(0, 0, 0);
    let val_id = builder.const_nil();
    let val = builder.get_value(val_id);
    assert!(val.is_constant());
    assert_eq!(val.as_bool(), None);
}

#[test]
fn test_builder_const_true() {
    let mut builder = IRBuilder::new(0, 0, 0);
    let val_id = builder.const_true();
    let val = builder.get_value(val_id);
    assert!(val.is_constant());
    assert_eq!(val.as_bool(), Some(true));
}

#[test]
fn test_builder_const_false() {
    let mut builder = IRBuilder::new(0, 0, 0);
    let val_id = builder.const_false();
    let val = builder.get_value(val_id);
    assert!(val.is_constant());
    assert_eq!(val.as_bool(), Some(false));
}

#[test]
fn test_builder_get_x_reg_first_read() {
    let mut builder = IRBuilder::new(0, 0, 0);
    let val_id = builder.get_x_reg(0);
    // First read creates a placeholder
    assert_eq!(val_id, IRValueId(0));
}

#[test]
fn test_builder_get_x_reg_after_write() {
    let mut builder = IRBuilder::new(0, 0, 0);
    let written = builder.const_small_int(42);
    builder.set_x_reg(0, written);
    let read = builder.get_x_reg(0);
    assert_eq!(read, written);
}

#[test]
fn test_builder_get_x_reg_high_index() {
    let mut builder = IRBuilder::new(0, 0, 0);
    let val_id = builder.get_x_reg(255);
    assert_eq!(val_id, IRValueId(0));
}

#[test]
fn test_builder_get_y_reg_first_read() {
    let mut builder = IRBuilder::new(0, 0, 0);
    let val_id = builder.get_y_reg(0);
    assert_eq!(val_id, IRValueId(0));
}

#[test]
fn test_builder_get_y_reg_after_write() {
    let mut builder = IRBuilder::new(0, 0, 0);
    let written = builder.const_small_int(99);
    builder.set_y_reg(5, written);
    let read = builder.get_y_reg(5);
    assert_eq!(read, written);
}

#[test]
fn test_builder_set_x_reg_overwrite() {
    let mut builder = IRBuilder::new(0, 0, 0);
    let v1 = builder.const_small_int(1);
    let v2 = builder.const_small_int(2);
    builder.set_x_reg(0, v1);
    builder.set_x_reg(0, v2);
    assert_eq!(builder.get_x_reg(0), v2);
}

#[test]
fn test_builder_emit() {
    let mut builder = IRBuilder::new(0, 0, 0);
    builder.emit(IRInstKind::Nop);
    let block = builder.function.get_block(BlockId(0));
    assert_eq!(block.instructions.len(), 1);
}

#[test]
fn test_builder_emit_with_side_effects() {
    let mut builder = IRBuilder::new(0, 0, 0);
    builder.emit_with_side_effects(
        IRInstKind::Alloc { words: 10 },
        SideEffects {
            allocates: true,
            ..SideEffects::none()
        },
    );
    let block = builder.function.get_block(BlockId(0));
    assert!(block.instructions[0].side_effects.allocates);
}

#[test]
fn test_builder_emit_with_result() {
    let mut builder = IRBuilder::new(0, 0, 0);
    let (inst_id, result_id) = builder.emit_with_result(IRInstKind::Add, TypeId(0));
    assert_eq!(inst_id, InstId(0));
    let block = builder.function.get_block(BlockId(0));
    assert_eq!(block.instructions.len(), 1);
    assert!(block.instructions[0].result.is_some());
    assert_eq!(block.instructions[0].result.unwrap(), result_id);
}

#[test]
fn test_builder_emit_add() {
    let mut builder = IRBuilder::new(0, 0, 0);
    let a = builder.const_small_int(3);
    let b = builder.const_small_int(4);
    let result = builder.emit_add(a, b);
    let block = builder.function.get_block(BlockId(0));
    assert_eq!(block.instructions.len(), 1);
    assert_eq!(block.instructions[0].operands, vec![a, b]);
    assert!(block.instructions[0].result.is_some());
}

#[test]
fn test_builder_emit_sub() {
    let mut builder = IRBuilder::new(0, 0, 0);
    let a = builder.const_small_int(10);
    let b = builder.const_small_int(3);
    let result = builder.emit_sub(a, b);
    let block = builder.function.get_block(BlockId(0));
    assert_eq!(block.instructions[0].operands, vec![a, b]);
}

#[test]
fn test_builder_emit_mul() {
    let mut builder = IRBuilder::new(0, 0, 0);
    let a = builder.const_small_int(5);
    let b = builder.const_small_int(6);
    let result = builder.emit_mul(a, b);
    let block = builder.function.get_block(BlockId(0));
    assert_eq!(block.instructions[0].operands, vec![a, b]);
}

#[test]
fn test_builder_emit_br() {
    let mut builder = IRBuilder::new(0, 0, 0);
    let target = builder.create_block();
    builder.emit_br(target);
    let block = builder.function.get_block(BlockId(0));
    assert!(matches!(block.instructions[0].kind, IRInstKind::Br { .. }));
}

#[test]
fn test_builder_emit_br_if() {
    let mut builder = IRBuilder::new(0, 0, 0);
    let cond = builder.const_true();
    let t_block = builder.create_block();
    let f_block = builder.create_block();
    builder.emit_br_if(cond, t_block, f_block);
    let block = builder.function.get_block(BlockId(0));
    assert!(matches!(
        block.instructions[0].kind,
        IRInstKind::BrIf { .. }
    ));
}

#[test]
fn test_builder_emit_ret() {
    let mut builder = IRBuilder::new(0, 0, 0);
    let val = builder.const_small_int(42);
    builder.emit_ret(val);
    let block = builder.function.get_block(BlockId(0));
    assert!(matches!(block.instructions[0].kind, IRInstKind::Ret { .. }));
}

#[test]
fn test_builder_emit_call() {
    let mut builder = IRBuilder::new(0, 0, 0);
    let func = builder.const_atom(1);
    let a1 = builder.const_small_int(1);
    let a2 = builder.const_small_int(2);
    let result = builder.emit_call(func, &[a1, a2]);
    let block = builder.function.get_block(BlockId(0));
    assert!(matches!(
        block.instructions[0].kind,
        IRInstKind::Call { .. }
    ));
    assert!(block.instructions[0].side_effects.calls);
    assert!(block.instructions[0].side_effects.may_raise);
    assert!(block.instructions[0].side_effects.allocates);
}

#[test]
fn test_builder_emit_gc_safe() {
    let mut builder = IRBuilder::new(0, 0, 0);
    builder.emit_gc_safe();
    let block = builder.function.get_block(BlockId(0));
    assert!(matches!(block.instructions[0].kind, IRInstKind::GcSafe));
}

#[test]
fn test_builder_multiple_constants_unique_ids() {
    let mut builder = IRBuilder::new(0, 0, 0);
    let v1 = builder.const_small_int(1);
    let v2 = builder.const_small_int(2);
    let v3 = builder.const_small_int(3);
    assert_ne!(v1, v2);
    assert_ne!(v2, v3);
    assert_ne!(v1, v3);
}


