use dala_ir::function::IRFunction;
use dala_ir::instruction::{IRInst, IRInstKind};
use dala_ir::opt;
use dala_ir::opt::run_pass;
use dala_ir::value::IRValueId;

#[test]
fn test_run_pass_unknown() {
    let mut func = IRFunction::new(0, 0, 0);
    let changed = run_pass(&mut func, "nonexistent-pass");
    assert!(!changed);
}

#[test]
fn test_run_pass_dce() {
    let mut func = IRFunction::new(0, 0, 0);
    let _changed = run_pass(&mut func, "dce");
}

#[test]
fn test_run_pass_const_prop() {
    let mut func = IRFunction::new(0, 0, 0);
    let _changed = run_pass(&mut func, "const-prop");
}

#[test]
fn test_run_pass_fold() {
    let mut func = IRFunction::new(0, 0, 0);
    let _changed = run_pass(&mut func, "fold");
}

#[test]
fn test_run_pass_simplify_cfg() {
    let mut func = IRFunction::new(0, 0, 0);
    let _changed = run_pass(&mut func, "simplify-cfg");
}

#[test]
fn test_run_pass_cse() {
    let mut func = IRFunction::new(0, 0, 0);
    let _changed = run_pass(&mut func, "cse");
}

#[test]
fn test_run_pass_tail_call() {
    let mut func = IRFunction::new(0, 0, 0);
    let _changed = run_pass(&mut func, "tail-call");
}

#[test]
fn test_run_pass_pattern_match() {
    let mut func = IRFunction::new(0, 0, 0);
    let _changed = run_pass(&mut func, "pattern-match");
}

#[test]
fn test_run_pass_type_inference() {
    let mut func = IRFunction::new(0, 0, 0);
    let _changed = run_pass(&mut func, "type-inference");
}

#[test]
fn test_run_pass_escape_analysis() {
    let mut func = IRFunction::new(0, 0, 0);
    let _changed = run_pass(&mut func, "escape-analysis");
}

#[test]
fn test_run_pass_native_specialize() {
    let mut func = IRFunction::new(0, 0, 0);
    let _changed = run_pass(&mut func, "native-specialize");
}

#[test]
fn test_run_pass_speculative() {
    let mut func = IRFunction::new(0, 0, 0);
    let _changed = run_pass(&mut func, "speculative");
}

#[test]
fn test_optimize_empty_function() {
    let mut func = IRFunction::new(0, 0, 0);
    opt::optimize(&mut func);
    // Should not panic
}

#[test]
fn test_optimize_simple_function() {
    let mut func = IRFunction::new(0, 0, 0);
    let block = func.get_block_mut(func.entry_block);
    block.push_inst(IRInst::new(IRInstKind::Ret {
        value: IRValueId(0),
    }));
    opt::optimize(&mut func);
    // Should not panic
}

#[test]
fn test_optimize_with_unreachable_blocks() {
    let mut func = IRFunction::new(0, 0, 0);
    let unreachable = func.create_block();
    let block = func.get_block_mut(unreachable);
    block.push_inst(IRInst::new(IRInstKind::Nop));

    let entry = func.get_block_mut(func.entry_block);
    entry.push_inst(IRInst::new(IRInstKind::Ret {
        value: IRValueId(0),
    }));

    opt::optimize(&mut func);
    // Unreachable block should be cleaned up
    assert!(!func.get_block(unreachable).reachable);
}


