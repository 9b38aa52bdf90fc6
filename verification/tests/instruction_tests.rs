use dala_ir::instruction::{IRInst, IRInstKind, Label, Reg, SideEffects, TensorOpKind};
use dala_ir::type_system::{IRType, TypeKind};
use dala_ir::value::IRValueId;

#[test]
fn test_side_effects_none_is_all_false() {
    let e = SideEffects::none();
    assert!(!e.allocates);
    assert!(!e.reads_heap);
    assert!(!e.writes_heap);
    assert!(!e.may_raise);
    assert!(!e.calls);
    assert!(!e.may_yield);
}

#[test]
fn test_side_effects_all_is_all_true() {
    let e = SideEffects::all();
    assert!(e.allocates);
    assert!(e.reads_heap);
    assert!(e.writes_heap);
    assert!(e.may_raise);
    assert!(e.calls);
    assert!(e.may_yield);
}

#[test]
fn test_side_effects_single_flag() {
    let e = SideEffects {
        may_raise: true,
        ..SideEffects::none()
    };
    assert!(e.may_raise);
    assert!(!e.allocates);
    assert!(!e.calls);
}

#[test]
fn test_side_effects_combination() {
    let mut e = SideEffects::none();
    e.allocates = true;
    e.may_raise = true;
    assert!(e.allocates);
    assert!(e.may_raise);
    assert!(!e.writes_heap);
}

#[test]
fn test_inst_new_has_no_result_and_no_operands() {
    let inst = IRInst::new(IRInstKind::Add);
    assert!(inst.result.is_none());
    assert!(inst.operands.is_empty());
    assert_eq!(inst.beam_offset, 0);
    assert_eq!(inst.side_effects, SideEffects::none());
}

#[test]
fn test_inst_with_result_has_result() {
    let id = IRValueId(42);
    let inst = IRInst::with_result(IRInstKind::Mul, id);
    assert_eq!(inst.result, Some(id));
    assert!(inst.operands.is_empty());
}

#[test]
fn test_inst_add_operand() {
    let mut inst = IRInst::new(IRInstKind::Add);
    inst.add_operand(IRValueId(1));
    inst.add_operand(IRValueId(2));
    assert_eq!(inst.operands.len(), 2);
    assert_eq!(inst.operands[0], IRValueId(1));
    assert_eq!(inst.operands[1], IRValueId(2));
}

#[test]
fn test_inst_set_side_effects() {
    let mut inst = IRInst::new(IRInstKind::Alloc { words: 10 });
    assert!(!inst.side_effects.allocates);
    inst.set_side_effects(SideEffects::all());
    assert!(inst.side_effects.allocates);
    assert!(inst.side_effects.may_raise);
}

#[test]
fn test_inst_may_gc() {
    let no_gc = IRInst::new(IRInstKind::Add);
    assert!(!no_gc.may_gc());

    let alloc = IRInst::new(IRInstKind::Alloc { words: 5 });
    let mut alloc_with_effects = alloc.clone();
    // Default Alloc has no side effects set; may_gc checks side_effects.allocates
    assert!(!alloc.may_gc());

    let mut inst = IRInst::new(IRInstKind::Add);
    inst.side_effects.allocates = true;
    assert!(inst.may_gc());
}

#[test]
fn test_inst_may_raise() {
    let safe = IRInst::new(IRInstKind::Add);
    assert!(!safe.may_raise());

    let mut throwing = IRInst::new(IRInstKind::Div);
    throwing.side_effects.may_raise = true;
    assert!(throwing.may_raise());
}

#[test]
fn test_inst_may_yield() {
    let no_yield = IRInst::new(IRInstKind::Ret {
        value: IRValueId(0),
    });
    assert!(!no_yield.may_yield());

    let mut yielding = IRInst::new(IRInstKind::ConsumeReductions { count: 1 });
    yielding.side_effects.may_yield = true;
    assert!(yielding.may_yield());
}

#[test]
fn test_inst_kind_arithmetic_variants() {
    let _ = IRInst::new(IRInstKind::Add);
    let _ = IRInst::new(IRInstKind::Sub);
    let _ = IRInst::new(IRInstKind::Mul);
    let _ = IRInst::new(IRInstKind::Div);
    let _ = IRInst::new(IRInstKind::Rem);
    let _ = IRInst::new(IRInstKind::Neg);
}

#[test]
fn test_inst_kind_bitwise_variants() {
    let _ = IRInst::new(IRInstKind::BitAnd);
    let _ = IRInst::new(IRInstKind::BitOr);
    let _ = IRInst::new(IRInstKind::BitXor);
    let _ = IRInst::new(IRInstKind::BitNot);
    let _ = IRInst::new(IRInstKind::ShiftLeft);
    let _ = IRInst::new(IRInstKind::ShiftRight);
}

#[test]
fn test_inst_kind_comparison_variants() {
    let _ = IRInst::new(IRInstKind::Eq);
    let _ = IRInst::new(IRInstKind::Ne);
    let _ = IRInst::new(IRInstKind::Gt);
    let _ = IRInst::new(IRInstKind::Ge);
    let _ = IRInst::new(IRInstKind::Lt);
    let _ = IRInst::new(IRInstKind::Le);
}

#[test]
fn test_inst_kind_type_test_variants() {
    let _ = IRInst::new(IRInstKind::IsSmallInt);
    let _ = IRInst::new(IRInstKind::IsFloat);
    let _ = IRInst::new(IRInstKind::IsAtom);
    let _ = IRInst::new(IRInstKind::IsTuple);
    let _ = IRInst::new(IRInstKind::IsList);
    let _ = IRInst::new(IRInstKind::IsMap);
    let _ = IRInst::new(IRInstKind::IsBinary);
    let _ = IRInst::new(IRInstKind::IsFun);
    let _ = IRInst::new(IRInstKind::IsPid);
    let _ = IRInst::new(IRInstKind::IsNil);
    let _ = IRInst::new(IRInstKind::IsTrue);
    let _ = IRInst::new(IRInstKind::IsFalse);
    let _ = IRInst::new(IRInstKind::IsStableTuple);
    let _ = IRInst::new(IRInstKind::IsMessage);
    let _ = IRInst::new(IRInstKind::IsActor);
    let _ = IRInst::new(IRInstKind::IsTensor);
    let _ = IRInst::new(IRInstKind::IsCapability);
}

#[test]
fn test_inst_kind_memory_variants() {
    let _ = IRInst::new(IRInstKind::Alloc { words: 0 });
    let _ = IRInst::new(IRInstKind::Alloc { words: u32::MAX });
    let _ = IRInst::new(IRInstKind::Load {
        base: IRValueId(0),
        offset: 0,
    });
    let _ = IRInst::new(IRInstKind::Store {
        base: IRValueId(0),
        offset: u32::MAX,
        value: IRValueId(1),
    });
    let _ = IRInst::new(IRInstKind::TupleGet {
        tuple: IRValueId(0),
        index: 0,
    });
    let _ = IRInst::new(IRInstKind::TupleSet {
        tuple: IRValueId(0),
        index: u32::MAX,
        value: IRValueId(1),
    });
}

#[test]
fn test_inst_kind_control_flow_variants() {
    let _ = IRInst::new(IRInstKind::Br { target: Label(0) });
    let _ = IRInst::new(IRInstKind::BrIf {
        cond: IRValueId(0),
        true_target: Label(1),
        false_target: Label(2),
    });
    let _ = IRInst::new(IRInstKind::Switch {
        value: IRValueId(0),
        default: Label(0),
        targets: vec![(0, Label(1)), (1, Label(2))],
    });
    let _ = IRInst::new(IRInstKind::Ret {
        value: IRValueId(0),
    });
    let _ = IRInst::new(IRInstKind::Call {
        func: IRValueId(0),
        args: vec![IRValueId(1), IRValueId(2)],
    });
    let _ = IRInst::new(IRInstKind::TailCall {
        func: IRValueId(0),
        args: vec![],
    });
    let _ = IRInst::new(IRInstKind::CallBif {
        module: IRValueId(0),
        function: IRValueId(1),
        args: vec![],
    });
}

#[test]
fn test_inst_kind_exception_variants() {
    let _ = IRInst::new(IRInstKind::Catch { handler: Label(99) });
    let _ = IRInst::new(IRInstKind::CatchPop);
    let _ = IRInst::new(IRInstKind::Throw {
        reason: IRValueId(0),
    });
    let _ = IRInst::new(IRInstKind::Resume {
        exception: IRValueId(0),
    });
}

#[test]
fn test_inst_kind_process_variants() {
    let _ = IRInst::new(IRInstKind::ConsumeReductions { count: 0 });
    let _ = IRInst::new(IRInstKind::Send {
        dest: IRValueId(0),
        msg: IRValueId(1),
    });
    let _ = IRInst::new(IRInstKind::Recv { timeout: 0 });
}

#[test]
fn test_inst_kind_literal_variants() {
    let _ = IRInst::new(IRInstKind::LoadLiteral { index: 0 });
    let _ = IRInst::new(IRInstKind::ConstSmallInt { value: 0 });
    let _ = IRInst::new(IRInstKind::ConstSmallInt { value: i64::MIN });
    let _ = IRInst::new(IRInstKind::ConstSmallInt { value: i64::MAX });
    let _ = IRInst::new(IRInstKind::ConstAtom { index: 0 });
    let _ = IRInst::new(IRInstKind::ConstNil);
    let _ = IRInst::new(IRInstKind::ConstTrue);
    let _ = IRInst::new(IRInstKind::ConstFalse);
}

#[test]
fn test_inst_kind_binary_variants() {
    let _ = IRInst::new(IRInstKind::BinaryNew { data: IRValueId(0) });
    let _ = IRInst::new(IRInstKind::BinarySize {
        binary: IRValueId(0),
    });
    let _ = IRInst::new(IRInstKind::BinaryExtract {
        binary: IRValueId(0),
        offset: IRValueId(1),
        size: IRValueId(2),
        flags: 0,
    });
}

#[test]
fn test_inst_kind_fun_variants() {
    let _ = IRInst::new(IRInstKind::MakeFun {
        module: IRValueId(0),
        function: IRValueId(1),
        arity: 0,
        fvs: vec![],
    });
}

#[test]
fn test_inst_kind_actor_variants() {
    let _ = IRInst::new(IRInstKind::SpawnActor {
        module: IRValueId(0),
        args: vec![],
        qos: 0,
    });
    let _ = IRInst::new(IRInstKind::SendTyped {
        target: IRValueId(0),
        msg: IRValueId(1),
        type_tag: 0,
        priority: 0,
    });
    let _ = IRInst::new(IRInstKind::RecvTyped {
        type_tag: 0,
        timeout: 0,
    });
}

#[test]
fn test_inst_kind_stable_variants() {
    let _ = IRInst::new(IRInstKind::AllocStable {
        type_desc: 0,
        words: 0,
    });
    let _ = IRInst::new(IRInstKind::PromoteStable {
        object: IRValueId(0),
    });
}

#[test]
fn test_inst_kind_tensor_variants() {
    let _ = IRInst::new(IRInstKind::TensorNew {
        desc_idx: 0,
        gpu: false,
    });
    let _ = IRInst::new(IRInstKind::TensorNew {
        desc_idx: 0,
        gpu: true,
    });
    let _ = IRInst::new(IRInstKind::TensorOp {
        op: TensorOpKind::Add,
        inputs: vec![IRValueId(0), IRValueId(1)],
    });
}

#[test]
fn test_inst_kind_capability_variants() {
    let _ = IRInst::new(IRInstKind::CapNew {
        resource_kind: 0,
        owned: true,
    });
    let _ = IRInst::new(IRInstKind::CapRelease { cap: IRValueId(0) });
    let _ = IRInst::new(IRInstKind::CapTransfer {
        cap: IRValueId(0),
        new_owner: IRValueId(1),
    });
}

#[test]
fn test_inst_kind_ai_variants() {
    let _ = IRInst::new(IRInstKind::InferenceSubmit {
        model_id: IRValueId(0),
        input: IRValueId(1),
        priority: 0,
    });
    let _ = IRInst::new(IRInstKind::InferenceAwait {
        request: IRValueId(0),
    });
}

#[test]
fn test_inst_kind_arena_variants() {
    let _ = IRInst::new(IRInstKind::ArenaAlloc {
        arena: IRValueId(0),
        size: 0,
        align: 1,
    });
    let _ = IRInst::new(IRInstKind::ArenaReset {
        arena: IRValueId(0),
    });
}

#[test]
fn test_inst_kind_narrow() {
    let narrow = IRInst::new(IRInstKind::Narrow {
        value: IRValueId(0),
        new_type: Box::new(IRType::new(TypeKind::Tuple { arity: 2 })),
    });
    assert!(matches!(narrow.kind, IRInstKind::Narrow { .. }));
}

#[test]
fn test_inst_kind_nop() {
    let nop = IRInst::new(IRInstKind::Nop);
    assert!(matches!(nop.kind, IRInstKind::Nop));
}

#[test]
fn test_tensor_op_kind_all_variants() {
    let kinds = [
        TensorOpKind::Add,
        TensorOpKind::Mul,
        TensorOpKind::MatMul,
        TensorOpKind::Relu,
        TensorOpKind::Softmax,
        TensorOpKind::Concat,
        TensorOpKind::Reshape,
        TensorOpKind::Transpose,
    ];
    for kind in &kinds {
        let inst = IRInst::new(IRInstKind::TensorOp {
            op: *kind,
            inputs: vec![],
        });
        assert!(matches!(inst.kind, IRInstKind::TensorOp { .. }));
    }
}

#[test]
fn test_reg_variants() {
    let x = Reg::X(0);
    let y = Reg::Y(255);
    let f = Reg::F(10);
    assert!(matches!(x, Reg::X(0)));
    assert!(matches!(y, Reg::Y(255)));
    assert!(matches!(f, Reg::F(10)));
}

#[test]
fn test_reg_equality() {
    assert_eq!(Reg::X(0), Reg::X(0));
    assert_ne!(Reg::X(0), Reg::X(1));
    assert_ne!(Reg::X(0), Reg::Y(0));
}

#[test]
fn test_label_default() {
    let l = Label::default();
    assert_eq!(l.0, 0);
}

#[test]
fn test_label_custom() {
    let l = Label(42);
    assert_eq!(l.0, 42);
}


