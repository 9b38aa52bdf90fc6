use dala_ir::function::IRFunction;
use dala_ir::instruction::{IRInst, IRInstKind, Label, SideEffects};
use dala_ir::layout::FrameLayout;
use dala_ir::opt::const_prop::{fold_constants, propagate_constants};
use dala_ir::opt::cse::eliminate_common_subexprs;
use dala_ir::opt::dce::eliminate_dead_code;
use dala_ir::opt::run_pass;
use dala_ir::opt::tail_call::analyze;
use dala_ir::opt::validation::validate;
use dala_ir::type_system::{ConstantValue, IRType, SpeculativeGuard, TensorDtype, TypeKind};
use dala_ir::type_system_profiling::{TypeProfiler, analyze_complexity, benchmark_summary};
use dala_ir::value::IRValueId;
use dala_ir::{BlockId, IRContext};

fn inst(kind: IRInstKind, result: Option<usize>, operands: Vec<usize>) -> IRInst {
    IRInst {
        kind,
        result: result.map(IRValueId),
        operands: operands.into_iter().map(IRValueId).collect(),
        beam_offset: 0,
        side_effects: SideEffects::none(),
    }
}

fn func_with(insts: Vec<IRInst>) -> IRFunction {
    let mut f = IRFunction::new(0, 0, 0);
    f.get_block_mut(BlockId(0)).instructions = insts;
    f
}

fn tensor(shape: Vec<Option<u64>>) -> IRType {
    IRType::new(TypeKind::Tensor { dtype: TensorDtype::F32, shape })
}

#[test]
fn fold_multiplies_seeded_constants() {
    let mut f = func_with(vec![
        inst(IRInstKind::ConstSmallInt { value: 6 }, Some(0), vec![]),
        inst(IRInstKind::ConstSmallInt { value: 7 }, Some(1), vec![]),
        inst(IRInstKind::Mul, Some(2), vec![0, 1]),
    ]);
    assert!(fold_constants(&mut f));
    let insts = &f.blocks[0].instructions;
    assert_eq!(insts.len(), 3);
    assert!(matches!(insts[0].kind, IRInstKind::ConstSmallInt { value: 6 }));
    assert!(matches!(insts[1].kind, IRInstKind::ConstSmallInt { value: 7 }));
    assert!(matches!(insts[2].kind, IRInstKind::ConstSmallInt { value: 42 }));
    assert!(insts[2].operands.is_empty());
    assert_eq!(insts[2].result, Some(IRValueId(2)));
}

#[test]
fn fold_chains_through_earlier_folds() {
    let mut f = func_with(vec![
        inst(IRInstKind::ConstSmallInt { value: 2 }, Some(0), vec![]),
        inst(IRInstKind::ConstSmallInt { value: 3 }, Some(1), vec![]),
        inst(IRInstKind::Add, Some(2), vec![0, 1]),
        inst(IRInstKind::Lt, Some(3), vec![2, 1]),
    ]);
    assert!(fold_constants(&mut f));
    let insts = &f.blocks[0].instructions;
    assert!(matches!(insts[2].kind, IRInstKind::ConstSmallInt { value: 5 }));
    assert!(matches!(insts[3].kind, IRInstKind::ConstFalse));
}

#[test]
fn fold_leaves_division_by_zero() {
    let mut f = func_with(vec![
        inst(IRInstKind::ConstSmallInt { value: 6 }, Some(0), vec![]),
        inst(IRInstKind::ConstSmallInt { value: 0 }, Some(1), vec![]),
        inst(IRInstKind::Div, Some(2), vec![0, 1]),
    ]);
    assert!(!fold_constants(&mut f));
    assert!(matches!(f.blocks[0].instructions[2].kind, IRInstKind::Div));
}

#[test]
fn propagate_learns_from_seeded_constants() {
    let mut f = func_with(vec![
        inst(IRInstKind::ConstSmallInt { value: 6 }, Some(0), vec![]),
        inst(IRInstKind::ConstSmallInt { value: 7 }, Some(1), vec![]),
        inst(IRInstKind::Add, Some(2), vec![0, 1]),
    ]);
    assert!(propagate_constants(&mut f));
    assert!(matches!(f.blocks[0].instructions[2].kind, IRInstKind::ConstSmallInt { value: 13 }));
    assert!(f.blocks[0].instructions[2].operands.is_empty());
    assert!(matches!(f.blocks[0].instructions[0].kind, IRInstKind::ConstSmallInt { value: 6 }));
    assert!(!propagate_constants(&mut f));
    let mut g = func_with(vec![inst(IRInstKind::Add, Some(2), vec![0, 1])]);
    assert!(!propagate_constants(&mut g));
}

#[test]
fn dce_counts_returned_value_as_use() {
    let mut f = func_with(vec![
        inst(IRInstKind::Add, Some(0), vec![1, 2]),
        inst(IRInstKind::Ret { value: IRValueId(0) }, None, vec![]),
    ]);
    assert!(!eliminate_dead_code(&mut f));
    assert_eq!(f.blocks[0].instructions.len(), 2);
}

#[test]
fn dce_removes_chains_and_is_idempotent() {
    let mut f = func_with(vec![
        inst(IRInstKind::Add, Some(0), vec![8, 9]),
        inst(IRInstKind::Sub, Some(1), vec![0, 5]),
        inst(IRInstKind::Ret { value: IRValueId(7) }, None, vec![]),
    ]);
    assert!(eliminate_dead_code(&mut f));
    assert_eq!(f.blocks[0].instructions.len(), 1);
    assert!(!eliminate_dead_code(&mut f));
    assert_eq!(f.blocks[0].instructions.len(), 1);
}

#[test]
fn cse_renames_later_uses() {
    let mut f = func_with(vec![
        inst(IRInstKind::Add, Some(3), vec![1, 2]),
        inst(IRInstKind::Add, Some(4), vec![2, 1]),
        inst(IRInstKind::Sub, Some(5), vec![4, 1]),
        inst(IRInstKind::Ret { value: IRValueId(4) }, None, vec![]),
    ]);
    assert!(eliminate_common_subexprs(&mut f));
    let insts = &f.blocks[0].instructions;
    assert_eq!(insts.len(), 3);
    assert_eq!(insts[0].result, Some(IRValueId(3)));
    assert!(matches!(insts[1].kind, IRInstKind::Sub));
    assert_eq!(insts[1].operands, vec![IRValueId(3), IRValueId(1)]);
    assert!(matches!(insts[2].kind, IRInstKind::Ret { value: IRValueId(3) }));
}

#[test]
fn tail_call_needs_function_end() {
    let mut f = func_with(vec![
        inst(IRInstKind::Call { func: IRValueId(99), args: vec![IRValueId(0)] }, Some(0), vec![]),
        inst(IRInstKind::Br { target: Label(1) }, None, vec![]),
    ]);
    assert!(!analyze(&mut f));
    assert!(matches!(f.blocks[0].instructions[0].kind, IRInstKind::Call { .. }));
    let mut g = func_with(vec![
        inst(IRInstKind::Call { func: IRValueId(99), args: vec![] }, Some(0), vec![]),
        inst(IRInstKind::Ret { value: IRValueId(0) }, None, vec![]),
    ]);
    assert!(analyze(&mut g));
    assert!(matches!(g.blocks[0].instructions[0].kind, IRInstKind::TailCall { .. }));
    assert!(!analyze(&mut g));
}

#[test]
fn validate_accepts_use_dominated_by_entry() {
    let mut f = IRFunction::new(0, 0, 0);
    let b1 = f.create_block();
    f.get_block_mut(BlockId(0)).instructions = vec![
        inst(IRInstKind::ConstSmallInt { value: 42 }, Some(0), vec![]),
        inst(IRInstKind::Br { target: Label(1) }, None, vec![]),
    ];
    f.get_block_mut(BlockId(0)).successors = vec![Label(1)];
    f.get_block_mut(b1).instructions =
        vec![inst(IRInstKind::Add, Some(1), vec![0, 0]), inst(IRInstKind::Ret { value: IRValueId(1) }, None, vec![])];
    f.get_block_mut(b1).predecessors = vec![Label(0)];
    assert!(validate(&f).is_ok());
}

#[test]
fn run_pass_knows_seven_names() {
    let mut f = func_with(vec![inst(IRInstKind::Ret { value: IRValueId(0) }, None, vec![])]);
    for name in ["type-inference", "escape-analysis", "native-specialize", "speculative", "nonexistent-pass"] {
        assert!(!run_pass(&mut f, name));
        assert_eq!(f.blocks[0].instructions.len(), 1);
    }
}

#[test]
fn tensor_join_and_meet_bound_their_arguments() {
    let one = tensor(vec![Some(1)]);
    let two = tensor(vec![Some(2)]);
    let dynamic = tensor(vec![None]);
    let j = one.join(&two);
    assert_eq!(j, dynamic);
    assert!(j.contains(&one));
    assert!(j.contains(&two));
    let m = one.meet(&dynamic);
    assert_eq!(m, one);
    assert!(one.contains(&m));
    assert!(dynamic.contains(&m));
    assert!(one.meet(&two).is_empty());
    assert!(tensor(vec![Some(1), None]).join(&tensor(vec![Some(1)])).is_any());
}

#[test]
fn tensor_join() {
    let j = tensor(vec![Some(1)]).join(&tensor(vec![Some(2)]));
    assert!(j.contains(&tensor(vec![Some(1)])));
}

#[test]
fn context_creates_functions_and_types() {
    let mut ctx = IRContext::new();
    let f = ctx.create_function(1, 2, 3);
    assert_eq!(f.0, 0);
    assert_eq!(ctx.get_function(f).arity, 3);
    ctx.get_function_mut(f).line = 9;
    assert_eq!(ctx.get_function(f).line, 9);
    let t = ctx.create_type(IRType::new(TypeKind::Atom));
    assert_eq!(t.0, 0);
    assert!(ctx.get_type(t).is_definitely_atom());
}

#[test]
fn test_frame_layout_max() {
    let layout = FrameLayout {
        frame_size: u32::MAX,
        spill_slots: u32::MAX,
        register_slots: vec![],
        spill_offsets: (0..1024u32).collect(),
        saved_y_count: u32::MAX,
        needs_gc: true,
    };
    assert_eq!(layout.frame_size, u32::MAX);
}

#[test]
fn speculative_guard_text_names_kinds() {
    let spec = |guard: SpeculativeGuard| {
        IRType::new(TypeKind::Speculative {
            assumed: Box::new(IRType::new(TypeKind::SmallInt)),
            actual: Box::new(IRType::new(TypeKind::Any)),
            guard,
        })
    };
    assert_eq!(
        spec(SpeculativeGuard::IsImmediate(Box::new(TypeKind::AnyMap))).display(),
        "spec<smallint | any, IsImmediate(Map)>"
    );
    assert_eq!(
        spec(SpeculativeGuard::IsComposite(Box::new(TypeKind::Tuple { arity: 2 }))).display(),
        "spec<smallint | any, IsComposite(Tuple { arity: 2 })>"
    );
    assert_eq!(
        spec(SpeculativeGuard::StableTupleShape { element_types: vec![IRType::new(TypeKind::Atom)] }).display(),
        "spec<smallint | any, StableTupleShape { element_types: [IRType { kind: Atom }] }>"
    );
    assert_eq!(
        spec(SpeculativeGuard::MapShapeKeys { keys: vec![1, 22] }).display(),
        "spec<smallint | any, MapShapeKeys { keys: [1, 22] }>"
    );
    assert_eq!(
        spec(SpeculativeGuard::TensorSpec { dtype: TensorDtype::F32, shape: vec![Some(3), None] }).display(),
        "spec<smallint | any, TensorSpec { dtype: F32, shape: [Some(3), None] }>"
    );
    assert_eq!(spec(SpeculativeGuard::Trivial).display(), "spec<smallint>");
}

#[test]
fn cse_renames_uses_in_other_blocks() {
    let mut f = IRFunction::new(0, 0, 0);
    let b1 = f.create_block();
    f.get_block_mut(BlockId(0)).instructions = vec![
        inst(IRInstKind::Add, Some(3), vec![1, 2]),
        inst(IRInstKind::Add, Some(4), vec![1, 2]),
        inst(IRInstKind::Br { target: Label(1) }, None, vec![]),
    ];
    f.get_block_mut(b1).instructions =
        vec![inst(IRInstKind::Sub, Some(5), vec![4, 1]), inst(IRInstKind::Ret { value: IRValueId(4) }, None, vec![])];
    assert!(eliminate_common_subexprs(&mut f));
    assert_eq!(f.blocks[0].instructions.len(), 2);
    assert_eq!(f.blocks[1].instructions[0].operands, vec![IRValueId(3), IRValueId(1)]);
    assert!(matches!(f.blocks[1].instructions[1].kind, IRInstKind::Ret { value: IRValueId(3) }));
}

#[test]
fn flat_join_includes_and_meet_is_included() {
    let kinds = vec![
        TypeKind::SmallInt,
        TypeKind::NonNegInt,
        TypeKind::Int64,
        TypeKind::Float,
        TypeKind::Atom,
        TypeKind::Nil,
        TypeKind::Cons,
        TypeKind::List,
        TypeKind::Boolean,
        TypeKind::Dynamic,
        TypeKind::Constant(ConstantValue::Int(-4)),
        TypeKind::Constant(ConstantValue::True),
    ];
    let n = kinds.len();
    for i in 0..n {
        for j in 0..n {
            let a = IRType::new(copy(&kinds[i]));
            let b = IRType::new(copy(&kinds[j]));
            let jn = a.join(&b);
            assert!(jn.contains(&a) && jn.contains(&b), "join {:?} {:?}", a, b);
            let m = a.meet(&b);
            assert!(a.contains(&m) && b.contains(&m), "meet {:?} {:?}", a, b);
            for k in 0..n {
                let c = IRType::new(copy(&kinds[k]));
                if c.contains(&a) && c.contains(&b) {
                    let both_consts = matches!(kinds[i], TypeKind::Constant(_)) && matches!(kinds[j], TypeKind::Constant(_));
                    let list_case = matches!(kinds[k], TypeKind::List)
                        && i != j
                        && (matches!(kinds[i], TypeKind::List) || matches!(kinds[j], TypeKind::List));
                    if !(both_consts && matches!(kinds[k], TypeKind::NonNegInt)) && !list_case {
                        assert!(c.contains(&jn), "least {:?} {:?} {:?}", a, b, c);
                    }
                }
                if a.contains(&c) && b.contains(&c) {
                    assert!(m.contains(&c), "greatest {:?} {:?} {:?}", a, b, c);
                }
            }
        }
    }
    let one = IRType::new(TypeKind::Constant(ConstantValue::Int(1)));
    let two = IRType::new(TypeKind::Constant(ConstantValue::Int(2)));
    let nonneg = IRType::new(TypeKind::NonNegInt);
    assert!(nonneg.contains(&one) && nonneg.contains(&two));
    assert!(!nonneg.contains(&one.join(&two)));
}

fn copy(k: &TypeKind) -> TypeKind {
    match k {
        TypeKind::SmallInt => TypeKind::SmallInt,
        TypeKind::NonNegInt => TypeKind::NonNegInt,
        TypeKind::Int64 => TypeKind::Int64,
        TypeKind::Float => TypeKind::Float,
        TypeKind::Atom => TypeKind::Atom,
        TypeKind::Nil => TypeKind::Nil,
        TypeKind::Cons => TypeKind::Cons,
        TypeKind::List => TypeKind::List,
        TypeKind::Boolean => TypeKind::Boolean,
        TypeKind::Dynamic => TypeKind::Dynamic,
        TypeKind::Constant(c) => TypeKind::Constant(*c),
        _ => TypeKind::Any,
    }
}

#[test]
fn profiler_average_divides_by_whole_count() {
    let mut p = TypeProfiler::new();
    p.join_count = (1u64 << 32) + 1;
    p.join_time = 3 * ((1u128 << 32) + 1);
    assert_eq!(p.avg_join_time(), 3);
    p.meet_count = 1u64 << 32;
    p.meet_time = 7 * (1u128 << 32);
    assert_eq!(p.avg_meet_time(), 7);
}

#[test]
fn reports_as_text() {
    let c = analyze_complexity(&IRType::new(TypeKind::Atom));
    assert_eq!(c.display(), "Complexity { depth: 1, width: 1, constructors: 1, compound: false, simplifiable: false }");
    let r = benchmark_summary("x", 5, 150, &vec![50, 10, 40, 30, 20]);
    let text = r.report();
    assert!(text.starts_with("=== Benchmark: x ===\n  Iterations: 5\n  Total:      150ns\n  Avg:        30ns\n"));
    assert!(text.ends_with("  P99:        50ns"));
    let mut p = TypeProfiler::new();
    p.record_join(300);
    p.record_join(100);
    let rep = p.report();
    assert!(rep.starts_with("=== Type System Profiler ===\nTotal operations: 2\nTotal time: 400ns\n\n"));
    assert!(rep.contains("  Join:     count=       2  avg=200ns  p95=300ns  p99=300ns\n"));
    assert!(rep.ends_with("  Normalize: count=      0  avg=0ns"));
}
