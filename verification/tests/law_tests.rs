use dala_ir::function::IRFunction;
use dala_ir::instruction::{IRInst, IRInstKind, Label, SideEffects};
use dala_ir::opt::escape_analysis::EscapeStatus;
use dala_ir::opt::validation::{ValidationError, ValidationErrors, validate};
use dala_ir::type_system::{ConstantValue, IRType, SpeculativeGuard, TensorDtype, TypeKind};
use dala_ir::type_system_profiling::{
    TypeProfiler, TypeTracer, analyze_complexity, benchmark_meet, benchmark_summary,
    estimated_type_size,
};
use dala_ir::value::IRValueId;
use dala_ir::builder::IRBuilder;
use dala_ir::module::IRModule;
use dala_ir::value::IRValue;
use dala_ir::{BlockId, IRFunctionId};

fn ty(kind: TypeKind) -> IRType {
    IRType::new(kind)
}

fn union(a: IRType, b: IRType) -> IRType {
    ty(TypeKind::Union(Box::new(a), Box::new(b)))
}

fn inter(a: IRType, b: IRType) -> IRType {
    ty(TypeKind::Intersection(Box::new(a), Box::new(b)))
}

fn inst(kind: IRInstKind, result: Option<usize>, operands: Vec<usize>) -> IRInst {
    IRInst {
        kind,
        result: result.map(IRValueId),
        operands: operands.into_iter().map(IRValueId).collect(),
        beam_offset: 0,
        side_effects: SideEffects::none(),
    }
}

#[test]
fn lattice_idempotent_on_compound_type() {
    let a = union(ty(TypeKind::SmallInt), ty(TypeKind::Atom));
    assert_eq!(a.join(&a), a);
    assert_eq!(a.meet(&a), a);
    assert!(a.contains(&a));
}

#[test]
fn lattice_extremes_on_message_type() {
    let a = ty(TypeKind::Message {
        payload: Box::new(ty(TypeKind::Atom)),
        priority: dala_ir::type_system::MessagePriority::High,
    });
    let any = ty(TypeKind::Any);
    let bottom = ty(TypeKind::Bottom);
    assert_eq!(a.join(&bottom), a);
    assert_eq!(bottom.join(&a), a);
    assert_eq!(a.join(&any), any);
    assert_eq!(any.join(&a), any);
    assert_eq!(a.meet(&any), a);
    assert_eq!(any.meet(&a), a);
    assert_eq!(a.meet(&bottom), bottom);
    assert_eq!(bottom.meet(&a), bottom);
    assert!(any.contains(&a));
    assert!(a.contains(&bottom));
}

#[test]
fn subtract_extremes_and_complements() {
    let list = ty(TypeKind::List);
    assert!(list.subtract(&list).is_empty());
    assert!(list.subtract(&ty(TypeKind::Any)).is_empty());
    assert_eq!(list.subtract(&ty(TypeKind::Bottom)), list);
    assert!(ty(TypeKind::NonNegInt).subtract(&ty(TypeKind::SmallInt)).is_empty());
    assert_eq!(list.subtract(&ty(TypeKind::Nil)), ty(TypeKind::Cons));
    assert_eq!(list.subtract(&ty(TypeKind::Cons)), ty(TypeKind::Nil));
    assert_eq!(
        ty(TypeKind::Boolean).subtract(&ty(TypeKind::Constant(ConstantValue::True))),
        ty(TypeKind::Constant(ConstantValue::False))
    );
    assert_eq!(
        ty(TypeKind::SmallInt).subtract(&ty(TypeKind::NonNegInt)),
        ty(TypeKind::Difference(Box::new(ty(TypeKind::SmallInt)), Box::new(ty(TypeKind::NonNegInt))))
    );
    assert_eq!(ty(TypeKind::SmallInt).subtract(&ty(TypeKind::Float)), ty(TypeKind::SmallInt));
}

#[test]
fn uncovered_extremes() {
    let t = ty(TypeKind::Tuple { arity: 2 });
    assert_eq!(t.uncovered_by(&[]), t);
    assert!(t.uncovered_by(&[t.clone()]).is_empty());
    assert!(t.uncovered_by(&[ty(TypeKind::Any)]).is_empty());
    assert!(ty(TypeKind::Boolean)
        .uncovered_by(&[
            ty(TypeKind::Constant(ConstantValue::True)),
            ty(TypeKind::Constant(ConstantValue::False))
        ])
        .is_empty());
}

#[test]
fn union_contains_each_member_and_tuple_contains_stable_tuple() {
    let u = union(ty(TypeKind::NonNegInt), ty(TypeKind::Constant(ConstantValue::Int(-3))));
    assert!(ty(TypeKind::SmallInt).contains(&u));
    assert!(!ty(TypeKind::NonNegInt).contains(&u));
    let st = ty(TypeKind::StableTuple { element_types: vec![ty(TypeKind::Atom)], immutable: true });
    assert!(ty(TypeKind::Tuple { arity: 1 }).contains(&st));
    assert!(!st.contains(&ty(TypeKind::Tuple { arity: 1 })));
}

#[test]
fn constant_join_widens_to_general_type() {
    let c = ty(TypeKind::Constant(ConstantValue::Int(-1)));
    assert_eq!(c.join(&ty(TypeKind::NonNegInt)), ty(TypeKind::SmallInt));
    assert_eq!(ty(TypeKind::Cons).join(&ty(TypeKind::Constant(ConstantValue::Nil))), ty(TypeKind::List));
}

#[test]
fn normalize_leaves_simple_types() {
    let t = ty(TypeKind::Tensor { dtype: TensorDtype::F32, shape: vec![Some(2), None] });
    assert_eq!(t.normalize(), t);
}

#[test]
fn normalize_keeps_irredundant_members_sorted_by_text() {
    let u = union(
        union(ty(TypeKind::Float), ty(TypeKind::NonNegInt)),
        union(ty(TypeKind::Atom), ty(TypeKind::SmallInt)),
    );
    let n = u.normalize();
    assert_eq!(n, union(union(ty(TypeKind::Atom), ty(TypeKind::Float)), ty(TypeKind::SmallInt)));
    assert_eq!(n.display(), "((atom ∪ float) ∪ smallint)");
    let i = inter(inter(ty(TypeKind::Int64), ty(TypeKind::Atom)), ty(TypeKind::SmallInt));
    assert_eq!(i.normalize(), inter(ty(TypeKind::Atom), ty(TypeKind::SmallInt)));
}

#[test]
fn escape_join_is_a_semilattice() {
    let all = [EscapeStatus::NoEscape, EscapeStatus::Conditional, EscapeStatus::Escapes];
    for a in all {
        assert_eq!(a.join(a), a);
        assert_eq!(a.join(EscapeStatus::NoEscape), a);
        assert_eq!(a.join(EscapeStatus::Escapes), EscapeStatus::Escapes);
        for b in all {
            assert_eq!(a.join(b), b.join(a));
            for c in all {
                assert_eq!(a.join(b).join(c), a.join(b.join(c)));
            }
        }
    }
}

#[test]
fn estimated_size_formulas() {
    assert_eq!(estimated_type_size(&ty(TypeKind::Tuple { arity: 3 })), 192);
    assert_eq!(estimated_type_size(&ty(TypeKind::Tuple { arity: 0 })), 64);
    let big = ty(TypeKind::Tuple { arity: 67_108_863 });
    assert_eq!(estimated_type_size(&big), 4_294_967_232);
    assert_eq!(estimated_type_size(&union(big.clone(), big)), u32::MAX);
    assert_eq!(
        estimated_type_size(&ty(TypeKind::Difference(Box::new(ty(TypeKind::Nil)), Box::new(ty(TypeKind::Any))))),
        0
    );
    assert_eq!(estimated_type_size(&inter(ty(TypeKind::Atom), ty(TypeKind::Boolean))), 2);
    assert_eq!(
        estimated_type_size(&ty(TypeKind::StableTuple { element_types: vec![], immutable: true })),
        1
    );
    assert_eq!(
        estimated_type_size(&ty(TypeKind::Tensor {
            dtype: TensorDtype::I32,
            shape: vec![Some(1), None, Some(3)]
        })),
        64
    );
}

#[test]
fn complexity_of_nested_type() {
    let t = union(inter(ty(TypeKind::SmallInt), ty(TypeKind::NonNegInt)), ty(TypeKind::Atom));
    let info = analyze_complexity(&t);
    assert_eq!(info.depth, 3);
    assert_eq!(info.width, 3);
    assert_eq!(info.constructors, 5);
    assert!(info.has_compound);
    assert!(info.can_simplify);
    let canonical = union(ty(TypeKind::Atom), ty(TypeKind::Float));
    assert!(!analyze_complexity(&canonical).can_simplify);
}

#[test]
fn profiler_averages_and_percentiles() {
    let mut p = TypeProfiler::new();
    p.record_join(300);
    p.record_join(100);
    p.record_join(200);
    assert_eq!(p.avg_join_time(), 200);
    assert_eq!(p.p95_join_time(), 300);
    assert_eq!(p.total_time(), 600);
    let mut q = TypeProfiler::with_sample_limit(2);
    q.record_meet(100);
    q.record_meet(200);
    q.record_meet(900);
    assert_eq!(q.meet_samples, vec![100, 200]);
    assert_eq!(q.p95_meet_time(), 200);
    assert_eq!(q.avg_meet_time(), 400);
    q.reset();
    assert_eq!(q.max_samples, 2);
    assert_eq!(q.total_ops(), 0);
}

#[test]
fn benchmark_summary_statistics() {
    let r = benchmark_summary("x", 5, 150, &vec![50, 10, 40, 30, 20]);
    assert_eq!(r.operation, "x");
    assert_eq!(r.avg_time, 30);
    assert_eq!(r.min_time, 10);
    assert_eq!(r.max_time, 50);
    assert_eq!(r.p50_time, 30);
    assert_eq!(r.p95_time, 50);
    assert_eq!(r.p99_time, 50);
}

#[test]
fn benchmark_meet_orders_its_percentiles() {
    let r = benchmark_meet(&ty(TypeKind::SmallInt), &ty(TypeKind::NonNegInt), 20);
    assert_eq!(r.operation, "meet");
    assert_eq!(r.iterations, 20);
    assert!(r.min_time <= r.p50_time && r.p50_time <= r.p95_time);
    assert!(r.p95_time <= r.p99_time && r.p99_time <= r.max_time);
}

#[test]
fn tracer_text_and_numbering() {
    let mut t = TypeTracer::new();
    t.record(&ty(TypeKind::SmallInt), "initial");
    t.record(&union(ty(TypeKind::SmallInt), ty(TypeKind::Float)), "widened");
    assert_eq!(
        t.format_trace(),
        "=== Type Trace ===\n  [   1] initial: smallint\n  [   2] widened: (smallint ∪ float)\n"
    );
    let d = t.diff(0, 1).unwrap();
    assert!(d.widened && !d.narrowed && !d.unchanged);
    assert!(t.diff(0, 2).is_none());
    t.disable();
    t.record(&ty(TypeKind::Atom), "ignored");
    assert_eq!(t.len(), 2);
    t.clear();
    assert!(t.is_empty());
}

#[test]
fn speculative_type_text_with_guard() {
    let s = ty(TypeKind::Speculative {
        assumed: Box::new(ty(TypeKind::SmallInt)),
        actual: Box::new(ty(TypeKind::Any)),
        guard: SpeculativeGuard::IsConstant(ConstantValue::Int(3)),
    });
    assert_eq!(s.display(), "spec<smallint | any, IsConstant(Int(3))>");
    assert_eq!(ty(TypeKind::Constant(ConstantValue::Int(-12))).display(), "const(-12)");
}

#[test]
fn validation_error_texts() {
    let e = ValidationError::UndefinedUse { value: IRValueId(5), block: BlockId(0), instr_index: 2 };
    assert_eq!(e.display(), "SSA: use of undefined value IRValueId(5) in block BlockId(0) instr 2");
    let e = ValidationError::MissingSuccessor { block: BlockId(1), expected_succ: BlockId(12) };
    assert_eq!(e.display(), "CFG: block BlockId(1) missing expected successor BlockId(12)");
    let all = ValidationErrors(vec![
        ValidationError::EmptyFunction,
        ValidationError::MissingTerminator { block: BlockId(1) },
    ]);
    assert_eq!(
        all.display(),
        "  [0] FUNC: function has no blocks\n  [1] TERM: block BlockId(1) has no terminator\n"
    );
}

#[test]
fn validation_finds_each_broken_invariant() {
    let ret = |v: usize| inst(IRInstKind::Ret { value: IRValueId(v) }, None, vec![]);

    let mut f = IRFunction::new(0, 0, 0);
    f.get_block_mut(BlockId(0)).instructions =
        vec![inst(IRInstKind::ConstNil, Some(0), vec![]), inst(IRInstKind::ConstNil, Some(0), vec![]), ret(0)];
    let errs = validate(&f).unwrap_err().0;
    assert_eq!(errs, vec![ValidationError::RedefinedValue { value: IRValueId(0), block: BlockId(0) }]);

    let mut f = IRFunction::new(0, 0, 0);
    f.get_block_mut(BlockId(0)).instructions = vec![inst(IRInstKind::Add, Some(1), vec![9]), ret(1)];
    let errs = validate(&f).unwrap_err().0;
    assert_eq!(
        errs,
        vec![ValidationError::UndefinedUse { value: IRValueId(9), block: BlockId(0), instr_index: 0 }]
    );

    let mut f = IRFunction::new(0, 0, 0);
    let b1 = f.create_block();
    f.get_block_mut(BlockId(0)).instructions = vec![inst(IRInstKind::Add, Some(1), vec![0]), ret(1)];
    f.get_block_mut(b1).instructions = vec![inst(IRInstKind::ConstNil, Some(0), vec![]), ret(0)];
    let errs = validate(&f).unwrap_err().0;
    assert_eq!(
        errs,
        vec![ValidationError::NotDominated {
            value: IRValueId(0),
            used_in: BlockId(0),
            defined_in: BlockId(1)
        }]
    );

    let mut f = IRFunction::new(0, 0, 0);
    let b1 = f.create_block();
    f.get_block_mut(BlockId(0)).instructions = vec![ret(0)];
    f.get_block_mut(BlockId(0)).successors = vec![Label(1)];
    f.get_block_mut(b1).instructions = vec![inst(IRInstKind::ConstNil, Some(0), vec![])];
    let errs = validate(&f).unwrap_err().0;
    assert_eq!(
        errs,
        vec![
            ValidationError::MissingPredecessor { block: BlockId(1), expected_pred: BlockId(0) },
            ValidationError::MissingTerminator { block: BlockId(1) },
        ]
    );
}

#[test]
fn module_tables_keep_order_and_latest_binding() {
    let mut m = IRModule::new(7);
    let a = m.add_function(1, 2);
    let b = m.add_function(3, 0);
    let c = m.add_function(1, 2);
    assert_eq!((a, b, c), (IRFunctionId(0), IRFunctionId(1), IRFunctionId(2)));
    assert_eq!(m.get_function(1, 2), Some(IRFunctionId(2)));
    assert_eq!(m.get_function(3, 0), Some(IRFunctionId(1)));
    assert_eq!(m.get_function(3, 1), None);
    assert_eq!(m.functions.len(), 2);
    assert_eq!(m.get_function_body(a).module, 7);
    m.add_import(20, 1, 1);
    m.add_import(10, 2, 2);
    m.add_import(20, 3, 3);
    let keys: Vec<u64> = m.imports.keys().copied().collect();
    assert_eq!(keys, vec![20, 10]);
    assert_eq!(m.imports[&20u64], vec![(1, 1), (3, 3)]);
    assert_eq!(m.add_literal(5), 0);
    assert_eq!(m.add_literal(6), 1);
}

#[test]
fn builder_registers_bind_once() {
    let mut b = IRBuilder::new(0, 0, 0);
    let y = b.get_y_reg(3);
    assert_eq!(b.get_y_reg(3), y);
    assert!(matches!(b.get_value(y), IRValue::Placeholder));
    let x = b.get_x_reg(7);
    assert_eq!(b.get_x_reg(7), x);
    assert_ne!(x, y);
    let k = b.const_small_int(4);
    let s = b.emit_add(k, x);
    assert!(matches!(b.get_value(s).ty().kind, TypeKind::SmallInt));
    let (i, r) = b.emit_with_result(IRInstKind::Neg, dala_ir::TypeId(3));
    assert_eq!(i, dala_ir::InstId(1));
    assert!(matches!(b.get_value(r).ty().kind, TypeKind::Any));
}

#[test]
fn normalize_twice_is_normalize_once() {
    let u = union(
        union(ty(TypeKind::Pid), ty(TypeKind::Constant(ConstantValue::Int(4)))),
        union(ty(TypeKind::NonNegInt), ty(TypeKind::Binary)),
    );
    let once = u.normalize();
    assert_eq!(once.normalize(), once);
    assert_eq!(once.display(), "((binary ∪ nonnegint) ∪ pid)");
}

#[test]
fn container_join_includes_both_messages() {
    let pri = dala_ir::type_system::MessagePriority::Normal;
    let a = ty(TypeKind::Message { payload: Box::new(ty(TypeKind::SmallInt)), priority: pri });
    let b = ty(TypeKind::Message { payload: Box::new(ty(TypeKind::Int64)), priority: pri });
    let j = a.join(&b);
    assert!(j.contains(&a));
    assert!(j.contains(&b));
    assert_eq!(j, b);
}

#[test]
fn container_meet_included_in_both_tuples() {
    let a = ty(TypeKind::StableTuple {
        element_types: vec![ty(TypeKind::SmallInt), ty(TypeKind::Atom)],
        immutable: true,
    });
    let b = ty(TypeKind::Tuple { arity: 2 });
    let m = a.meet(&b);
    assert!(a.contains(&m));
    assert!(b.contains(&m));
    let j = a.join(&b);
    assert!(j.contains(&a));
    assert!(j.contains(&b));
}

#[test]
fn union_join_includes_union_and_other() {
    let u = union(ty(TypeKind::SmallInt), ty(TypeKind::Atom));
    let c = ty(TypeKind::Constant(ConstantValue::Int(7)));
    let f = ty(TypeKind::Float);
    for other in [c, f] {
        let j = u.join(&other);
        assert!(j.contains(&u));
        assert!(j.contains(&other));
        let k = other.join(&u);
        assert!(k.contains(&u));
        assert!(k.contains(&other));
    }
}

#[test]
fn normalize_twice_on_intersection_of_unions() {
    let i = inter(
        union(ty(TypeKind::Atom), ty(TypeKind::SmallInt)),
        inter(ty(TypeKind::Int64), ty(TypeKind::NonNegInt)),
    );
    let once = i.normalize();
    assert_eq!(once.normalize(), once);
}

#[test]
fn container_join_is_least_for_messages() {
    let pri = dala_ir::type_system::MessagePriority::Low;
    let msg = |k: TypeKind| ty(TypeKind::Message { payload: Box::new(ty(k)), priority: pri });
    let a = msg(TypeKind::SmallInt);
    let b = msg(TypeKind::NonNegInt);
    let c = msg(TypeKind::Int64);
    assert!(c.contains(&a) && c.contains(&b));
    assert!(c.contains(&a.join(&b)));
}

#[test]
fn container_meet_is_greatest_for_stable_tuples() {
    let st = |k: TypeKind| ty(TypeKind::StableTuple {
        element_types: vec![ty(k), ty(TypeKind::Atom)],
        immutable: false,
    });
    let a = st(TypeKind::Int64);
    let b = st(TypeKind::SmallInt);
    let c = st(TypeKind::NonNegInt);
    assert!(a.contains(&c) && b.contains(&c));
    assert!(a.meet(&b).contains(&c));
}

#[test]
fn join_of_two_unions_includes_both() {
    let u1 = union(ty(TypeKind::SmallInt), ty(TypeKind::Atom));
    let u2 = union(ty(TypeKind::Float), ty(TypeKind::NonNegInt));
    let j = u1.join(&u2);
    assert!(j.contains(&u1));
    assert!(j.contains(&u2));
}

#[test]
fn intersection_inclusion_on_flat_members() {
    let i = inter(ty(TypeKind::SmallInt), ty(TypeKind::Int64));
    let nn = ty(TypeKind::NonNegInt);
    assert_eq!(i.contains(&nn), ty(TypeKind::SmallInt).contains(&nn) && ty(TypeKind::Int64).contains(&nn));
    assert!(i.contains(&nn));
    let j = inter(ty(TypeKind::SmallInt), ty(TypeKind::Atom));
    assert!(ty(TypeKind::Int64).contains(&j));
    assert!(!ty(TypeKind::Float).contains(&j));
}
