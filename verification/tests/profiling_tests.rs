use dala_ir::type_system::{IRType, TypeKind};
use dala_ir::type_system_profiling::{
    TypeProfiler, TypeTracer, analyze_complexity, benchmark_join, estimated_type_size,
};
use std::time::Duration;

#[test]
fn test_profiler_basic() {
    let mut profiler = TypeProfiler::new();
    profiler.record_join(Duration::from_nanos(100).as_nanos());
    profiler.record_join(Duration::from_nanos(200).as_nanos());
    profiler.record_meet(Duration::from_nanos(50).as_nanos());
    profiler.record_contains(Duration::from_nanos(75).as_nanos());

    assert_eq!(profiler.join_count, 2);
    assert_eq!(profiler.meet_count, 1);
    assert_eq!(profiler.contains_count, 1);
    assert_eq!(profiler.total_ops(), 4);
}

#[test]
fn test_profiler_reset() {
    let mut profiler = TypeProfiler::new();
    profiler.record_join(Duration::from_nanos(100).as_nanos());
    profiler.reset();
    assert_eq!(profiler.total_ops(), 0);
}

#[test]
fn test_tracer_basic() {
    let mut tracer = TypeTracer::new();
    let a = IRType::new(TypeKind::SmallInt);
    let b = IRType::new(TypeKind::Float);

    tracer.record(&a, "initial type");
    let joined = a.join(&b);
    tracer.record(&joined, "after join");

    assert_eq!(tracer.len(), 2);

    let diff = tracer.diff(0, 1).unwrap();
    assert!(diff.widened || diff.unchanged);
}

#[test]
fn test_tracer_disabled() {
    let mut tracer = TypeTracer::with_enabled(false);
    tracer.record(&IRType::new(TypeKind::SmallInt), "test");
    assert!(tracer.is_empty());
}

#[test]
fn test_complexity_simple() {
    let ty = IRType::new(TypeKind::SmallInt);
    let info = analyze_complexity(&ty);
    assert_eq!(info.depth, 1);
    assert!(!info.has_compound);
    assert!(!info.can_simplify);
}

#[test]
fn test_complexity_compound() {
    let ty = IRType::new(TypeKind::Union(
        Box::new(IRType::new(TypeKind::SmallInt)),
        Box::new(IRType::new(TypeKind::Float)),
    ));
    let info = analyze_complexity(&ty);
    assert!(info.depth >= 2);
    assert!(info.has_compound);
}

#[test]
fn test_complexity_nested() {
    let inner = IRType::new(TypeKind::Intersection(
        Box::new(IRType::new(TypeKind::SmallInt)),
        Box::new(IRType::new(TypeKind::NonNegInt)),
    ));
    let outer = IRType::new(TypeKind::Union(
        Box::new(inner),
        Box::new(IRType::new(TypeKind::Atom)),
    ));
    let info = analyze_complexity(&outer);
    assert!(info.depth >= 3);
    assert!(info.has_compound);
}

#[test]
fn test_estimated_size() {
    assert_eq!(estimated_type_size(&IRType::new(TypeKind::Bottom)), 0);
    assert_eq!(estimated_type_size(&IRType::new(TypeKind::Nil)), 1);
    assert!(estimated_type_size(&IRType::new(TypeKind::Any)) > 0);
}

#[test]
fn test_benchmark_runs() {
    let a = IRType::new(TypeKind::SmallInt);
    let b = IRType::new(TypeKind::Float);
    let result = benchmark_join(&a, &b, 100);
    assert_eq!(result.iterations, 100);
    assert_eq!(result.operation, "join");
}


