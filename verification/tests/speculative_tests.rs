use dala_ir::function::IRFunction;
use dala_ir::instruction::{IRInst, IRInstKind, Label, SideEffects};
use dala_ir::opt::speculative::{create_deopt_guard, estimate_speculative_benefit, find_opportunities};
use dala_ir::type_system::{IRType, SpeculativeGuard, TypeKind};
use dala_ir::value::IRValueId;

#[test]
fn test_estimate_speculative_benefit() {
    // Immediate types have high benefit
    assert!(estimate_speculative_benefit(&IRType::new(TypeKind::SmallInt)) > 5);
    assert!(estimate_speculative_benefit(&IRType::new(TypeKind::Float)) > 5);

    // Constants have maximum benefit
    assert!(
        estimate_speculative_benefit(&IRType::new(TypeKind::Constant(
            dala_ir::type_system::ConstantValue::Int(42)
        ))) > 10
    );

    // Any/Bottom have no benefit
    assert_eq!(estimate_speculative_benefit(&IRType::new(TypeKind::Any)), 0);
    assert_eq!(
        estimate_speculative_benefit(&IRType::new(TypeKind::Bottom)),
        0
    );

    // Dynamic has no benefit
    assert_eq!(
        estimate_speculative_benefit(&IRType::new(TypeKind::Dynamic)),
        0
    );
}

#[test]
fn speculative_test_guard_costs() {
    assert_eq!(SpeculativeGuard::Trivial.cost(), 0);
    assert_eq!(
        SpeculativeGuard::IsImmediate(Box::new(TypeKind::SmallInt)).cost(),
        1
    );
    assert_eq!(
        SpeculativeGuard::IsComposite(Box::new(TypeKind::Tuple { arity: 2 })).cost(),
        2
    );
    assert_eq!(
        SpeculativeGuard::StableTupleShape {
            element_types: vec![IRType::new(TypeKind::SmallInt); 3]
        }
        .cost(),
        5 // 2 + 3 element types
    );
}

#[test]
fn speculative_test_guard_trivial() {
    assert!(SpeculativeGuard::Trivial.is_trivial());
    assert!(!SpeculativeGuard::IsImmediate(Box::new(TypeKind::SmallInt)).is_trivial());
}

#[test]
fn test_create_deopt_guard() {
    let guard = create_deopt_guard(
        IRValueId(0),
        &IRType::new(TypeKind::SmallInt),
        Label(1),
        Label(2),
    );
    assert!(matches!(guard.kind, IRInstKind::BrIf { .. }));
}

#[test]
fn test_find_opportunities() {
    let mut func = IRFunction::new(0, 0, 1);
    let entry = func.entry_block;
    let block = func.get_block_mut(entry);

    // Add a type test
    block.instructions.push(IRInst {
        kind: IRInstKind::IsSmallInt,
        result: Some(IRValueId(1)),
        operands: vec![IRValueId(0)],
        beam_offset: 0,
        side_effects: SideEffects::none(),
    });
    block.instructions.push(IRInst {
        kind: IRInstKind::Ret {
            value: IRValueId(0),
        },
        result: None,
        operands: vec![],
        beam_offset: 0,
        side_effects: SideEffects::none(),
    });

    let opportunities = find_opportunities(&func);
    // Should find at least one opportunity for IsSmallInt
    assert!(!opportunities.is_empty());
}

#[test]
fn speculative_test_speculative_type_display() {
    let spec = IRType::new(TypeKind::Speculative {
        assumed: Box::new(IRType::new(TypeKind::SmallInt)),
        actual: Box::new(IRType::new(TypeKind::Any)),
        guard: SpeculativeGuard::Trivial,
    });
    let display = spec.display();
    assert!(display.contains("spec"));
    assert!(display.contains("smallint"));
}


