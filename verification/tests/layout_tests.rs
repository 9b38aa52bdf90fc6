use dala_ir::instruction::Reg;
use dala_ir::layout::{BeamCallingConvention, FrameLayout, FrameLayoutCalculator, Slot, compute_stack_map};
use dala_ir::type_system::{IRType, TypeKind};

#[test]
fn test_slot_reg() {
    let s = Slot::Reg(Reg::X(5));
    assert!(matches!(s, Slot::Reg(Reg::X(5))));
}

#[test]
fn test_slot_stack() {
    let s = Slot::Stack(10);
    assert!(matches!(s, Slot::Stack(10)));
}

#[test]
fn test_slot_spill() {
    let s = Slot::Spill(3);
    assert!(matches!(s, Slot::Spill(3)));
}

#[test]
fn test_slot_equality() {
    assert_eq!(Slot::Reg(Reg::X(0)), Slot::Reg(Reg::X(0)));
    assert_ne!(Slot::Reg(Reg::X(0)), Slot::Reg(Reg::X(1)));
    assert_ne!(Slot::Reg(Reg::X(0)), Slot::Stack(0));
    assert_eq!(Slot::Stack(5), Slot::Stack(5));
    assert_eq!(Slot::Spill(2), Slot::Spill(2));
}

#[test]
fn test_frame_layout_calculator_new() {
    let mut calc = FrameLayoutCalculator::new("test_func".to_string());
    assert_eq!(calc.func_name, "test_func");
    // register_pressure, next_spill, and stack_slots are private;
    // just verify the calculator was created successfully
    let _layout = calc.compute_layout(0, 0, false);
}

#[test]
fn test_compute_layout_basic() {
    let mut calc = FrameLayoutCalculator::new("f".to_string());
    let layout = calc.compute_layout(3, 5, true);
    assert_eq!(layout.frame_size, 5); // y_slots + spill
    assert_eq!(layout.spill_slots, 0);
    assert_eq!(layout.register_slots.len(), 3);
    assert_eq!(layout.saved_y_count, 5);
    assert!(layout.needs_gc);
}

#[test]
fn test_compute_layout_no_gc() {
    let mut calc = FrameLayoutCalculator::new("f".to_string());
    let layout = calc.compute_layout(2, 3, false);
    assert!(!layout.needs_gc);
    assert_eq!(layout.frame_size, 3);
}

#[test]
fn test_compute_layout_zero_params() {
    let mut calc = FrameLayoutCalculator::new("f".to_string());
    let layout = calc.compute_layout(0, 0, false);
    assert_eq!(layout.register_slots.len(), 0);
    assert_eq!(layout.frame_size, 0);
    assert_eq!(layout.saved_y_count, 0);
}

#[test]
fn test_compute_layout_many_params() {
    let mut calc = FrameLayoutCalculator::new("f".to_string());
    let layout = calc.compute_layout(8, 10, true);
    assert_eq!(layout.register_slots.len(), 8);
    // Verify register slot mappings
    assert_eq!(layout.register_slots[0], (Reg::X(0), 0));
    assert_eq!(layout.register_slots[7], (Reg::X(7), 7));
}

#[test]
fn test_allocate_spill() {
    let mut calc = FrameLayoutCalculator::new("f".to_string());
    let s1 = calc.allocate_spill();
    let s2 = calc.allocate_spill();
    let s3 = calc.allocate_spill();
    assert_eq!(s1, 0);
    assert_eq!(s2, 1);
    assert_eq!(s3, 2);
}

#[test]
fn test_get_or_alloc_slot_small_int() {
    let mut calc = FrameLayoutCalculator::new("f".to_string());
    let ty = IRType::new(TypeKind::SmallInt);
    let slot = calc.get_or_alloc_slot(&ty);
    assert!(matches!(slot, Slot::Reg(Reg::X(8))));
}

#[test]
fn test_get_or_alloc_slot_float() {
    let mut calc = FrameLayoutCalculator::new("f".to_string());
    let ty = IRType::new(TypeKind::Float);
    let slot = calc.get_or_alloc_slot(&ty);
    assert!(matches!(slot, Slot::Reg(Reg::X(8))));
}

#[test]
fn test_get_or_alloc_slot_atom() {
    let mut calc = FrameLayoutCalculator::new("f".to_string());
    let ty = IRType::new(TypeKind::Atom);
    let slot = calc.get_or_alloc_slot(&ty);
    assert!(matches!(slot, Slot::Reg(Reg::X(8))));
}

#[test]
fn test_get_or_alloc_slot_non_register_type() {
    let mut calc = FrameLayoutCalculator::new("f".to_string());
    let ty = IRType::new(TypeKind::Tuple { arity: 2 });
    let slot = calc.get_or_alloc_slot(&ty);
    assert!(matches!(slot, Slot::Stack(0)));
}

#[test]
fn test_get_or_alloc_slot_list() {
    let mut calc = FrameLayoutCalculator::new("f".to_string());
    let ty = IRType::new(TypeKind::List);
    let slot = calc.get_or_alloc_slot(&ty);
    assert!(matches!(slot, Slot::Stack(_)));
}

#[test]
fn test_compute_stack_map_empty() {
    let layout = FrameLayout {
        frame_size: 10,
        spill_slots: 2,
        register_slots: vec![],
        spill_offsets: vec![0, 1],
        saved_y_count: 5,
        needs_gc: true,
    };
    let map = compute_stack_map(&layout, &[]);
    assert!(map.is_empty());
}

#[test]
fn test_compute_stack_map_reg_x() {
    let layout = FrameLayout {
        frame_size: 10,
        spill_slots: 0,
        register_slots: vec![],
        spill_offsets: vec![],
        saved_y_count: 5,
        needs_gc: true,
    };
    let map = compute_stack_map(&layout, &[Slot::Reg(Reg::X(3))]);
    assert_eq!(map, vec![(3, true)]);
}

#[test]
fn test_compute_stack_map_reg_y() {
    let layout = FrameLayout {
        frame_size: 10,
        spill_slots: 0,
        register_slots: vec![],
        spill_offsets: vec![],
        saved_y_count: 5,
        needs_gc: true,
    };
    let map = compute_stack_map(&layout, &[Slot::Reg(Reg::Y(2))]);
    assert_eq!(map, vec![(258, true)]); // 256 + 2
}

#[test]
fn test_compute_stack_map_reg_f() {
    let layout = FrameLayout {
        frame_size: 10,
        spill_slots: 0,
        register_slots: vec![],
        spill_offsets: vec![],
        saved_y_count: 5,
        needs_gc: true,
    };
    let map = compute_stack_map(&layout, &[Slot::Reg(Reg::F(1))]);
    assert_eq!(map, vec![(513, true)]); // 512 + 1
}

#[test]
fn test_compute_stack_map_stack_slot() {
    let layout = FrameLayout {
        frame_size: 10,
        spill_slots: 0,
        register_slots: vec![],
        spill_offsets: vec![],
        saved_y_count: 5,
        needs_gc: true,
    };
    let map = compute_stack_map(&layout, &[Slot::Stack(7)]);
    assert_eq!(map, vec![(7, true)]);
}

#[test]
fn test_compute_stack_map_spill_slot() {
    let layout = FrameLayout {
        frame_size: 10,
        spill_slots: 3,
        register_slots: vec![],
        spill_offsets: vec![0, 1, 2],
        saved_y_count: 5,
        needs_gc: true,
    };
    let map = compute_stack_map(&layout, &[Slot::Spill(1)]);
    assert_eq!(map, vec![(1, true)]);
}

#[test]
fn test_compute_stack_map_mixed() {
    let layout = FrameLayout {
        frame_size: 10,
        spill_slots: 2,
        register_slots: vec![],
        spill_offsets: vec![0, 1],
        saved_y_count: 5,
        needs_gc: true,
    };
    let map = compute_stack_map(
        &layout,
        &[Slot::Reg(Reg::X(0)), Slot::Stack(3), Slot::Spill(1)],
    );
    assert_eq!(map, vec![(0, true), (3, true), (1, true)]);
}

#[test]
fn test_beam_calling_convention_arg_regs() {
    assert_eq!(BeamCallingConvention::ARG_REGS, 8);
}

#[test]
fn test_beam_calling_convention_arg_reg() {
    assert_eq!(BeamCallingConvention::arg_reg(0), Reg::X(0));
    assert_eq!(BeamCallingConvention::arg_reg(7), Reg::X(7));
}

#[test]
fn test_beam_calling_convention_ret_reg() {
    assert_eq!(BeamCallingConvention::ret_reg(), Reg::X(0));
}

#[test]
fn test_beam_calling_convention_stack_alignment() {
    assert_eq!(BeamCallingConvention::stack_alignment(), 16);
}

#[test]
fn test_frame_layout_zero_size() {
    let layout = FrameLayout {
        frame_size: 0,
        spill_slots: 0,
        register_slots: vec![],
        spill_offsets: vec![],
        saved_y_count: 0,
        needs_gc: false,
    };
    assert_eq!(layout.frame_size, 0);
    assert_eq!(layout.spill_slots, 0);
}

