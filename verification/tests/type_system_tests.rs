use dala_ir::type_system::{
    ActorLifecycle, ConstantValue, IRType, MessagePriority, NativeResourceKind, SpeculativeGuard,
    TensorDtype, TypeKind,
};

fn t_smallint() -> IRType { IRType::new(TypeKind::SmallInt) }

fn t_nonneg() -> IRType { IRType::new(TypeKind::NonNegInt) }

fn t_int64() -> IRType { IRType::new(TypeKind::Int64) }

fn t_float() -> IRType { IRType::new(TypeKind::Float) }

fn t_atom() -> IRType { IRType::new(TypeKind::Atom) }

fn t_bool() -> IRType { IRType::new(TypeKind::Boolean) }

fn t_nil() -> IRType { IRType::new(TypeKind::Nil) }

fn t_cons() -> IRType { IRType::new(TypeKind::Cons) }

fn t_list() -> IRType { IRType::new(TypeKind::List) }

fn t_any() -> IRType { IRType::new(TypeKind::Any) }

fn t_bottom() -> IRType { IRType::new(TypeKind::Bottom) }

fn t_dynamic() -> IRType { IRType::new(TypeKind::Dynamic) }

fn t_map() -> IRType { IRType::new(TypeKind::AnyMap) }

fn t_bin() -> IRType { IRType::new(TypeKind::Binary) }

fn t_tuple(a: u32) -> IRType { IRType::new(TypeKind::Tuple{arity:a}) }

fn t_fun(a: u32) -> IRType { IRType::new(TypeKind::Fun{arity:a}) }

fn t_pid() -> IRType { IRType::new(TypeKind::Pid) }

fn t_port() -> IRType { IRType::new(TypeKind::Port) }

fn t_ref() -> IRType { IRType::new(TypeKind::Reference) }

fn t_const_int(i: i64) -> IRType { IRType::new(TypeKind::Constant(ConstantValue::Int(i))) }

fn t_const_atom(a: u32) -> IRType { IRType::new(TypeKind::Constant(ConstantValue::Atom(a))) }

fn t_const_true() -> IRType { IRType::new(TypeKind::Constant(ConstantValue::True)) }

fn t_const_false() -> IRType { IRType::new(TypeKind::Constant(ConstantValue::False)) }

fn t_const_nil() -> IRType { IRType::new(TypeKind::Constant(ConstantValue::Nil)) }

fn t_const_float(f: f64) -> IRType { IRType::new(TypeKind::Constant(ConstantValue::Float(f.to_bits()))) }

fn t_union(a: IRType, b: IRType) -> IRType { IRType::new(TypeKind::Union(Box::new(a), Box::new(b))) }

fn t_inter(a: IRType, b: IRType) -> IRType { IRType::new(TypeKind::Intersection(Box::new(a), Box::new(b))) }

fn t_diff(a: IRType, b: IRType) -> IRType { IRType::new(TypeKind::Difference(Box::new(a), Box::new(b))) }

fn t_stable(elems: Vec<IRType>, imm: bool) -> IRType { IRType::new(TypeKind::StableTuple{element_types:elems,immutable:imm}) }

fn t_mapshape(keys: Vec<u32>, vals: Vec<IRType>) -> IRType { IRType::new(TypeKind::MapShape{keys,values:vals}) }

fn t_msg(payload: IRType, pri: MessagePriority) -> IRType { IRType::new(TypeKind::Message{payload:Box::new(payload),priority:pri}) }

fn t_actor(accepts: Vec<IRType>, lc: ActorLifecycle) -> IRType { IRType::new(TypeKind::Actor{accepts,lifecycle:lc}) }

fn t_tensor(dt: TensorDtype, shape: Vec<Option<u64>>) -> IRType { IRType::new(TypeKind::Tensor{dtype:dt,shape}) }

fn t_cap(r: NativeResourceKind, o: bool, s: bool) -> IRType { IRType::new(TypeKind::Capability{resource:r,owned:o,shareable:s}) }

fn t_recvar(id: u32, bound: Option<IRType>) -> IRType { IRType::new(TypeKind::RecursiveVar{id,bound:bound.map(Box::new)}) }

fn t_spec(assumed: IRType, actual: IRType, guard: SpeculativeGuard) -> IRType { IRType::new(TypeKind::Speculative{assumed:Box::new(assumed),actual:Box::new(actual),guard}) }

#[test] fn join_commut_basic() { let a=t_smallint(); let b=t_float(); assert_eq!(a.join(&b),b.join(&a)); }

#[test] fn join_commut_compound() { let a=t_union(t_smallint(),t_atom()); let b=t_inter(t_float(),t_nonneg()); assert_eq!(a.join(&b),b.join(&a)); }

#[test] fn join_commut_any() { let a=t_smallint(); assert_eq!(a.join(&t_any()),t_any()); }

#[test] fn join_commut_bottom() { let a=t_smallint(); assert_eq!(a.join(&t_bottom()),a); }

#[test] fn meet_commut_basic() { let a=t_smallint(); let b=t_nonneg(); assert_eq!(a.meet(&b),b.meet(&a)); }

#[test] fn meet_commut_any() { let a=t_smallint(); assert_eq!(a.meet(&t_any()),a); }

#[test] fn meet_commut_bottom() { let a=t_smallint(); assert!(a.meet(&t_bottom()).is_empty()); }

#[test] fn join_assoc() { let a=t_smallint(); let b=t_float(); let c=t_atom(); assert_eq!(a.join(&b).join(&c), a.join(&b.join(&c))); }

#[test] fn meet_assoc() { let a=t_smallint(); let b=t_nonneg(); let c=t_int64(); assert_eq!(a.meet(&b).meet(&c), a.meet(&b.meet(&c))); }

#[test] fn join_idem() { let a=t_smallint(); assert_eq!(a.join(&a),a); }

#[test] fn meet_idem() { let a=t_smallint(); assert_eq!(a.meet(&a),a); }

#[test] fn join_idem_compound() { let a=t_union(t_smallint(),t_float()); assert_eq!(a.join(&a),a); }

#[test] fn join_meet_absorb() { let a=t_smallint(); let b=t_nonneg(); assert_eq!(a.join(&a.meet(&b)),a); }

#[test] fn meet_join_absorb() { let a=t_smallint(); let b=t_float(); assert_eq!(a.meet(&a.join(&b)),a); }

#[test] fn absorb_const() { let a=t_const_int(5); let b=t_smallint(); assert_eq!(a.join(&a.meet(&b)),a); }

#[test] fn absorb_compound() { let a=t_union(t_smallint(),t_atom()); let b=t_inter(t_smallint(),t_nonneg()); assert_eq!(a.join(&a.meet(&b)),a); }

#[test] fn int_hierarchy() { assert!(t_smallint().contains(&t_nonneg())); assert!(t_int64().contains(&t_smallint())); assert!(t_int64().contains(&t_nonneg())); }

#[test] fn list_hierarchy() { assert!(t_list().contains(&t_nil())); assert!(t_list().contains(&t_cons())); }

#[test] fn const_chain() { let c=t_const_int(42); assert!(t_nonneg().contains(&c)); assert!(t_smallint().contains(&c)); assert!(t_int64().contains(&c)); }

#[test] fn type_system_tests_union_subtype() { let a=t_const_int(1); let b=t_const_int(2); let u=t_union(a.clone(),b.clone()); assert!(t_smallint().contains(&u)); }

#[test] fn inter_supertype() { let a=t_nonneg(); let b=t_smallint(); let c=t_int64(); assert!(t_inter(b,c).contains(&a)); }

#[test] fn stable_tuple_sub() { let st=t_stable(vec![t_smallint(),t_atom()],true); assert!(t_tuple(2).contains(&st)); assert!(t_any().contains(&st)); }

#[test] fn join_upper() { let j=t_smallint().join(&t_float()); assert!(j.contains(&t_smallint())); assert!(j.contains(&t_float())); }

#[test] fn meet_lower() { let m=t_smallint().meet(&t_nonneg()); assert!(t_smallint().contains(&m)); assert!(t_nonneg().contains(&m)); }

#[test] fn join_least_upper() { let j=t_nonneg().join(&t_const_int(5)); let c=t_smallint(); assert!(c.contains(&j)); }

#[test] fn meet_greatest_lower() { let m=t_smallint().meet(&t_int64()); let c=t_nonneg(); assert!(m.contains(&c)); }

#[test] fn const_join_same() { let a=t_const_int(42); assert_eq!(a.join(&a),a); }

#[test] fn const_join_diff() { assert_eq!(t_const_int(1).join(&t_const_int(2)),t_smallint()); }

#[test] fn const_join_general() { assert_eq!(t_const_int(42).join(&t_smallint()),t_smallint()); }

#[test] fn const_meet_same() { let a=t_const_int(42); assert_eq!(a.meet(&a),a); }

#[test] fn const_meet_diff() { assert!(t_const_int(1).meet(&t_const_int(2)).is_empty()); }

#[test] fn const_meet_super() { assert_eq!(t_const_int(42).meet(&t_smallint()),t_const_int(42)); }

#[test] fn const_meet_incompat() { assert!(t_const_int(42).meet(&t_float()).is_empty()); }

#[test] fn const_true_false() { assert_eq!(t_const_true().join(&t_const_false()),t_bool()); }

#[test] fn const_nil_cons() { assert_eq!(t_const_nil().join(&t_cons()),t_list()); }

#[test] fn const_contains() { assert!(t_smallint().contains(&t_const_int(42))); assert!(t_nonneg().contains(&t_const_int(0))); assert!(!t_nonneg().contains(&t_const_int(-1))); }



#[test] fn union_of_inters() { let a=t_inter(t_smallint(),t_nonneg()); let b=t_inter(t_float(),t_int64()); assert_eq!(a.join(&b),t_union(t_nonneg(),t_float())); }
#[test] fn inter_of_unions() { let a=t_union(t_smallint(),t_float()); let b=t_union(t_nonneg(),t_float()); let r=a.meet(&b); assert!(t_float().contains(&r)||r==t_float()); }
#[test] fn diff_of_union() { let a=t_union(t_smallint(),t_float()); let r=a.subtract(&t_smallint()); assert!(!r.contains(&t_smallint())||r==t_float()); }

#[test] fn deep_norm() { let i=t_union(t_smallint(),t_float()); let o=t_union(i,t_atom()); assert_eq!(o.normalize().union_arity(),3); }

#[test] fn inter_norm() { let i=t_inter(t_smallint(),t_nonneg()); let o=t_inter(i,t_int64()); assert_eq!(o.normalize(),t_nonneg()); }

#[test] fn empty_not_exhaustive() { assert!(!t_smallint().is_exhaustive(&[])); }

#[test] fn empty_exhaustive_bottom() { assert!(t_bottom().is_exhaustive(&[])); }

#[test] fn any_exhaustive() { assert!(t_any().is_exhaustive(&[t_any()])); }

#[test] fn overlapping() { assert!(t_smallint().is_exhaustive(&[t_smallint(),t_nonneg()])); }

#[test] fn bool_exhaustive() { assert!(t_bool().is_exhaustive(&[t_const_true(),t_const_false()])); }

#[test] fn bool_not_exhaustive() { assert!(!t_bool().is_exhaustive(&[t_const_true()])); }

#[test] fn list_exhaustive() { assert!(t_list().is_exhaustive(&[t_nil(),t_cons()])); }

#[test] fn int_not_exhaustive() { assert!(!t_smallint().is_exhaustive(&[t_const_int(0)])); }

#[test] fn uncovered_bottom() { assert!(t_list().uncovered_by(&[t_nil(),t_cons()]).is_empty()); }

#[test] fn norm_idem_simple() { let a=t_smallint(); assert_eq!(a.normalize(),a); }

#[test] fn norm_idem_union() { let a=t_union(t_smallint(),t_float()); assert_eq!(a.normalize().normalize(),a.normalize()); }

#[test] fn norm_absorb() { assert_eq!(t_union(t_smallint(),t_int64()).normalize(),t_int64()); }

#[test] fn norm_absorb_rev() { assert_eq!(t_union(t_int64(),t_smallint()).normalize(),t_int64()); }

#[test] fn norm_nonneg() { assert_eq!(t_union(t_nonneg(),t_smallint()).normalize(),t_smallint()); }

#[test] fn norm_flatten() { let i=t_union(t_smallint(),t_float()); let o=t_union(i,t_atom()); assert_eq!(o.normalize().union_arity(),3); assert_eq!(o.normalize().normalize(),o.normalize()); }

#[test] fn norm_inter() { assert_eq!(t_inter(t_smallint(),t_nonneg()).normalize(),t_nonneg()); }

#[test] fn msg_covariant_payload() { let a=t_msg(t_smallint(),MessagePriority::High); let b=t_msg(t_nonneg(),MessagePriority::High); assert!(!b.contains(&a)); }

#[test] fn msg_contra_priority() { let hi=t_msg(t_atom(),MessagePriority::High); let lo=t_msg(t_atom(),MessagePriority::Normal); assert!(lo.contains(&hi)); assert!(!hi.contains(&lo)); }

#[test] fn msg_join_priority() { assert_eq!(t_msg(t_atom(),MessagePriority::Low).join(&t_msg(t_atom(),MessagePriority::Critical)).message_priority(),Some(MessagePriority::Critical)); }

#[test] fn msg_meet_priority() { assert_eq!(t_msg(t_atom(),MessagePriority::High).meet(&t_msg(t_atom(),MessagePriority::Low)).message_priority(),Some(MessagePriority::Low)); }

#[test] fn msg_join_payload() { let j=t_msg(t_smallint(),MessagePriority::Normal).join(&t_msg(t_float(),MessagePriority::Normal)); assert!(j.contains(&t_msg(t_smallint(),MessagePriority::Normal))); }

#[test] fn actor_sub_same_lc() { let a=t_actor(vec![t_smallint()],ActorLifecycle::Permanent); let b=t_actor(vec![t_smallint(),t_float()],ActorLifecycle::Permanent); assert!(b.contains(&a)); }

#[test] fn actor_sub_diff_lc() { let a=t_actor(vec![t_smallint()],ActorLifecycle::Permanent); let b=t_actor(vec![t_smallint()],ActorLifecycle::Transient); assert!(!a.contains(&b)); assert!(!b.contains(&a)); }

#[test] fn actor_join() { let j=t_actor(vec![t_smallint()],ActorLifecycle::Permanent).join(&t_actor(vec![t_float()],ActorLifecycle::Permanent)); assert!(j.contains(&t_actor(vec![t_smallint()],ActorLifecycle::Permanent))); }


