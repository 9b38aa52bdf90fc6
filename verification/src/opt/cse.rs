//! Common subexpression elimination.
//!
//! Within a block, an instruction without side effects that computes
//! the same expression (same operation on the same operands) as an
//! earlier one is removed, and the uses of its result name the earlier
//! result instead: `a = b + c; d = b + c` becomes `a = b + c` with `d`
//! read as `a`.  Commutative operations match with
//! their operands in either order.

use crate::function::{BasicBlock, IRFunction, same_header};
use crate::instruction::{IRInst, IRInstKind};
use crate::value::IRValueId;
use vstd::prelude::*;

verus! {

broadcast use vstd::seq::group_seq_axioms, vstd::std_specs::vec::group_vec_axioms,
    vstd::seq_lib::group_seq_properties;

/// The expression an instruction computes, as CSE compares them.
#[derive(Debug, Clone, Copy, PartialEq, Eq, Hash, Structural)]
pub enum ExprKey {
    /// A commutative binary operation, operands in ascending ID order
    Commutative(BinOp, IRValueId, IRValueId),
    /// A binary operation
    Binary(BinOp, IRValueId, IRValueId),
    /// A unary operation
    Unary(UnOp, IRValueId),
    /// A type test
    TypeTest(TypeTest, IRValueId),
}

/// Binary operations.
#[derive(Debug, Clone, Copy, PartialEq, Eq, Hash, Structural)]
pub enum BinOp {
    Add,
    Sub,
    Mul,
    Div,
    Rem,
    BitAnd,
    BitOr,
    BitXor,
    Shl,
    Shr,
    Eq,
}

/// Unary operations.
#[derive(Debug, Clone, Copy, PartialEq, Eq, Hash, Structural)]
pub enum UnOp {
    Neg,
    BitNot,
}

/// Type tests.
#[derive(Debug, Clone, Copy, PartialEq, Eq, Hash, Structural)]
pub enum TypeTest {
    IsSmallInt,
    IsAtom,
    IsTuple,
    IsList,
    IsMap,
    IsBinary,
    IsFun,
    IsPid,
    IsNil,
    IsTrue,
    IsFalse,
    IsStableTuple,
    IsMessage,
    IsActor,
    IsTensor,
    IsCapability,
}

/// A commutative key, operands in ascending ID order.
pub open spec fn commutative(op: BinOp, a: IRValueId, b: IRValueId) -> ExprKey {
    if a.0 <= b.0 {
        ExprKey::Commutative(op, a, b)
    } else {
        ExprKey::Commutative(op, b, a)
    }
}

/// The expression key of a binary operation with two operands.
pub open spec fn bin_key(op: BinOp, comm: bool, ops: Seq<IRValueId>) -> Option<ExprKey> {
    if ops.len() == 2 {
        if comm {
            Some(commutative(op, ops[0], ops[1]))
        } else {
            Some(ExprKey::Binary(op, ops[0], ops[1]))
        }
    } else {
        None
    }
}

/// The expression key of a type test with one operand.
pub open spec fn test_key(t: TypeTest, ops: Seq<IRValueId>) -> Option<ExprKey> {
    if ops.len() == 1 {
        Some(ExprKey::TypeTest(t, ops[0]))
    } else {
        None
    }
}

/// The expression key of an instruction, if CSE considers it: binary
/// arithmetic, bitwise and equality operations on two operands, unary
/// ones and type tests on one.
pub open spec fn expr_key_spec(kind: IRInstKind, ops: Seq<IRValueId>) -> Option<ExprKey> {
    match kind {
        IRInstKind::Add => bin_key(BinOp::Add, true, ops),
        IRInstKind::Sub => bin_key(BinOp::Sub, false, ops),
        IRInstKind::Mul => bin_key(BinOp::Mul, true, ops),
        IRInstKind::Div => bin_key(BinOp::Div, false, ops),
        IRInstKind::Rem => bin_key(BinOp::Rem, false, ops),
        IRInstKind::BitAnd => bin_key(BinOp::BitAnd, true, ops),
        IRInstKind::BitOr => bin_key(BinOp::BitOr, true, ops),
        IRInstKind::BitXor => bin_key(BinOp::BitXor, true, ops),
        IRInstKind::ShiftLeft => bin_key(BinOp::Shl, false, ops),
        IRInstKind::ShiftRight => bin_key(BinOp::Shr, false, ops),
        IRInstKind::Eq => bin_key(BinOp::Eq, true, ops),
        IRInstKind::IsSmallInt => test_key(TypeTest::IsSmallInt, ops),
        IRInstKind::IsAtom => test_key(TypeTest::IsAtom, ops),
        IRInstKind::IsNil => test_key(TypeTest::IsNil, ops),
        IRInstKind::IsTuple => test_key(TypeTest::IsTuple, ops),
        IRInstKind::IsList => test_key(TypeTest::IsList, ops),
        IRInstKind::IsMap => test_key(TypeTest::IsMap, ops),
        IRInstKind::IsBinary => test_key(TypeTest::IsBinary, ops),
        IRInstKind::IsFun => test_key(TypeTest::IsFun, ops),
        IRInstKind::IsPid => test_key(TypeTest::IsPid, ops),
        IRInstKind::IsTrue => test_key(TypeTest::IsTrue, ops),
        IRInstKind::IsFalse => test_key(TypeTest::IsFalse, ops),
        IRInstKind::IsStableTuple => test_key(TypeTest::IsStableTuple, ops),
        IRInstKind::IsMessage => test_key(TypeTest::IsMessage, ops),
        IRInstKind::IsActor => test_key(TypeTest::IsActor, ops),
        IRInstKind::IsTensor => test_key(TypeTest::IsTensor, ops),
        IRInstKind::IsCapability => test_key(TypeTest::IsCapability, ops),
        IRInstKind::Neg => if ops.len() == 1 {
            Some(ExprKey::Unary(UnOp::Neg, ops[0]))
        } else {
            None
        },
        IRInstKind::BitNot => if ops.len() == 1 {
            Some(ExprKey::Unary(UnOp::BitNot, ops[0]))
        } else {
            None
        },
        _ => None,
    }
}

fn bin(op: BinOp, comm: bool, ops: &Vec<IRValueId>) -> (r: Option<ExprKey>)
    ensures
        r == bin_key(op, comm, ops@),
{
    if ops.len() != 2 {
        return None;
    }
    let a = ops[0];
    let b = ops[1];
    if comm {
        if a.0 <= b.0 {
            Some(ExprKey::Commutative(op, a, b))
        } else {
            Some(ExprKey::Commutative(op, b, a))
        }
    } else {
        Some(ExprKey::Binary(op, a, b))
    }
}

fn test(t: TypeTest, ops: &Vec<IRValueId>) -> (r: Option<ExprKey>)
    ensures
        r == test_key(t, ops@),
{
    if ops.len() != 1 {
        return None;
    }
    Some(ExprKey::TypeTest(t, ops[0]))
}

/// The expression key of an instruction.
fn expr_key(kind: &IRInstKind, operands: &Vec<IRValueId>) -> (r: Option<ExprKey>)
    ensures
        r == expr_key_spec(*kind, operands@),
{
    match kind {
        IRInstKind::Add => bin(BinOp::Add, true, operands),
        IRInstKind::Sub => bin(BinOp::Sub, false, operands),
        IRInstKind::Mul => bin(BinOp::Mul, true, operands),
        IRInstKind::Div => bin(BinOp::Div, false, operands),
        IRInstKind::Rem => bin(BinOp::Rem, false, operands),
        IRInstKind::BitAnd => bin(BinOp::BitAnd, true, operands),
        IRInstKind::BitOr => bin(BinOp::BitOr, true, operands),
        IRInstKind::BitXor => bin(BinOp::BitXor, true, operands),
        IRInstKind::ShiftLeft => bin(BinOp::Shl, false, operands),
        IRInstKind::ShiftRight => bin(BinOp::Shr, false, operands),
        IRInstKind::Eq => bin(BinOp::Eq, true, operands),
        IRInstKind::IsSmallInt => test(TypeTest::IsSmallInt, operands),
        IRInstKind::IsAtom => test(TypeTest::IsAtom, operands),
        IRInstKind::IsNil => test(TypeTest::IsNil, operands),
        IRInstKind::IsTuple => test(TypeTest::IsTuple, operands),
        IRInstKind::IsList => test(TypeTest::IsList, operands),
        IRInstKind::IsMap => test(TypeTest::IsMap, operands),
        IRInstKind::IsBinary => test(TypeTest::IsBinary, operands),
        IRInstKind::IsFun => test(TypeTest::IsFun, operands),
        IRInstKind::IsPid => test(TypeTest::IsPid, operands),
        IRInstKind::IsTrue => test(TypeTest::IsTrue, operands),
        IRInstKind::IsFalse => test(TypeTest::IsFalse, operands),
        IRInstKind::IsStableTuple => test(TypeTest::IsStableTuple, operands),
        IRInstKind::IsMessage => test(TypeTest::IsMessage, operands),
        IRInstKind::IsActor => test(TypeTest::IsActor, operands),
        IRInstKind::IsTensor => test(TypeTest::IsTensor, operands),
        IRInstKind::IsCapability => test(TypeTest::IsCapability, operands),
        IRInstKind::Neg => if operands.len() == 1 {
            Some(ExprKey::Unary(UnOp::Neg, operands[0]))
        } else {
            None
        },
        IRInstKind::BitNot => if operands.len() == 1 {
            Some(ExprKey::Unary(UnOp::BitNot, operands[0]))
        } else {
            None
        },
        _ => None,
    }
}

/// The instruction kinds that CSE never touches: those with side
/// effects, memory reads, and `Nop`.
pub open spec fn cse_effect_kind(k: IRInstKind) -> bool {
    ||| k is Alloc
    ||| k is Store
    ||| k is SetReg
    ||| k is SetStackPtr
    ||| k is Br
    ||| k is BrIf
    ||| k is Switch
    ||| k is Ret
    ||| k is Call
    ||| k is TailCall
    ||| k is CallBif
    ||| k is Throw
    ||| k is Catch
    ||| k is CatchPop
    ||| k is Send
    ||| k is Recv
    ||| k is GcSafe
    ||| k is ConsumeReductions
    ||| k is BinaryNew
    ||| k is BinarySize
    ||| k is BinaryExtract
    ||| k is MakeFun
    ||| k is LoadLiteral
    ||| k is Load
    ||| k is TupleGet
    ||| k is TupleSet
    ||| k is Nop
}

fn has_side_effects(kind: &IRInstKind) -> (r: bool)
    ensures
        r == cse_effect_kind(*kind),
{
    match kind {
        IRInstKind::Alloc { .. } | IRInstKind::Store { .. } | IRInstKind::SetReg { .. }
        | IRInstKind::SetStackPtr { .. } | IRInstKind::Br { .. } | IRInstKind::BrIf { .. }
        | IRInstKind::Switch { .. } | IRInstKind::Ret { .. } | IRInstKind::Call { .. }
        | IRInstKind::TailCall { .. } | IRInstKind::CallBif { .. } | IRInstKind::Throw { .. }
        | IRInstKind::Catch { .. } | IRInstKind::CatchPop | IRInstKind::Send { .. }
        | IRInstKind::Recv { .. } | IRInstKind::GcSafe | IRInstKind::ConsumeReductions { .. }
        | IRInstKind::BinaryNew { .. } | IRInstKind::BinarySize { .. }
        | IRInstKind::BinaryExtract { .. } | IRInstKind::MakeFun { .. }
        | IRInstKind::LoadLiteral { .. } | IRInstKind::Load { .. } | IRInstKind::TupleGet { .. }
        | IRInstKind::TupleSet { .. } | IRInstKind::Nop => true,
        _ => false,
    }
}

/// A value renamed by a substitution: the latest pair that maps it, if
/// any, gives its new name.
pub open spec fn rename_id(s: Seq<(IRValueId, IRValueId)>, v: IRValueId) -> IRValueId
    decreases s.len(),
{
    if s.len() == 0 {
        v
    } else if s.last().0 == v {
        s.last().1
    } else {
        rename_id(s.drop_last(), v)
    }
}

/// Each value of a list renamed.
pub open spec fn rename_ids(s: Seq<(IRValueId, IRValueId)>, ids: Seq<IRValueId>) -> Seq<IRValueId> {
    Seq::new(ids.len(), |i: int| rename_id(s, ids[i]))
}

/// Whether kind `n` is kind `o` with every value it names in its own
/// fields renamed, and nothing else changed.
pub open spec fn kind_renamed(s: Seq<(IRValueId, IRValueId)>, n: IRInstKind, o: IRInstKind) -> bool {
    let r = |v: IRValueId| rename_id(s, v);
    match o {
        IRInstKind::Load { base, offset } => n == IRInstKind::Load { base: r(base), offset },
        IRInstKind::Store { base, offset, value } => n == IRInstKind::Store { base: r(base), offset, value: r(value) },
        IRInstKind::TupleGet { tuple, index } => n == IRInstKind::TupleGet { tuple: r(tuple), index },
        IRInstKind::TupleSet { tuple, index, value } => n == IRInstKind::TupleSet { tuple: r(tuple), index, value: r(value) },
        IRInstKind::Push { value } => n == IRInstKind::Push { value: r(value) },
        IRInstKind::SetStackPtr { sp } => n == IRInstKind::SetStackPtr { sp: r(sp) },
        IRInstKind::SetReg { reg, value } => n == IRInstKind::SetReg { reg, value: r(value) },
        IRInstKind::BrIf { cond, true_target, false_target } => n == IRInstKind::BrIf {
            cond: r(cond),
            true_target,
            false_target,
        },
        IRInstKind::Switch { value, default, targets } => n matches IRInstKind::Switch { value: v2, default: d2, targets: t2 }
            && v2 == r(value) && d2 == default && t2@ == targets@,
        IRInstKind::Ret { value } => n == IRInstKind::Ret { value: r(value) },
        IRInstKind::Call { func, args } => n matches IRInstKind::Call { func: f2, args: a2 } && f2 == r(func)
            && a2@ == rename_ids(s, args@),
        IRInstKind::TailCall { func, args } => n matches IRInstKind::TailCall { func: f2, args: a2 } && f2 == r(func)
            && a2@ == rename_ids(s, args@),
        IRInstKind::CallBif { module, function, args } => n matches IRInstKind::CallBif {
            module: m2,
            function: f2,
            args: a2,
        } && m2 == r(module) && f2 == r(function) && a2@ == rename_ids(s, args@),
        IRInstKind::Throw { reason } => n == IRInstKind::Throw { reason: r(reason) },
        IRInstKind::Resume { exception } => n == IRInstKind::Resume { exception: r(exception) },
        IRInstKind::Send { dest, msg } => n == IRInstKind::Send { dest: r(dest), msg: r(msg) },
        IRInstKind::SpawnActor { module, args, qos } => n matches IRInstKind::SpawnActor { module: m2, args: a2, qos: q2 }
            && m2 == r(module) && a2@ == rename_ids(s, args@) && q2 == qos,
        IRInstKind::SendTyped { target, msg, type_tag, priority } => n == IRInstKind::SendTyped {
            target: r(target),
            msg: r(msg),
            type_tag,
            priority,
        },
        IRInstKind::PromoteStable { object } => n == IRInstKind::PromoteStable { object: r(object) },
        IRInstKind::TensorOp { op, inputs } => n matches IRInstKind::TensorOp { op: o2, inputs: i2 } && o2 == op
            && i2@ == rename_ids(s, inputs@),
        IRInstKind::CapRelease { cap } => n == IRInstKind::CapRelease { cap: r(cap) },
        IRInstKind::CapTransfer { cap, new_owner } => n == IRInstKind::CapTransfer { cap: r(cap), new_owner: r(new_owner) },
        IRInstKind::InferenceSubmit { model_id, input, priority } => n == IRInstKind::InferenceSubmit {
            model_id: r(model_id),
            input: r(input),
            priority,
        },
        IRInstKind::InferenceAwait { request } => n == IRInstKind::InferenceAwait { request: r(request) },
        IRInstKind::ArenaAlloc { arena, size, align } => n == IRInstKind::ArenaAlloc { arena: r(arena), size, align },
        IRInstKind::ArenaReset { arena } => n == IRInstKind::ArenaReset { arena: r(arena) },
        IRInstKind::BinaryNew { data } => n == IRInstKind::BinaryNew { data: r(data) },
        IRInstKind::BinarySize { binary } => n == IRInstKind::BinarySize { binary: r(binary) },
        IRInstKind::BinaryExtract { binary, offset, size, flags } => n == IRInstKind::BinaryExtract {
            binary: r(binary),
            offset: r(offset),
            size: r(size),
            flags,
        },
        IRInstKind::MakeFun { module, function, arity, fvs } => n matches IRInstKind::MakeFun {
            module: m2,
            function: f2,
            arity: a2,
            fvs: v2,
        } && m2 == r(module) && f2 == r(function) && a2 == arity && v2@ == rename_ids(s, fvs@),
        IRInstKind::Narrow { value, new_type } => n == IRInstKind::Narrow { value: r(value), new_type },
        _ => n == o,
    }
}

/// Whether instruction `n` is instruction `o` with every value it uses
/// renamed: its operands and the values its kind names.
pub open spec fn inst_renamed(s: Seq<(IRValueId, IRValueId)>, n: IRInst, o: IRInst) -> bool {
    &&& n.result == o.result
    &&& n.beam_offset == o.beam_offset
    &&& n.side_effects == o.side_effects
    &&& n.operands@ == rename_ids(s, o.operands@)
    &&& kind_renamed(s, n.kind, o.kind)
}

/// The state of the scan of a block: the expressions seen so far with
/// the value that first computed each, and the substitution of the
/// removed results by those values.
pub struct CseState {
    pub seen: Seq<(ExprKey, IRValueId)>,
    pub subst: Seq<(IRValueId, IRValueId)>,
}

/// The value that first computed an expression, if one did.
pub open spec fn seen_value(seen: Seq<(ExprKey, IRValueId)>, k: ExprKey) -> Option<IRValueId>
    decreases seen.len(),
{
    if seen.len() == 0 {
        None
    } else {
        match seen_value(seen.drop_last(), k) {
            Some(v) => Some(v),
            None => if seen.last().0 == k {
                Some(seen.last().1)
            } else {
                None
            },
        }
    }
}

/// One step of the scan on an instruction: its operands are first
/// renamed by the substitution so far; an instruction without side
/// effects, with a result, whose expression was seen is removed and its
/// result mapped to the earlier value; otherwise a new expression with a
/// result is recorded.  The flag tells whether the instruction is
/// removed.
pub open spec fn cse_step(st: CseState, inst: IRInst) -> (CseState, bool) {
    if cse_effect_kind(inst.kind) {
        (st, false)
    } else {
        match expr_key_spec(inst.kind, rename_ids(st.subst, inst.operands@)) {
            None => (st, false),
            Some(k) => match (seen_value(st.seen, k), inst.result) {
                (Some(a), Some(d)) => (CseState { seen: st.seen, subst: st.subst.push((d, a)) }, true),
                (None, Some(r)) => (CseState { seen: st.seen.push((k, r)), subst: st.subst }, false),
                _ => (st, false),
            },
        }
    }
}

/// The state after scanning a sequence of instructions.
pub open spec fn cse_state(insts: Seq<IRInst>) -> CseState
    decreases insts.len(),
{
    if insts.len() == 0 {
        CseState { seen: Seq::empty(), subst: Seq::empty() }
    } else {
        cse_step(cse_state(insts.drop_last()), insts.last()).0
    }
}

/// Whether the scan removes instruction `j`.
pub open spec fn removed_at(insts: Seq<IRInst>, j: int) -> bool {
    cse_step(cse_state(insts.take(j)), insts[j]).1
}

/// The positions of the instructions that stay: neither removed nor a
/// `Nop`, in order.
pub open spec fn survivors(insts: Seq<IRInst>) -> Seq<int>
    decreases insts.len(),
{
    if insts.len() == 0 {
        Seq::empty()
    } else {
        let p = survivors(insts.drop_last());
        let j = insts.len() - 1;
        if !cse_step(cse_state(insts.drop_last()), insts.last()).1 && !(insts.last().kind is Nop) {
            p.push(j)
        } else {
            p
        }
    }
}

/// Whether `out` is what CSE makes of a block's instructions: the
/// survivors in order, each with its uses renamed by the substitution
/// in force when the scan reached it.
pub open spec fn cse_block_rel(insts: Seq<IRInst>, out: Seq<IRInst>) -> bool {
    let sv = survivors(insts);
    &&& out.len() == sv.len()
    &&& forall|m: int|
        0 <= m < sv.len() ==> inst_renamed(cse_state(insts.take(sv[m])).subst, #[trigger] out[m], insts[sv[m]])
}

/// The renamed value.
fn rename_exec(s: &Vec<(IRValueId, IRValueId)>, v: IRValueId) -> (r: IRValueId)
    ensures
        r == rename_id(s@, v),
{
    let mut i: usize = s.len();
    while i > 0
        invariant
            i <= s@.len(),
            rename_id(s@, v) == rename_id(s@.take(i as int), v),
        decreases i,
    {
        proof {
            assert(s@.take(i as int).drop_last() =~= s@.take(i - 1));
            assert(s@.take(i as int).last() == s@[i - 1]);
        }
        if s[i - 1].0 == v {
            return s[i - 1].1;
        }
        i = i - 1;
    }
    proof {
        assert(s@.take(0) =~= Seq::<(IRValueId, IRValueId)>::empty());
    }
    v
}

/// A list of values, each renamed.
fn rename_vec(s: &Vec<(IRValueId, IRValueId)>, ids: &Vec<IRValueId>) -> (r: Vec<IRValueId>)
    ensures
        r@ == rename_ids(s@, ids@),
{
    let mut r: Vec<IRValueId> = Vec::new();
    let mut i: usize = 0;
    while i < ids.len()
        invariant
            i <= ids@.len(),
            r@ == rename_ids(s@, ids@.take(i as int)),
        decreases ids@.len() - i,
    {
        let x = rename_exec(s, ids[i]);
        r.push(x);
        i = i + 1;
        proof {
            assert(r@ =~= rename_ids(s@, ids@.take(i as int)));
        }
    }
    proof {
        assert(ids@.take(ids@.len() as int) =~= ids@);
    }
    r
}

/// An instruction kind with the values it names renamed.
fn rename_kind(s: &Vec<(IRValueId, IRValueId)>, k: IRInstKind) -> (r: IRInstKind)
    ensures
        kind_renamed(s@, r, k),
{
    match k {
        IRInstKind::Load { base, offset } => IRInstKind::Load { base: rename_exec(s, base), offset },
        IRInstKind::Store { base, offset, value } => IRInstKind::Store {
            base: rename_exec(s, base),
            offset,
            value: rename_exec(s, value),
        },
        IRInstKind::TupleGet { tuple, index } => IRInstKind::TupleGet { tuple: rename_exec(s, tuple), index },
        IRInstKind::TupleSet { tuple, index, value } => IRInstKind::TupleSet {
            tuple: rename_exec(s, tuple),
            index,
            value: rename_exec(s, value),
        },
        IRInstKind::Push { value } => IRInstKind::Push { value: rename_exec(s, value) },
        IRInstKind::SetStackPtr { sp } => IRInstKind::SetStackPtr { sp: rename_exec(s, sp) },
        IRInstKind::SetReg { reg, value } => IRInstKind::SetReg { reg, value: rename_exec(s, value) },
        IRInstKind::BrIf { cond, true_target, false_target } => IRInstKind::BrIf {
            cond: rename_exec(s, cond),
            true_target,
            false_target,
        },
        IRInstKind::Switch { value, default, targets } => IRInstKind::Switch {
            value: rename_exec(s, value),
            default,
            targets,
        },
        IRInstKind::Ret { value } => IRInstKind::Ret { value: rename_exec(s, value) },
        IRInstKind::Call { func, args } => IRInstKind::Call { func: rename_exec(s, func), args: rename_vec(s, &args) },
        IRInstKind::TailCall { func, args } => IRInstKind::TailCall {
            func: rename_exec(s, func),
            args: rename_vec(s, &args),
        },
        IRInstKind::CallBif { module, function, args } => IRInstKind::CallBif {
            module: rename_exec(s, module),
            function: rename_exec(s, function),
            args: rename_vec(s, &args),
        },
        IRInstKind::Throw { reason } => IRInstKind::Throw { reason: rename_exec(s, reason) },
        IRInstKind::Resume { exception } => IRInstKind::Resume { exception: rename_exec(s, exception) },
        IRInstKind::Send { dest, msg } => IRInstKind::Send { dest: rename_exec(s, dest), msg: rename_exec(s, msg) },
        IRInstKind::SpawnActor { module, args, qos } => IRInstKind::SpawnActor {
            module: rename_exec(s, module),
            args: rename_vec(s, &args),
            qos,
        },
        IRInstKind::SendTyped { target, msg, type_tag, priority } => IRInstKind::SendTyped {
            target: rename_exec(s, target),
            msg: rename_exec(s, msg),
            type_tag,
            priority,
        },
        IRInstKind::PromoteStable { object } => IRInstKind::PromoteStable { object: rename_exec(s, object) },
        IRInstKind::TensorOp { op, inputs } => IRInstKind::TensorOp { op, inputs: rename_vec(s, &inputs) },
        IRInstKind::CapRelease { cap } => IRInstKind::CapRelease { cap: rename_exec(s, cap) },
        IRInstKind::CapTransfer { cap, new_owner } => IRInstKind::CapTransfer {
            cap: rename_exec(s, cap),
            new_owner: rename_exec(s, new_owner),
        },
        IRInstKind::InferenceSubmit { model_id, input, priority } => IRInstKind::InferenceSubmit {
            model_id: rename_exec(s, model_id),
            input: rename_exec(s, input),
            priority,
        },
        IRInstKind::InferenceAwait { request } => IRInstKind::InferenceAwait { request: rename_exec(s, request) },
        IRInstKind::ArenaAlloc { arena, size, align } => IRInstKind::ArenaAlloc { arena: rename_exec(s, arena), size, align },
        IRInstKind::ArenaReset { arena } => IRInstKind::ArenaReset { arena: rename_exec(s, arena) },
        IRInstKind::BinaryNew { data } => IRInstKind::BinaryNew { data: rename_exec(s, data) },
        IRInstKind::BinarySize { binary } => IRInstKind::BinarySize { binary: rename_exec(s, binary) },
        IRInstKind::BinaryExtract { binary, offset, size, flags } => IRInstKind::BinaryExtract {
            binary: rename_exec(s, binary),
            offset: rename_exec(s, offset),
            size: rename_exec(s, size),
            flags,
        },
        IRInstKind::MakeFun { module, function, arity, fvs } => IRInstKind::MakeFun {
            module: rename_exec(s, module),
            function: rename_exec(s, function),
            arity,
            fvs: rename_vec(s, &fvs),
        },
        IRInstKind::Narrow { value, new_type } => IRInstKind::Narrow { value: rename_exec(s, value), new_type },
        other => other,
    }
}

/// An instruction with every value it uses renamed.
fn rename_inst(s: &Vec<(IRValueId, IRValueId)>, inst: IRInst) -> (r: IRInst)
    ensures
        inst_renamed(s@, r, inst),
{
    let operands = rename_vec(s, &inst.operands);
    let kind = rename_kind(s, inst.kind);
    IRInst { kind, result: inst.result, operands, beam_offset: inst.beam_offset, side_effects: inst.side_effects }
}

/// The value that first computed an expression, if one did.
fn find_seen(seen: &Vec<(ExprKey, IRValueId)>, k: ExprKey) -> (r: Option<IRValueId>)
    ensures
        r == seen_value(seen@, k),
{
    let mut i: usize = 0;
    while i < seen.len()
        invariant
            i <= seen@.len(),
            seen_value(seen@.take(i as int), k) is None,
        decreases seen@.len() - i,
    {
        proof {
            assert(seen@.take(i + 1).drop_last() =~= seen@.take(i as int));
            assert(seen@.take(i + 1).last() == seen@[i as int]);
        }
        if seen[i].0 == k {
            let v = seen[i].1;
            proof {
                lemma_seen_prefix(seen@, i + 1);
            }
            return Some(v);
        }
        i = i + 1;
    }
    proof {
        assert(seen@.take(seen@.len() as int) =~= seen@);
    }
    None
}

proof fn lemma_seen_prefix(seen: Seq<(ExprKey, IRValueId)>, n: int)
    requires
        0 <= n <= seen.len(),
    ensures
        forall|k: ExprKey| seen_value(seen.take(n), k) is Some ==> #[trigger] seen_value(seen, k) == seen_value(seen.take(n), k),
    decreases seen.len() - n,
{
    if n < seen.len() {
        lemma_seen_prefix(seen, n + 1);
        assert(seen.take(n + 1).drop_last() =~= seen.take(n));
    } else {
        assert(seen.take(n) =~= seen);
    }
}

proof fn lemma_survivors_prefix(insts: Seq<IRInst>, i: int)
    requires
        0 <= i <= insts.len(),
    ensures
        survivors(insts.take(i)).len() <= survivors(insts).len(),
        forall|m: int| 0 <= m < survivors(insts.take(i)).len() ==> #[trigger] survivors(insts.take(i))[m] == survivors(insts)[m],
        forall|m: int| 0 <= m < survivors(insts.take(i)).len() ==> 0 <= #[trigger] survivors(insts.take(i))[m] < i,
    decreases insts.len() - i,
{
    if i < insts.len() {
        lemma_survivors_prefix(insts, i + 1);
        assert(insts.take(i + 1).drop_last() =~= insts.take(i));
        let a = survivors(insts.take(i));
        let b = survivors(insts.take(i + 1));
        assert(b == a || b == a.push(i));
        assert forall|m: int| 0 <= m < a.len() implies #[trigger] a[m] == survivors(insts)[m] by {
            assert(a[m] == b[m]);
        }
    } else {
        assert(insts.take(i) =~= insts);
    }
    lemma_survivors_range(insts.take(i));
}

proof fn lemma_survivors_range(insts: Seq<IRInst>)
    ensures
        forall|m: int| 0 <= m < survivors(insts).len() ==> 0 <= #[trigger] survivors(insts)[m] < insts.len(),
    decreases insts.len(),
{
    if insts.len() > 0 {
        lemma_survivors_range(insts.drop_last());
        let p = survivors(insts.drop_last());
        assert forall|m: int| 0 <= m < survivors(insts).len() implies 0 <= #[trigger] survivors(insts)[m] < insts.len() by {
            if m < p.len() {
                assert(survivors(insts)[m] == p[m]);
            }
        }
    }
}

/// Eliminates the repeated expressions of one block, renaming the uses of
/// each removed result to the earlier value in the rest of the block, and
/// drops the `Nop`s; returns whether it removed a repeated expression.
fn cse_block(block: &mut BasicBlock, total: &mut Vec<(IRValueId, IRValueId)>) -> (changed: bool)
    ensures
        cse_block_rel(old(block).instructions@, final(block).instructions@),
        final(total)@ == old(total)@ + cse_state(old(block).instructions@).subst,
        final(block).label == old(block).label,
        final(block).predecessors == old(block).predecessors,
        final(block).successors == old(block).successors,
        final(block).reachable == old(block).reachable,
        changed == exists|j: int| 0 <= j < old(block).instructions@.len() && #[trigger] removed_at(old(block).instructions@, j),
{
    let ghost orig = block.instructions@;
    let mut src: Vec<IRInst> = Vec::new();
    std::mem::swap(&mut src, &mut block.instructions);
    let _n = src.len();
    let mut out: Vec<IRInst> = Vec::new();
    let mut seen: Vec<(ExprKey, IRValueId)> = Vec::new();
    let mut subst: Vec<(IRValueId, IRValueId)> = Vec::new();
    let mut changed = false;
    let mut k: usize = 0;
    proof {
        assert(orig.skip(0) =~= orig);
        assert(orig.take(0) =~= Seq::<IRInst>::empty());
    }
    while src.len() > 0
        invariant
            k <= orig.len() <= usize::MAX,
            src@ == orig.skip(k as int),
            seen@ == cse_state(orig.take(k as int)).seen,
            subst@ == cse_state(orig.take(k as int)).subst,
            cse_block_rel(orig.take(k as int), out@),
            changed == exists|j: int| 0 <= j < k && #[trigger] removed_at(orig, j),
            block.label == old(block).label,
            block.predecessors == old(block).predecessors,
            block.successors == old(block).successors,
            block.reachable == old(block).reachable,
            orig == old(block).instructions@,
        decreases src@.len(),
    {
        let inst = src.remove(0);
        let ghost pre = orig.take(k as int);
        proof {
            assert(orig.take(k + 1).drop_last() =~= pre);
            assert(orig.take(k + 1).last() == inst);
            assert(src@ =~= orig.skip(k + 1));
            assert(orig.take(k as int).take(k as int) =~= pre);
        }
        let ghost st = cse_state(pre);
        let ghost step = cse_step(st, inst);
        let renamed = rename_inst(&subst, inst);
        let mut removed = false;
        if !has_side_effects(&renamed.kind) {
            let ops_ok = expr_key(&renamed.kind, &renamed.operands);
            proof {
                assert(cse_effect_kind(renamed.kind) == cse_effect_kind(inst.kind));
                assert(expr_key_spec(renamed.kind, renamed.operands@) == expr_key_spec(inst.kind, renamed.operands@));
            }
            if let Some(key) = ops_ok {
                match (find_seen(&seen, key), renamed.result) {
                    (Some(a), Some(d)) => {
                        subst.push((d, a));
                        removed = true;
                        changed = true;
                    },
                    (None, Some(r)) => {
                        seen.push((key, r));
                    },
                    _ => {},
                }
            }
        } else {
            proof {
                assert(cse_effect_kind(renamed.kind) == cse_effect_kind(inst.kind));
            }
        }
        proof {
            assert(removed == step.1);
            assert(removed == removed_at(orig, k as int));
        }
        if !removed && !matches!(renamed.kind, IRInstKind::Nop) {
            out.push(renamed);
        }
        proof {
            let nk = orig.take(k + 1);
            assert(nk.drop_last() =~= pre);
            lemma_survivors_prefix(nk, k as int);
            assert(survivors(nk.take(k as int)) == survivors(pre)) by {
                assert(nk.take(k as int) =~= pre);
            }
            assert forall|m: int| 0 <= m < survivors(nk).len() implies inst_renamed(
                cse_state(nk.take(survivors(nk)[m])).subst,
                #[trigger] out@[m],
                nk[survivors(nk)[m]],
            ) by {
                let j = survivors(nk)[m];
                lemma_survivors_range(nk);
                if m < survivors(pre).len() {
                    lemma_survivors_range(pre);
                    assert(survivors(pre)[m] == j);
                    assert(nk.take(j) =~= pre.take(j));
                    assert(nk[j] == pre[j]);
                } else {
                    assert(j == k);
                    assert(nk.take(j) =~= pre);
                }
            }
            assert(seen@ == cse_state(nk).seen);
            assert(subst@ == cse_state(nk).subst);
        }
        k = k + 1;
    }
    proof {
        assert(orig.take(k as int) =~= orig);
    }
    block.instructions = out;
    push_pairs(total, &subst);
    changed
}

/// Appends a list of pairs.
fn push_pairs(dst: &mut Vec<(IRValueId, IRValueId)>, src: &Vec<(IRValueId, IRValueId)>)
    ensures
        final(dst)@ == old(dst)@ + src@,
{
    let mut j: usize = 0;
    while j < src.len()
        invariant
            j <= src@.len(),
            dst@ == old(dst)@ + src@.take(j as int),
        decreases src@.len() - j,
    {
        dst.push(src[j]);
        j = j + 1;
        proof {
            assert(dst@ =~= old(dst)@ + src@.take(j as int));
        }
    }
    assert(src@.take(src@.len() as int) =~= src@);
}

/// The substitutions of all blocks marked reachable, in block order.
pub open spec fn block_substs(blocks: Seq<BasicBlock>) -> Seq<(IRValueId, IRValueId)>
    decreases blocks.len(),
{
    if blocks.len() == 0 {
        Seq::empty()
    } else {
        block_substs(blocks.drop_last()) + if blocks.last().reachable {
            cse_state(blocks.last().instructions@).subst
        } else {
            Seq::empty()
        }
    }
}

/// Whether each instruction of `out` is the one of `mid` at the same
/// position with its uses renamed.
pub open spec fn all_renamed(s: Seq<(IRValueId, IRValueId)>, out: Seq<IRInst>, mid: Seq<IRInst>) -> bool {
    &&& out.len() == mid.len()
    &&& forall|m: int| 0 <= m < mid.len() ==> inst_renamed(s, #[trigger] out[m], mid[m])
}

/// Renames the uses of every instruction of a list.
fn rename_all(s: &Vec<(IRValueId, IRValueId)>, insts: Vec<IRInst>) -> (r: Vec<IRInst>)
    ensures
        all_renamed(s@, r@, insts@),
{
    let ghost orig = insts@;
    let mut src = insts;
    let _n = src.len();
    let mut out: Vec<IRInst> = Vec::new();
    let mut k: usize = 0;
    proof {
        assert(orig.skip(0) =~= orig);
    }
    while src.len() > 0
        invariant
            k <= orig.len() <= usize::MAX,
            src@ == orig.skip(k as int),
            out@.len() == k,
            forall|m: int| 0 <= m < k ==> inst_renamed(s@, #[trigger] out@[m], orig[m]),
        decreases src@.len(),
    {
        let inst = src.remove(0);
        proof {
            assert(orig.skip(k as int)[0] == orig[k as int]);
            assert(src@ =~= orig.skip(k + 1));
        }
        let r = rename_inst(s, inst);
        out.push(r);
        k = k + 1;
    }
    out
}

/// Common subexpression elimination rewrites the instructions of each
/// block marked reachable as `cse_block_rel` says (the repeated
/// expressions and the `Nop`s go, and later uses of a removed result in
/// the block are renamed to the earlier value), then renames every use in
/// those blocks by the substitutions of all of them (`block_substs`), and
/// touches nothing else; a change is reported exactly when a repeated
/// expression is removed.
pub open spec fn cse_post(old: IRFunction, new: IRFunction, changed: bool) -> bool {
    &&& same_header(new, old)
    &&& new.blocks@.len() == old.blocks@.len()
    &&& forall|i: int|
        0 <= i < old.blocks@.len() ==> {
            let ob = old.blocks@[i];
            let nb = #[trigger] new.blocks@[i];
            &&& nb.label == ob.label
            &&& nb.predecessors == ob.predecessors
            &&& nb.successors == ob.successors
            &&& nb.reachable == ob.reachable
            &&& ob.reachable ==> exists|mid: Seq<IRInst>|
                cse_block_rel(ob.instructions@, mid) && #[trigger] all_renamed(
                    block_substs(old.blocks@),
                    nb.instructions@,
                    mid,
                )
            &&& !ob.reachable ==> nb.instructions == ob.instructions
        }
    &&& changed == exists|i: int, j: int|
        0 <= i < old.blocks@.len() && old.blocks@[i].reachable && 0 <= j < old.blocks@[i].instructions@.len()
            && #[trigger] removed_at(old.blocks@[i].instructions@, j)
}

/// Eliminates common subexpressions in every block marked reachable:
/// within a block, an instruction without side effects, with a result,
/// whose expression an earlier instruction with a result already
/// computed, is removed, and so is every `Nop`; then every use of a
/// removed result, in any block marked reachable, names the earlier
/// result instead.  Returns whether it removed a repeated expression.
pub fn eliminate_common_subexprs(func: &mut IRFunction) -> (changed: bool)
    ensures
        cse_post(*old(func), *final(func), changed),
{
    let ghost ob = func.blocks@;
    let mut total: Vec<(IRValueId, IRValueId)> = Vec::new();
    let mut changed = false;
    let mut i: usize = 0;
    while i < func.blocks.len()
        invariant
            i <= func.blocks@.len() == ob.len(),
            ob == old(func).blocks@,
            same_header(*func, *old(func)),
            total@ == block_substs(ob.take(i as int)),
            forall|j: int|
                0 <= j < ob.len() ==> {
                    let nb = #[trigger] func.blocks@[j];
                    &&& nb.label == ob[j].label
                    &&& nb.predecessors == ob[j].predecessors
                    &&& nb.successors == ob[j].successors
                    &&& nb.reachable == ob[j].reachable
                    &&& (j < i && ob[j].reachable) ==> cse_block_rel(ob[j].instructions@, nb.instructions@)
                    &&& !(j < i && ob[j].reachable) ==> nb.instructions == ob[j].instructions
                },
            changed == exists|j: int, x: int|
                0 <= j < i && ob[j].reachable && 0 <= x < ob[j].instructions@.len()
                    && #[trigger] removed_at(ob[j].instructions@, x),
        decreases ob.len() - i,
    {
        proof {
            assert(ob.take(i + 1).drop_last() =~= ob.take(i as int));
            assert(ob.take(i + 1).last() == ob[i as int]);
        }
        if func.blocks[i].reachable {
            let c = cse_block(&mut func.blocks[i], &mut total);
            if c {
                changed = true;
            }
        } else {
            proof {
                assert(total@ =~= total@ + Seq::<(IRValueId, IRValueId)>::empty());
            }
        }
        i = i + 1;
    }
    proof {
        assert(ob.take(ob.len() as int) =~= ob);
    }
    let ghost mb = func.blocks@;
    let mut b: usize = 0;
    while b < func.blocks.len()
        invariant
            b <= func.blocks@.len() == ob.len() == mb.len(),
            ob == old(func).blocks@,
            same_header(*func, *old(func)),
            total@ == block_substs(ob),
            forall|j: int|
                0 <= j < ob.len() ==> {
                    let nb = #[trigger] func.blocks@[j];
                    &&& nb.label == ob[j].label
                    &&& nb.predecessors == ob[j].predecessors
                    &&& nb.successors == ob[j].successors
                    &&& nb.reachable == ob[j].reachable
                    &&& ob[j].reachable ==> cse_block_rel(ob[j].instructions@, mb[j].instructions@)
                    &&& (j < b && ob[j].reachable) ==> all_renamed(total@, nb.instructions@, mb[j].instructions@)
                    &&& !(j < b && ob[j].reachable) ==> nb.instructions == mb[j].instructions
                    &&& !ob[j].reachable ==> mb[j].instructions == ob[j].instructions
                },
        decreases ob.len() - b,
    {
        if func.blocks[b].reachable {
            let mut insts: Vec<IRInst> = Vec::new();
            std::mem::swap(&mut insts, &mut func.blocks[b].instructions);
            let mut renamed = rename_all(&total, insts);
            std::mem::swap(&mut renamed, &mut func.blocks[b].instructions);
        }
        b = b + 1;
    }
    proof {
        assert forall|j: int| 0 <= j < ob.len() && ob[j].reachable implies exists|mid: Seq<IRInst>|
            cse_block_rel(ob[j].instructions@, mid) && #[trigger] all_renamed(
                block_substs(ob),
                func.blocks@[j].instructions@,
                mid,
            ) by {
            let mid = mb[j].instructions@;
            assert(cse_block_rel(ob[j].instructions@, mid));
            assert(all_renamed(block_substs(ob), func.blocks@[j].instructions@, mid));
        }
    }
    changed
}


/// The key of a commutative operation does not depend on the order of its
/// two operands.
pub proof fn law_commutative_key_symmetric(kind: IRInstKind, a: IRValueId, b: IRValueId)
    requires
        kind is Add || kind is Mul || kind is BitAnd || kind is BitOr || kind is BitXor || kind is Eq,
    ensures
        expr_key_spec(kind, seq![a, b]) == expr_key_spec(kind, seq![b, a]),
        expr_key_spec(kind, seq![a, b]) is Some,
{
    assert(seq![a, b].len() == 2 && seq![a, b][0] == a && seq![a, b][1] == b);
    assert(seq![b, a].len() == 2 && seq![b, a][0] == b && seq![b, a][1] == a);
}


/// The key of a non-commutative binary operation tells its operands
/// apart: swapping two different operands gives another key.  A binary
/// operation needs exactly two operands to have a key.
pub proof fn law_ordered_key_distinct(kind: IRInstKind, a: IRValueId, b: IRValueId, ops: Seq<IRValueId>)
    requires
        kind is Sub || kind is Div || kind is Rem || kind is ShiftLeft || kind is ShiftRight,
    ensures
        a != b ==> expr_key_spec(kind, seq![a, b]) != expr_key_spec(kind, seq![b, a]),
        expr_key_spec(kind, seq![a, b]) is Some,
        ops.len() != 2 ==> expr_key_spec(kind, ops) is None,
{
    assert(seq![a, b].len() == 2 && seq![a, b][0] == a && seq![a, b][1] == b);
    assert(seq![b, a].len() == 2 && seq![b, a][0] == b && seq![b, a][1] == a);
}

/// Two instructions of different kinds never have the same key, whatever
/// their operands.
#[verifier::rlimit(50)]
pub proof fn law_key_names_kind(k1: IRInstKind, o1: Seq<IRValueId>, k2: IRInstKind, o2: Seq<IRValueId>)
    requires
        expr_key_spec(k1, o1) is Some,
        expr_key_spec(k1, o1) == expr_key_spec(k2, o2),
    ensures
        k1 == k2,
{
}

} // verus!
