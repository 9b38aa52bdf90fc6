//! Constant propagation and folding.
//!
//! Propagation records, for each value, the constant it is known to
//! hold; folding replaces an instruction whose operands are all known
//! constants by the constant it computes.  Both start from a table seeded
//! with the constants that the constant-loading instructions define, and
//! learn more by folding instructions whose operands are known.

use crate::function::{BasicBlock, IRFunction, same_header};
use crate::instruction::{IRInst, IRInstKind, SideEffects};
use crate::type_system::ConstantValue;
use crate::value::IRValueId;
use vstd::prelude::*;

verus! {

broadcast use vstd::seq::group_seq_axioms, vstd::std_specs::vec::group_vec_axioms;

/// The two integers of a pair of known integer operands.
pub open spec fn int_pair(ops: Seq<Option<ConstantValue>>) -> Option<(i64, i64)> {
    if ops.len() == 2 {
        match (ops[0], ops[1]) {
            (Some(ConstantValue::Int(a)), Some(ConstantValue::Int(b))) => Some((a, b)),
            _ => None,
        }
    } else {
        None
    }
}

/// The boolean constant of a truth value.
pub open spec fn bool_const(b: bool) -> ConstantValue {
    if b {
        ConstantValue::True
    } else {
        ConstantValue::False
    }
}

/// An integer constant, if the value fits in an `i64`.
pub open spec fn int_const(v: int) -> Option<ConstantValue> {
    if i64::MIN <= v <= i64::MAX {
        Some(ConstantValue::Int(v as i64))
    } else {
        None
    }
}

/// The constant that an instruction kind computes from its known
/// operands, if it folds: integer arithmetic that stays in range (with
/// truncating division and remainder, and no division by zero),
/// comparisons, bitwise operations, shifts by 0 to 63, and the type
/// tests that known constants decide.
pub open spec fn fold_spec(kind: IRInstKind, ops: Seq<Option<ConstantValue>>) -> Option<ConstantValue> {
    match kind {
        IRInstKind::Add => match int_pair(ops) {
            Some((a, b)) => int_const(a + b),
            None => None,
        },
        IRInstKind::Sub => match int_pair(ops) {
            Some((a, b)) => int_const(a - b),
            None => None,
        },
        IRInstKind::Mul => match int_pair(ops) {
            Some((a, b)) => int_const(a * b),
            None => None,
        },
        IRInstKind::Div => match int_pair(ops) {
            Some((a, b)) => match a.checked_div(b) {
                Some(q) => Some(ConstantValue::Int(q)),
                None => None,
            },
            None => None,
        },
        IRInstKind::Rem => match int_pair(ops) {
            Some((a, b)) => match a.checked_rem(b) {
                Some(q) => Some(ConstantValue::Int(q)),
                None => None,
            },
            None => None,
        },
        IRInstKind::Eq => if ops.len() == 2 && ops[0] is Some && ops[1] is Some {
            Some(bool_const(ops[0] == ops[1]))
        } else {
            None
        },
        IRInstKind::Ne => if ops.len() == 2 && ops[0] is Some && ops[1] is Some {
            Some(bool_const(ops[0] != ops[1]))
        } else {
            None
        },
        IRInstKind::Gt => match int_pair(ops) {
            Some((a, b)) => Some(bool_const(a > b)),
            None => None,
        },
        IRInstKind::Ge => match int_pair(ops) {
            Some((a, b)) => Some(bool_const(a >= b)),
            None => None,
        },
        IRInstKind::Lt => match int_pair(ops) {
            Some((a, b)) => Some(bool_const(a < b)),
            None => None,
        },
        IRInstKind::Le => match int_pair(ops) {
            Some((a, b)) => Some(bool_const(a <= b)),
            None => None,
        },
        IRInstKind::BitAnd => match int_pair(ops) {
            Some((a, b)) => Some(ConstantValue::Int(a & b)),
            None => None,
        },
        IRInstKind::BitOr => match int_pair(ops) {
            Some((a, b)) => Some(ConstantValue::Int(a | b)),
            None => None,
        },
        IRInstKind::BitXor => match int_pair(ops) {
            Some((a, b)) => Some(ConstantValue::Int(a ^ b)),
            None => None,
        },
        IRInstKind::ShiftLeft => match int_pair(ops) {
            Some((a, b)) => if 0 <= b < 64 {
                Some(ConstantValue::Int(a << (b as u32)))
            } else {
                None
            },
            None => None,
        },
        IRInstKind::ShiftRight => match int_pair(ops) {
            Some((a, b)) => if 0 <= b < 64 {
                Some(ConstantValue::Int(a >> (b as u32)))
            } else {
                None
            },
            None => None,
        },
        IRInstKind::IsSmallInt => if ops.len() == 1 && ops[0] matches Some(ConstantValue::Int(_)) {
            Some(ConstantValue::True)
        } else {
            None
        },
        IRInstKind::IsAtom => if ops.len() == 1 && ops[0] matches Some(ConstantValue::Atom(_)) {
            Some(ConstantValue::True)
        } else {
            None
        },
        IRInstKind::IsNil => if ops.len() == 1 && ops[0] == Some(ConstantValue::Nil) {
            Some(ConstantValue::True)
        } else {
            None
        },
        _ => None,
    }
}

/// Truncating division of two integers, checked: when the divisor is not
/// zero and the quotient fits, the quotient and remainder of `a` by `b`
/// rounding toward zero.
proof fn lemma_trunc_div_rem(a: i64, b: i64)
    requires
        b != 0,
        !(a == i64::MIN && b == -1),
    ensures
        ({
            match (a.checked_div(b), a.checked_rem(b)) {
                (Some(q), Some(r)) => {
                    &&& q * b + r == a
                    &&& (if r >= 0 { r as int } else { -r }) < (if b >= 0 { b as int } else { -b })
                    &&& (r == 0 || (r < 0) == (a < 0))
                },
                _ => false,
            }
        }),
{
    let x = a as int;
    let d = b as int;
    let ax = if x >= 0 { x } else { -x };
    let ad = if d >= 0 { d } else { -d };
    vstd::arithmetic::div_mod::lemma_fundamental_div_mod(ax, ad);
    vstd::arithmetic::div_mod::lemma_mod_pos_bound(ax, ad);
    let q0 = ax / ad;
    let r0 = ax % ad;
    assert(ax == ad * q0 + r0);
    assert(0 <= q0 <= ax) by (nonlinear_arith)
        requires
            ax == ad * q0 + r0,
            0 <= r0 < ad,
            ad >= 1,
            ax >= 0,
    ;
    if x == 0 {
        assert(q0 == 0 && r0 == 0) by (nonlinear_arith)
            requires
                0 == ad * q0 + r0,
                0 <= r0 < ad,
                ad >= 1,
                q0 >= 0,
        ;
        assert(a.checked_div(b) == Some(0i64));
        assert(a.checked_rem(b) == Some(0i64));
    } else if x > 0 && d > 0 {
        assert(q0 * d + r0 == x) by (nonlinear_arith)
            requires
                ax == ad * q0 + r0,
                ax == x,
                ad == d,
        ;
        assert(a.checked_div(b) == Some(q0 as i64));
        assert(a.checked_rem(b) == Some(r0 as i64));
    } else if x < 0 && d < 0 {
        assert((x * -1) / (d * -1) == q0);
        assert((x * -1) % (d * -1) == r0);
        assert(q0 * d + (-r0) == x) by (nonlinear_arith)
            requires
                ax == ad * q0 + r0,
                ax == -x,
                ad == -d,
        ;
        if ad == 1 {
            assert(q0 == ax) by (nonlinear_arith)
                requires
                    ax == ad * q0 + r0,
                    0 <= r0 < ad,
                    ad == 1,
            ;
        } else {
            assert(2 * q0 <= ax) by (nonlinear_arith)
                requires
                    ax == ad * q0 + r0,
                    0 <= r0,
                    ad >= 2,
                    q0 >= 0,
            ;
        }
        assert(a.checked_div(b) == Some(q0 as i64));
        assert(a.checked_rem(b) == Some((-r0) as i64));
    } else if x < 0 {
        assert((x * -1) / d == q0);
        assert((x * -1) % d == r0);
        assert((-q0) * d + (-r0) == x) by (nonlinear_arith)
            requires
                ax == ad * q0 + r0,
                ax == -x,
                ad == d,
        ;
        assert(a.checked_div(b) == Some((-q0) as i64));
        assert(a.checked_rem(b) == Some((-r0) as i64));
    } else {
        assert(x / (d * -1) == q0);
        assert(x % (d * -1) == r0);
        assert((-q0) * d + r0 == x) by (nonlinear_arith)
            requires
                ax == ad * q0 + r0,
                ax == x,
                ad == -d,
        ;
        assert(a.checked_div(b) == Some((-q0) as i64));
        assert(a.checked_rem(b) == Some(r0 as i64));
    }
}

/// Folding gives each integer operation its arithmetic meaning, first
/// operand first: the sum, the difference of the first minus the second
/// and the product when they fit in an `i64` (nothing otherwise); the
/// quotient and remainder rounding toward zero, none when dividing by zero
/// or for the one quotient that does not fit; the truth of each
/// comparison; the bitwise operations; and shifts by 0 to 63 only.
pub proof fn law_fold_integer_meaning(a: i64, b: i64)
    ensures
        ({
            let ops = seq![Some(ConstantValue::Int(a)), Some(ConstantValue::Int(b))];
            &&& fold_spec(IRInstKind::Add, ops) == if i64::MIN <= a + b <= i64::MAX {
                Some(ConstantValue::Int((a + b) as i64))
            } else {
                None
            }
            &&& fold_spec(IRInstKind::Sub, ops) == if i64::MIN <= a - b <= i64::MAX {
                Some(ConstantValue::Int((a - b) as i64))
            } else {
                None
            }
            &&& fold_spec(IRInstKind::Mul, ops) == if i64::MIN <= a * b <= i64::MAX {
                Some(ConstantValue::Int((a * b) as i64))
            } else {
                None
            }
            &&& fold_spec(IRInstKind::Eq, ops) == Some(if a == b { ConstantValue::True } else { ConstantValue::False })
            &&& fold_spec(IRInstKind::Ne, ops) == Some(if a != b { ConstantValue::True } else { ConstantValue::False })
            &&& fold_spec(IRInstKind::Gt, ops) == Some(if a > b { ConstantValue::True } else { ConstantValue::False })
            &&& fold_spec(IRInstKind::Ge, ops) == Some(if a >= b { ConstantValue::True } else { ConstantValue::False })
            &&& fold_spec(IRInstKind::Lt, ops) == Some(if a < b { ConstantValue::True } else { ConstantValue::False })
            &&& fold_spec(IRInstKind::Le, ops) == Some(if a <= b { ConstantValue::True } else { ConstantValue::False })
            &&& fold_spec(IRInstKind::BitAnd, ops) == Some(ConstantValue::Int(a & b))
            &&& fold_spec(IRInstKind::BitOr, ops) == Some(ConstantValue::Int(a | b))
            &&& fold_spec(IRInstKind::BitXor, ops) == Some(ConstantValue::Int(a ^ b))
            &&& fold_spec(IRInstKind::ShiftLeft, ops) == if 0 <= b < 64 {
                Some(ConstantValue::Int(a << (b as u32)))
            } else {
                None
            }
            &&& fold_spec(IRInstKind::ShiftRight, ops) == if 0 <= b < 64 {
                Some(ConstantValue::Int(a >> (b as u32)))
            } else {
                None
            }
            &&& (b == 0 || (a == i64::MIN && b == -1)) ==> fold_spec(IRInstKind::Div, ops) is None
                && fold_spec(IRInstKind::Rem, ops) is None
            &&& (b != 0 && !(a == i64::MIN && b == -1)) ==> match (
                fold_spec(IRInstKind::Div, ops),
                fold_spec(IRInstKind::Rem, ops),
            ) {
                (Some(ConstantValue::Int(q)), Some(ConstantValue::Int(r))) => {
                    &&& q * b + r == a
                    &&& (if r >= 0 { r as int } else { -r }) < (if b >= 0 { b as int } else { -b })
                    &&& (r == 0 || (r < 0) == (a < 0))
                },
                _ => false,
            }
        }),
{
    let ops = seq![Some(ConstantValue::Int(a)), Some(ConstantValue::Int(b))];
    assert(int_pair(ops) == Some((a, b)));
    if b != 0 && !(a == i64::MIN && b == -1) {
        lemma_trunc_div_rem(a, b);
    }
}

/// Folding a type test on one known constant answers it: an integer is a
/// small integer, an atom constant an atom, `nil` is nil; otherwise the
/// test is left alone.
pub proof fn law_fold_type_tests(c: ConstantValue)
    ensures
        fold_spec(IRInstKind::IsSmallInt, seq![Some(c)]) == if c is Int { Some(ConstantValue::True) } else { None },
        fold_spec(IRInstKind::IsAtom, seq![Some(c)]) == if c is Atom { Some(ConstantValue::True) } else { None },
        fold_spec(IRInstKind::IsNil, seq![Some(c)]) == if c is Nil { Some(ConstantValue::True) } else { None },
{
}

/// The two integers of a pair of known integer operands.
fn int_operands(ops: &Vec<Option<ConstantValue>>) -> (r: Option<(i64, i64)>)
    ensures
        r == int_pair(ops@),
{
    if ops.len() == 2 {
        match (ops[0], ops[1]) {
            (Some(ConstantValue::Int(a)), Some(ConstantValue::Int(b))) => Some((a, b)),
            _ => None,
        }
    } else {
        None
    }
}

/// The boolean constant of a truth value.
fn from_bool(b: bool) -> (r: ConstantValue)
    ensures
        r == bool_const(b),
{
    if b {
        ConstantValue::True
    } else {
        ConstantValue::False
    }
}

/// Folds an instruction whose operands are (maybe) known constants.
fn try_fold(inst: &IRInst, operands: &Vec<Option<ConstantValue>>) -> (r: Option<ConstantValue>)
    ensures
        r == fold_spec(inst.kind, operands@),
{
    match &inst.kind {
        IRInstKind::Add => match int_operands(operands) {
            Some((a, b)) => match a.checked_add(b) {
                Some(v) => Some(ConstantValue::Int(v)),
                None => None,
            },
            None => None,
        },
        IRInstKind::Sub => match int_operands(operands) {
            Some((a, b)) => match a.checked_sub(b) {
                Some(v) => Some(ConstantValue::Int(v)),
                None => None,
            },
            None => None,
        },
        IRInstKind::Mul => match int_operands(operands) {
            Some((a, b)) => match a.checked_mul(b) {
                Some(v) => Some(ConstantValue::Int(v)),
                None => None,
            },
            None => None,
        },
        IRInstKind::Div => match int_operands(operands) {
            Some((a, b)) => match a.checked_div(b) {
                Some(v) => Some(ConstantValue::Int(v)),
                None => None,
            },
            None => None,
        },
        IRInstKind::Rem => match int_operands(operands) {
            Some((a, b)) => match a.checked_rem(b) {
                Some(v) => Some(ConstantValue::Int(v)),
                None => None,
            },
            None => None,
        },
        IRInstKind::Eq => if operands.len() == 2 && operands[0].is_some() && operands[1].is_some() {
            Some(from_bool(operands[0] == operands[1]))
        } else {
            None
        },
        IRInstKind::Ne => if operands.len() == 2 && operands[0].is_some() && operands[1].is_some() {
            Some(from_bool(operands[0] != operands[1]))
        } else {
            None
        },
        IRInstKind::Gt => match int_operands(operands) {
            Some((a, b)) => Some(from_bool(a > b)),
            None => None,
        },
        IRInstKind::Ge => match int_operands(operands) {
            Some((a, b)) => Some(from_bool(a >= b)),
            None => None,
        },
        IRInstKind::Lt => match int_operands(operands) {
            Some((a, b)) => Some(from_bool(a < b)),
            None => None,
        },
        IRInstKind::Le => match int_operands(operands) {
            Some((a, b)) => Some(from_bool(a <= b)),
            None => None,
        },
        IRInstKind::BitAnd => match int_operands(operands) {
            Some((a, b)) => Some(ConstantValue::Int(a & b)),
            None => None,
        },
        IRInstKind::BitOr => match int_operands(operands) {
            Some((a, b)) => Some(ConstantValue::Int(a | b)),
            None => None,
        },
        IRInstKind::BitXor => match int_operands(operands) {
            Some((a, b)) => Some(ConstantValue::Int(a ^ b)),
            None => None,
        },
        IRInstKind::ShiftLeft => match int_operands(operands) {
            Some((a, b)) => if 0 <= b && b < 64 {
                Some(ConstantValue::Int(a << (b as u32)))
            } else {
                None
            },
            None => None,
        },
        IRInstKind::ShiftRight => match int_operands(operands) {
            Some((a, b)) => if 0 <= b && b < 64 {
                Some(ConstantValue::Int(a >> (b as u32)))
            } else {
                None
            },
            None => None,
        },
        IRInstKind::IsSmallInt => if operands.len() == 1 && matches!(operands[0], Some(ConstantValue::Int(_))) {
            Some(ConstantValue::True)
        } else {
            None
        },
        IRInstKind::IsAtom => if operands.len() == 1 && matches!(operands[0], Some(ConstantValue::Atom(_))) {
            Some(ConstantValue::True)
        } else {
            None
        },
        IRInstKind::IsNil => if operands.len() == 1 && operands[0] == Some(ConstantValue::Nil) {
            Some(ConstantValue::True)
        } else {
            None
        },
        _ => None,
    }
}


/// The constant a table holds for a value, if any.
pub open spec fn lookup_spec(map: Seq<Option<ConstantValue>>, id: IRValueId) -> Option<ConstantValue> {
    if id.0 < map.len() {
        map[id.0 as int]
    } else {
        None
    }
}

/// The known constants of a list of operands.
pub open spec fn resolved_spec(map: Seq<Option<ConstantValue>>, ops: Seq<IRValueId>) -> Seq<Option<ConstantValue>> {
    Seq::new(ops.len(), |k: int| lookup_spec(map, ops[k]))
}

/// Whether every operand is a known constant.
pub open spec fn all_known_spec(ops: Seq<Option<ConstantValue>>) -> bool {
    forall|i: int| 0 <= i < ops.len() ==> (#[trigger] ops[i]) is Some
}

/// The constant that an instruction folds to against a table of known
/// values: all its operands are known there and its operation folds.
pub open spec fn fold_at(t: Seq<Option<ConstantValue>>, inst: IRInst) -> Option<ConstantValue> {
    let ops = resolved_spec(t, inst.operands@);
    if all_known_spec(ops) {
        fold_spec(inst.kind, ops)
    } else {
        None
    }
}

/// Against a table of known values, an instruction with two operands
/// folds on their known constants in operand order, and not at all when
/// one of them is unknown; so a subtraction of known integers `a` and `b`
/// gives `a - b` when it fits.
pub proof fn law_fold_at_operand_order(t: Seq<Option<ConstantValue>>, inst: IRInst, a: i64, b: i64)
    requires
        inst.operands@.len() == 2,
    ensures
        ({
            let x = inst.operands@[0];
            let y = inst.operands@[1];
            let kx = if x.0 < t.len() { t[x.0 as int] } else { None };
            let ky = if y.0 < t.len() { t[y.0 as int] } else { None };
            &&& (kx is None || ky is None) ==> fold_at(t, inst) is None
            &&& (kx is Some && ky is Some) ==> fold_at(t, inst) == fold_spec(inst.kind, seq![kx, ky])
            &&& (kx == Some(ConstantValue::Int(a)) && ky == Some(ConstantValue::Int(b)) && inst.kind is Sub
                && i64::MIN <= a - b <= i64::MAX) ==> fold_at(t, inst) == Some(ConstantValue::Int((a - b) as i64))
        }),
{
    let ops = resolved_spec(t, inst.operands@);
    assert(ops =~= seq![lookup_spec(t, inst.operands@[0]), lookup_spec(t, inst.operands@[1])]);
    law_fold_integer_meaning(a, b);
}

/// The constant that a constant-loading instruction loads.
pub open spec fn loaded_const(kind: IRInstKind) -> Option<ConstantValue> {
    match kind {
        IRInstKind::ConstSmallInt { value } => Some(ConstantValue::Int(value)),
        IRInstKind::ConstAtom { index } => Some(ConstantValue::Atom(index)),
        IRInstKind::ConstNil => Some(ConstantValue::Nil),
        IRInstKind::ConstTrue => Some(ConstantValue::True),
        IRInstKind::ConstFalse => Some(ConstantValue::False),
        _ => None,
    }
}

/// The table with the constant of a result recorded, when the result's
/// ID falls inside it.
pub open spec fn set_known(t: Seq<Option<ConstantValue>>, res: Option<IRValueId>, c: ConstantValue) -> Seq<
    Option<ConstantValue>,
> {
    match res {
        Some(r) => if r.0 < t.len() {
            t.update(r.0 as int, Some(c))
        } else {
            t
        },
        None => t,
    }
}

/// The table after recording, in order, the constant of each
/// constant-loading instruction.
pub open spec fn seed_insts(t: Seq<Option<ConstantValue>>, insts: Seq<IRInst>) -> Seq<Option<ConstantValue>>
    decreases insts.len(),
{
    if insts.len() == 0 {
        t
    } else {
        let t2 = seed_insts(t, insts.drop_last());
        match loaded_const(insts.last().kind) {
            Some(c) => set_known(t2, insts.last().result, c),
            None => t2,
        }
    }
}

/// The table after seeding from the blocks marked reachable, in order.
pub open spec fn seed_blocks(t: Seq<Option<ConstantValue>>, blocks: Seq<BasicBlock>) -> Seq<Option<ConstantValue>>
    decreases blocks.len(),
{
    if blocks.len() == 0 {
        t
    } else {
        let t2 = seed_blocks(t, blocks.drop_last());
        if blocks.last().reachable {
            seed_insts(t2, blocks.last().instructions@)
        } else {
            t2
        }
    }
}

/// The table both passes start from: as many entries as sixteen per
/// block, each known exactly when a constant-loading instruction of a
/// block marked reachable defines it.
pub open spec fn seeded(f: IRFunction) -> Seq<Option<ConstantValue>> {
    seed_blocks(Seq::new((f.blocks@.len() * 16) as nat, |i: int| None), f.blocks@)
}

/// The table after folding, in order, each instruction of the sequence.
pub open spec fn fold_insts(t: Seq<Option<ConstantValue>>, insts: Seq<IRInst>) -> Seq<Option<ConstantValue>>
    decreases insts.len(),
{
    if insts.len() == 0 {
        t
    } else {
        let t2 = fold_insts(t, insts.drop_last());
        match fold_at(t2, insts.last()) {
            Some(c) => set_known(t2, insts.last().result, c),
            None => t2,
        }
    }
}

/// The table after folding the blocks marked reachable, in order.
pub open spec fn fold_blocks(t: Seq<Option<ConstantValue>>, blocks: Seq<BasicBlock>) -> Seq<Option<ConstantValue>>
    decreases blocks.len(),
{
    if blocks.len() == 0 {
        t
    } else {
        let t2 = fold_blocks(t, blocks.drop_last());
        if blocks.last().reachable {
            fold_insts(t2, blocks.last().instructions@)
        } else {
            t2
        }
    }
}

/// An instruction replaced by the load of constant `c`: same result and
/// offset, no operand, no side effect.
pub open spec fn folded_inst(n: IRInst, o: IRInst, c: ConstantValue) -> bool {
    &&& n.kind == const_load_kind(c)
    &&& n.operands@.len() == 0
    &&& n.result == o.result
    &&& n.beam_offset == o.beam_offset
    &&& !n.side_effects.allocates && !n.side_effects.reads_heap && !n.side_effects.writes_heap
    &&& !n.side_effects.may_raise && !n.side_effects.calls && !n.side_effects.may_yield
}

/// What folding does to one instruction, given its folded constant if any.
pub open spec fn fold_rel(n: IRInst, o: IRInst, oc: Option<ConstantValue>) -> bool {
    match oc {
        Some(c) => folded_inst(n, o, c),
        None => n == o,
    }
}

/// The constant that instruction `k` of block `i` folds to, if any.
pub open spec fn fold_point(f: IRFunction, i: int, k: int) -> Option<ConstantValue> {
    let blocks = f.blocks@;
    let t = fold_insts(fold_blocks(seeded(f), blocks.take(i)), blocks[i].instructions@.take(k));
    fold_at(t, blocks[i].instructions@[k])
}

/// The known constant of a value, if the table holds one for it.
fn lookup_constant(map: &Vec<Option<ConstantValue>>, id: IRValueId) -> (r: Option<ConstantValue>)
    ensures
        r == lookup_spec(map@, id),
{
    if id.0 < map.len() {
        map[id.0]
    } else {
        None
    }
}

/// The known constants of a list of operands.
fn resolve_operands(map: &Vec<Option<ConstantValue>>, operands: &Vec<IRValueId>) -> (r: Vec<Option<ConstantValue>>)
    ensures
        r@ == resolved_spec(map@, operands@),
{
    let mut r: Vec<Option<ConstantValue>> = Vec::new();
    let mut k: usize = 0;
    while k < operands.len()
        invariant
            k <= operands@.len(),
            r@ == resolved_spec(map@, operands@.take(k as int)),
        decreases operands@.len() - k,
    {
        let c = lookup_constant(map, operands[k]);
        r.push(c);
        k = k + 1;
        proof {
            assert(r@ =~= resolved_spec(map@, operands@.take(k as int)));
        }
    }
    proof {
        assert(operands@.take(operands@.len() as int) =~= operands@);
    }
    r
}

/// Whether every operand is a known constant.
fn all_known(ops: &Vec<Option<ConstantValue>>) -> (r: bool)
    ensures
        r == all_known_spec(ops@),
{
    let mut k: usize = 0;
    while k < ops.len()
        invariant
            k <= ops@.len(),
            forall|i: int| 0 <= i < k ==> (#[trigger] ops@[i]) is Some,
        decreases ops@.len() - k,
    {
        if ops[k].is_none() {
            return false;
        }
        k = k + 1;
    }
    true
}

/// A table of `n` unknown values.
fn unknown_table(n: usize) -> (r: Vec<Option<ConstantValue>>)
    ensures
        r@ == Seq::new(n as nat, |i: int| None::<ConstantValue>),
{
    let mut r: Vec<Option<ConstantValue>> = Vec::new();
    let mut k: usize = 0;
    while k < n
        invariant
            k <= n,
            r@ == Seq::new(k as nat, |i: int| None::<ConstantValue>),
        decreases n - k,
    {
        r.push(None);
        k = k + 1;
        proof {
            assert(r@ =~= Seq::new(k as nat, |i: int| None::<ConstantValue>));
        }
    }
    r
}

/// The instruction kind that loads constant `c`: a small integer loads by
/// its value, a float by its bit pattern read as a signed integer, an atom
/// by its index, and nil, true and false by their own instructions.
pub open spec fn const_load_kind(c: ConstantValue) -> IRInstKind {
    match c {
        ConstantValue::Int(v) => IRInstKind::ConstSmallInt { value: v },
        ConstantValue::Nil => IRInstKind::ConstNil,
        ConstantValue::True => IRInstKind::ConstTrue,
        ConstantValue::False => IRInstKind::ConstFalse,
        ConstantValue::Atom(a) => IRInstKind::ConstAtom { index: a },
        ConstantValue::Float(bits) => IRInstKind::ConstSmallInt { value: bits as i64 },
    }
}

/// Folding an equality test on two known constants answers whether they
/// are the same constant, and the inequality test the opposite; an
/// operation with an unknown operand does not fold.
pub proof fn law_fold_equality_and_unknowns(k: IRInstKind, c1: ConstantValue, c2: ConstantValue, x: Option<ConstantValue>)
    ensures
        fold_spec(IRInstKind::Eq, seq![Some(c1), Some(c2)]) == Some(
            if c1 == c2 { ConstantValue::True } else { ConstantValue::False },
        ),
        fold_spec(IRInstKind::Ne, seq![Some(c1), Some(c2)]) == Some(
            if c1 != c2 { ConstantValue::True } else { ConstantValue::False },
        ),
        fold_spec(k, seq![None, x]) is None,
        fold_spec(k, seq![x, None]) is None,
        fold_spec(k, seq![None]) is None,
        fold_spec(k, Seq::<Option<ConstantValue>>::empty()) is None,
{
}

/// The instruction that replaces a folded one loads exactly the folded
/// constant: a small integer, `nil`, `true`, `false` or an atom.
pub proof fn law_const_load_kind_loads(c: ConstantValue)
    ensures
        c matches ConstantValue::Int(v) ==> const_load_kind(c) == (IRInstKind::ConstSmallInt { value: v }),
        c matches ConstantValue::Atom(a) ==> const_load_kind(c) == (IRInstKind::ConstAtom { index: a }),
        c is Nil ==> const_load_kind(c) == IRInstKind::ConstNil,
        c is True ==> const_load_kind(c) == IRInstKind::ConstTrue,
        c is False ==> const_load_kind(c) == IRInstKind::ConstFalse,
        !(c is Float) ==> loaded_const(const_load_kind(c)) == Some(c),
{
}

/// The instruction kind that loads a constant.
fn const_kind(c: ConstantValue) -> (r: IRInstKind)
    ensures
        r == const_load_kind(c),
{
    match c {
        ConstantValue::Int(v) => IRInstKind::ConstSmallInt { value: v },
        ConstantValue::Nil => IRInstKind::ConstNil,
        ConstantValue::True => IRInstKind::ConstTrue,
        ConstantValue::False => IRInstKind::ConstFalse,
        ConstantValue::Atom(a) => IRInstKind::ConstAtom { index: a },
        ConstantValue::Float(bits) => IRInstKind::ConstSmallInt { value: bits as i64 },
    }
}

/// The table after learning, in order, the constant of each instruction
/// that folds and whose result is not yet known.
pub open spec fn learn_insts(t: Seq<Option<ConstantValue>>, insts: Seq<IRInst>) -> Seq<Option<ConstantValue>>
    decreases insts.len(),
{
    if insts.len() == 0 {
        t
    } else {
        let t2 = learn_insts(t, insts.drop_last());
        let inst = insts.last();
        match (fold_spec(inst.kind, resolved_spec(t2, inst.operands@)), inst.result) {
            (Some(c), Some(r)) => if r.0 < t2.len() && t2[r.0 as int] is None {
                t2.update(r.0 as int, Some(c))
            } else {
                t2
            },
            _ => t2,
        }
    }
}

/// The table after one learning pass over the blocks marked reachable.
pub open spec fn learn_blocks(t: Seq<Option<ConstantValue>>, blocks: Seq<BasicBlock>) -> Seq<Option<ConstantValue>>
    decreases blocks.len(),
{
    if blocks.len() == 0 {
        t
    } else {
        let t2 = learn_blocks(t, blocks.drop_last());
        if blocks.last().reachable {
            learn_insts(t2, blocks.last().instructions@)
        } else {
            t2
        }
    }
}

/// The number of unknown entries of a table.
pub open spec fn count_unknown(t: Seq<Option<ConstantValue>>) -> nat
    decreases t.len(),
{
    if t.len() == 0 {
        0
    } else {
        count_unknown(t.drop_last()) + if t.last() is None { 1nat } else { 0nat }
    }
}

proof fn lemma_count_unknown_set(t: Seq<Option<ConstantValue>>, i: int, c: ConstantValue)
    requires
        0 <= i < t.len(),
        t[i] is None,
    ensures
        count_unknown(t.update(i, Some(c))) + 1 == count_unknown(t),
    decreases t.len(),
{
    if i == t.len() - 1 {
        assert(t.update(i, Some(c)).drop_last() =~= t.drop_last());
    } else {
        lemma_count_unknown_set(t.drop_last(), i, c);
        assert(t.update(i, Some(c)).drop_last() =~= t.drop_last().update(i, Some(c)));
    }
}

proof fn lemma_learn_insts_count(t: Seq<Option<ConstantValue>>, insts: Seq<IRInst>)
    ensures
        learn_insts(t, insts).len() == t.len(),
        count_unknown(learn_insts(t, insts)) <= count_unknown(t),
        learn_insts(t, insts) != t ==> count_unknown(learn_insts(t, insts)) < count_unknown(t),
    decreases insts.len(),
{
    if insts.len() > 0 {
        let t2 = learn_insts(t, insts.drop_last());
        lemma_learn_insts_count(t, insts.drop_last());
        let inst = insts.last();
        match (fold_spec(inst.kind, resolved_spec(t2, inst.operands@)), inst.result) {
            (Some(c), Some(r)) => if r.0 < t2.len() && t2[r.0 as int] is None {
                lemma_count_unknown_set(t2, r.0 as int, c);
            },
            _ => {},
        }
    }
}

/// A learning pass keeps the table's length, never adds an unknown entry,
/// and leaves fewer when it learns something.
pub proof fn lemma_learn_blocks_count(t: Seq<Option<ConstantValue>>, blocks: Seq<BasicBlock>)
    ensures
        learn_blocks(t, blocks).len() == t.len(),
        count_unknown(learn_blocks(t, blocks)) <= count_unknown(t),
        learn_blocks(t, blocks) != t ==> count_unknown(learn_blocks(t, blocks)) < count_unknown(t),
    decreases blocks.len(),
{
    if blocks.len() > 0 {
        lemma_learn_blocks_count(t, blocks.drop_last());
        if blocks.last().reachable {
            lemma_learn_insts_count(learn_blocks(t, blocks.drop_last()), blocks.last().instructions@);
        }
    }
}

/// The constant that a constant-loading instruction loads.
fn load_const(kind: &IRInstKind) -> (r: Option<ConstantValue>)
    ensures
        r == loaded_const(*kind),
{
    match kind {
        IRInstKind::ConstSmallInt { value } => Some(ConstantValue::Int(*value)),
        IRInstKind::ConstAtom { index } => Some(ConstantValue::Atom(*index)),
        IRInstKind::ConstNil => Some(ConstantValue::Nil),
        IRInstKind::ConstTrue => Some(ConstantValue::True),
        IRInstKind::ConstFalse => Some(ConstantValue::False),
        _ => None,
    }
}

/// Records the constant of a result, when its ID falls inside the table.
fn record(table: &mut Vec<Option<ConstantValue>>, res: Option<IRValueId>, c: ConstantValue)
    ensures
        final(table)@ == set_known(old(table)@, res, c),
{
    if let Some(r) = res {
        if r.0 < table.len() {
            table.set(r.0, Some(c));
        }
    }
}

/// Seeds the table from the constant-loading instructions of the blocks
/// marked reachable.
fn seed_table(blocks: &Vec<BasicBlock>, table: &mut Vec<Option<ConstantValue>>)
    ensures
        final(table)@ == seed_blocks(old(table)@, blocks@),
{
    let mut b: usize = 0;
    while b < blocks.len()
        invariant
            b <= blocks@.len(),
            table@ == seed_blocks(old(table)@, blocks@.take(b as int)),
        decreases blocks@.len() - b,
    {
        proof {
            assert(blocks@.take(b + 1).drop_last() =~= blocks@.take(b as int));
        }
        if blocks[b].reachable {
            let insts = &blocks[b].instructions;
            let ghost t0 = table@;
            let mut i: usize = 0;
            while i < insts.len()
                invariant
                    i <= insts@.len(),
                    table@ == seed_insts(t0, insts@.take(i as int)),
                decreases insts@.len() - i,
            {
                proof {
                    assert(insts@.take(i + 1).drop_last() =~= insts@.take(i as int));
                }
                if let Some(c) = load_const(&insts[i].kind) {
                    record(table, insts[i].result, c);
                }
                i = i + 1;
            }
            proof {
                assert(insts@.take(insts@.len() as int) =~= insts@);
            }
        }
        b = b + 1;
    }
    proof {
        assert(blocks@.take(blocks@.len() as int) =~= blocks@);
    }
}

/// One learning pass: records, in order, the constant of each
/// instruction of a block marked reachable that folds and whose result
/// is not yet known; returns whether the table changed.
fn learn_pass(blocks: &Vec<BasicBlock>, table: &mut Vec<Option<ConstantValue>>) -> (changed: bool)
    ensures
        final(table)@ == learn_blocks(old(table)@, blocks@),
        changed == (final(table)@ != old(table)@),
{
    let ghost t_in = table@;
    let mut changed = false;
    let mut b: usize = 0;
    while b < blocks.len()
        invariant
            b <= blocks@.len(),
            t_in == old(table)@,
            table@ == learn_blocks(t_in, blocks@.take(b as int)),
            table@.len() == t_in.len(),
            forall|r: int| 0 <= r < t_in.len() && (#[trigger] t_in[r]) is Some ==> table@[r] == t_in[r],
            changed == (table@ != t_in),
        decreases blocks@.len() - b,
    {
        proof {
            assert(blocks@.take(b + 1).drop_last() =~= blocks@.take(b as int));
        }
        if blocks[b].reachable {
            let insts = &blocks[b].instructions;
            let ghost t0 = table@;
            let mut i: usize = 0;
            while i < insts.len()
                invariant
                    i <= insts@.len(),
                    table@ == learn_insts(t0, insts@.take(i as int)),
                    table@.len() == t_in.len(),
                    forall|r: int| 0 <= r < t_in.len() && (#[trigger] t_in[r]) is Some ==> table@[r] == t_in[r],
                    changed == (table@ != t_in),
                decreases insts@.len() - i,
            {
                proof {
                    assert(insts@.take(i + 1).drop_last() =~= insts@.take(i as int));
                }
                let resolved = resolve_operands(table, &insts[i].operands);
                if let Some(folded) = try_fold(&insts[i], &resolved) {
                    if let Some(result) = insts[i].result {
                        if result.0 < table.len() && table[result.0].is_none() {
                            table.set(result.0, Some(folded));
                            changed = true;
                            proof {
                                assert(table@[result.0 as int] != t_in[result.0 as int]);
                            }
                        }
                    }
                }
                i = i + 1;
            }
            proof {
                assert(insts@.take(insts@.len() as int) =~= insts@);
            }
        }
        b = b + 1;
    }
    proof {
        assert(blocks@.take(blocks@.len() as int) =~= blocks@);
    }
    changed
}

/// The table after learning pass after pass until a pass learns nothing.
pub open spec fn learn_fix(t: Seq<Option<ConstantValue>>, blocks: Seq<BasicBlock>) -> Seq<Option<ConstantValue>>
    decreases count_unknown(t),
{
    let t2 = learn_blocks(t, blocks);
    if t2 == t {
        t
    } else {
        proof {
            lemma_learn_blocks_count(t, blocks);
        }
        learn_fix(t2, blocks)
    }
}

/// The constant an instruction is known to compute, given the table of
/// known values: the entry of its result, unless it already loads a
/// constant.
pub open spec fn known_result(t: Seq<Option<ConstantValue>>, inst: IRInst) -> Option<ConstantValue> {
    match inst.result {
        Some(r) => if r.0 < t.len() && loaded_const(inst.kind) is None {
            t[r.0 as int]
        } else {
            None
        },
        None => None,
    }
}

/// The table of values that propagation knows: the seeded table, learned
/// up to its fixpoint.
pub open spec fn propagated(f: IRFunction) -> Seq<Option<ConstantValue>> {
    learn_fix(seeded(f), f.blocks@)
}

/// Propagation replaces, in each block marked reachable, every instruction
/// whose result it knows to be a constant (`known_result` in
/// `propagated`) by the load of that constant, and touches nothing else;
/// it reports a change exactly when it replaces an instruction.
pub open spec fn propagate_post(old: IRFunction, new: IRFunction, changed: bool) -> bool {
    &&& same_header(new, old)
    &&& new.blocks@.len() == old.blocks@.len()
    &&& forall|i: int|
        0 <= i < old.blocks@.len() ==> {
            let ob = old.blocks@[i];
            let nb = #[trigger] new.blocks@[i];
            &&& nb.label == ob.label
            &&& nb.predecessors == ob.predecessors
            &&& nb.successors == ob.successors
            &&& nb.reachable == ob.reachable
            &&& !ob.reachable ==> nb == ob
            &&& ob.reachable ==> nb.instructions@.len() == ob.instructions@.len()
            &&& ob.reachable ==> forall|k: int|
                0 <= k < ob.instructions@.len() ==> fold_rel(
                    #[trigger] nb.instructions@[k],
                    ob.instructions@[k],
                    known_result(propagated(old), ob.instructions@[k]),
                )
        }
    &&& changed == exists|i: int, k: int|
        0 <= i < old.blocks@.len() && old.blocks@[i].reachable && 0 <= k < old.blocks@[i].instructions@.len()
            && #[trigger] known_result(propagated(old), old.blocks@[i].instructions@[k]) is Some
}

/// Replaces each instruction whose result the table knows to be a
/// constant by the load of that constant.
fn replace_known(insts: &mut Vec<IRInst>, table: &Vec<Option<ConstantValue>>) -> (changed: bool)
    ensures
        final(insts)@.len() == old(insts)@.len(),
        forall|k: int|
            0 <= k < old(insts)@.len() ==> fold_rel(
                #[trigger] final(insts)@[k],
                old(insts)@[k],
                known_result(table@, old(insts)@[k]),
            ),
        changed == exists|k: int| 0 <= k < old(insts)@.len() && #[trigger] known_result(table@, old(insts)@[k]) is Some,
{
    let ghost oi = insts@;
    let mut changed = false;
    let mut i: usize = 0;
    while i < insts.len()
        invariant
            i <= insts@.len() == oi.len(),
            oi == old(insts)@,
            forall|k: int| 0 <= k < i ==> fold_rel(#[trigger] insts@[k], oi[k], known_result(table@, oi[k])),
            forall|k: int| i <= k < oi.len() ==> #[trigger] insts@[k] == oi[k],
            changed == exists|k: int| 0 <= k < i && #[trigger] known_result(table@, oi[k]) is Some,
        decreases oi.len() - i,
    {
        let mut known: Option<ConstantValue> = None;
        if let Some(r) = insts[i].result {
            if r.0 < table.len() && load_const(&insts[i].kind).is_none() {
                known = table[r.0];
            }
        }
        proof {
            assert(known == known_result(table@, oi[i as int]));
        }
        if let Some(c) = known {
            let n = IRInst {
                kind: const_kind(c),
                result: insts[i].result,
                operands: Vec::new(),
                beam_offset: insts[i].beam_offset,
                side_effects: SideEffects::none(),
            };
            insts.set(i, n);
            changed = true;
        }
        i = i + 1;
    }
    changed
}

/// Propagates constants: seeds a table of known values from the
/// constant-loading instructions of the blocks marked reachable, records
/// the constant of each result whose instruction folds, pass after pass
/// until a pass learns nothing, then replaces each instruction of such a
/// block whose result is known (and that does not already load a
/// constant) by the load of that constant.  Returns whether it replaced
/// any.
pub fn propagate_constants(func: &mut IRFunction) -> (changed: bool)
    requires
        old(func).blocks@.len() * 16 <= usize::MAX,
    ensures
        propagate_post(*old(func), *final(func), changed),
{
    let ghost of = *func;
    let ghost ob = func.blocks@;
    let mut value_map = unknown_table(func.blocks.len() * 16);
    proof {
        assert(value_map@ =~= Seq::new((func.blocks@.len() * 16) as nat, |i: int| None::<ConstantValue>));
    }
    seed_table(&func.blocks, &mut value_map);
    let ghost tf = propagated(of);
    let mut again = true;
    while again
        invariant
            *func == of,
            ob == func.blocks@,
            of == *old(func),
            tf == propagated(of),
            learn_fix(value_map@, ob) == tf,
            !again ==> value_map@ == tf,
        decreases count_unknown(value_map@) + if again { 1nat } else { 0nat },
    {
        let ghost t = value_map@;
        again = learn_pass(&func.blocks, &mut value_map);
        proof {
            lemma_learn_blocks_count(t, ob);
        }
    }
    let mut changed = false;
    let mut b: usize = 0;
    while b < func.blocks.len()
        invariant
            b <= func.blocks@.len() == ob.len(),
            ob == old(func).blocks@,
            of == *old(func),
            value_map@ == tf,
            tf == propagated(of),
            same_header(*func, *old(func)),
            forall|j: int|
                0 <= j < ob.len() ==> {
                    let o = ob[j];
                    let n = #[trigger] func.blocks@[j];
                    if j < b && o.reachable {
                        &&& n.label == o.label
                        &&& n.predecessors == o.predecessors
                        &&& n.successors == o.successors
                        &&& n.reachable == o.reachable
                        &&& n.instructions@.len() == o.instructions@.len()
                        &&& forall|k: int|
                            0 <= k < o.instructions@.len() ==> fold_rel(
                                #[trigger] n.instructions@[k],
                                o.instructions@[k],
                                known_result(tf, o.instructions@[k]),
                            )
                    } else {
                        n == o
                    }
                },
            changed == exists|j: int, k: int|
                0 <= j < b && ob[j].reachable && 0 <= k < ob[j].instructions@.len()
                    && #[trigger] known_result(tf, ob[j].instructions@[k]) is Some,
        decreases ob.len() - b,
    {
        if func.blocks[b].reachable {
            let mut insts: Vec<IRInst> = Vec::new();
            std::mem::swap(&mut insts, &mut func.blocks[b].instructions);
            let c = replace_known(&mut insts, &value_map);
            std::mem::swap(&mut insts, &mut func.blocks[b].instructions);
            if c {
                changed = true;
            }
        }
        b = b + 1;
    }
    changed
}

/// Folding replaces, in each block marked reachable, every instruction
/// whose operands are all known and that folds (`fold_point`) by the load
/// of its constant, and touches nothing else.  The table of known values
/// is seeded from the constant-loading instructions and grows with each
/// fold, in block and instruction order.  A change is reported exactly
/// when some instruction is replaced.
pub open spec fn fold_post(old: IRFunction, new: IRFunction, changed: bool) -> bool {
    &&& same_header(new, old)
    &&& new.blocks@.len() == old.blocks@.len()
    &&& forall|i: int|
        0 <= i < old.blocks@.len() ==> {
            let ob = old.blocks@[i];
            let nb = #[trigger] new.blocks@[i];
            &&& nb.label == ob.label
            &&& nb.predecessors == ob.predecessors
            &&& nb.successors == ob.successors
            &&& nb.reachable == ob.reachable
            &&& !ob.reachable ==> nb == ob
            &&& ob.reachable ==> nb.instructions@.len() == ob.instructions@.len()
            &&& ob.reachable ==> forall|k: int|
                0 <= k < ob.instructions@.len() ==> fold_rel(
                    #[trigger] nb.instructions@[k],
                    ob.instructions@[k],
                    fold_point(old, i, k),
                )
        }
    &&& changed == exists|i: int, k: int|
        0 <= i < old.blocks@.len() && old.blocks@[i].reachable && 0 <= k < old.blocks@[i].instructions@.len()
            && #[trigger] fold_point(old, i, k) is Some
}

/// Folds the instructions of one block in order against the table.
fn fold_block(insts: &mut Vec<IRInst>, table: &mut Vec<Option<ConstantValue>>) -> (changed: bool)
    ensures
        final(table)@ == fold_insts(old(table)@, old(insts)@),
        final(insts)@.len() == old(insts)@.len(),
        forall|k: int|
            0 <= k < old(insts)@.len() ==> fold_rel(
                #[trigger] final(insts)@[k],
                old(insts)@[k],
                fold_at(fold_insts(old(table)@, old(insts)@.take(k)), old(insts)@[k]),
            ),
        changed == exists|k: int|
            0 <= k < old(insts)@.len() && #[trigger] fold_at(fold_insts(old(table)@, old(insts)@.take(k)), old(insts)@[k])
                is Some,
{
    let ghost oi = insts@;
    let ghost ot = table@;
    let mut changed = false;
    let mut i: usize = 0;
    while i < insts.len()
        invariant
            i <= insts@.len() == oi.len(),
            oi == old(insts)@,
            ot == old(table)@,
            table@ == fold_insts(ot, oi.take(i as int)),
            forall|k: int| 0 <= k < i ==> fold_rel(#[trigger] insts@[k], oi[k], fold_at(fold_insts(ot, oi.take(k)), oi[k])),
            forall|k: int| i <= k < oi.len() ==> #[trigger] insts@[k] == oi[k],
            changed == exists|k: int| 0 <= k < i && #[trigger] fold_at(fold_insts(ot, oi.take(k)), oi[k]) is Some,
        decreases oi.len() - i,
    {
        proof {
            assert(oi.take(i + 1).drop_last() =~= oi.take(i as int));
            assert(oi.take(i + 1).last() == oi[i as int]);
        }
        let resolved = resolve_operands(table, &insts[i].operands);
        let ok = all_known(&resolved);
        let mut folded: Option<ConstantValue> = None;
        if ok {
            folded = try_fold(&insts[i], &resolved);
        }
        proof {
            assert(folded == fold_at(table@, oi[i as int]));
        }
        if let Some(c) = folded {
            let n = IRInst {
                kind: const_kind(c),
                result: insts[i].result,
                operands: Vec::new(),
                beam_offset: insts[i].beam_offset,
                side_effects: SideEffects::none(),
            };
            let res = insts[i].result;
            insts.set(i, n);
            record(table, res, c);
            changed = true;
        }
        i = i + 1;
    }
    proof {
        assert(oi.take(oi.len() as int) =~= oi);
    }
    changed
}

/// Folds constant expressions: seeds a table of known values from the
/// constant-loading instructions of the blocks marked reachable, then, in
/// order, replaces each instruction of such a block whose operands are
/// all known constants and that folds by the instruction that loads its
/// constant, recording that constant for its result.  Returns whether it
/// replaced any.
pub fn fold_constants(func: &mut IRFunction) -> (changed: bool)
    requires
        old(func).blocks@.len() * 16 <= usize::MAX,
    ensures
        fold_post(*old(func), *final(func), changed),
{
    let ghost of = *func;
    let ghost ob = func.blocks@;
    let mut value_map = unknown_table(func.blocks.len() * 16);
    proof {
        assert(value_map@ =~= Seq::new((func.blocks@.len() * 16) as nat, |i: int| None::<ConstantValue>));
    }
    seed_table(&func.blocks, &mut value_map);
    let ghost t0 = value_map@;
    assert(t0 == seeded(of));
    let mut changed = false;
    let mut b: usize = 0;
    while b < func.blocks.len()
        invariant
            b <= func.blocks@.len() == ob.len(),
            ob == old(func).blocks@,
            of == *old(func),
            t0 == seeded(of),
            same_header(*func, *old(func)),
            value_map@ == fold_blocks(t0, ob.take(b as int)),
            forall|j: int|
                0 <= j < ob.len() ==> {
                    let o = ob[j];
                    let n = #[trigger] func.blocks@[j];
                    if j < b && o.reachable {
                        &&& n.label == o.label
                        &&& n.predecessors == o.predecessors
                        &&& n.successors == o.successors
                        &&& n.reachable == o.reachable
                        &&& n.instructions@.len() == o.instructions@.len()
                        &&& forall|k: int|
                            0 <= k < o.instructions@.len() ==> fold_rel(
                                #[trigger] n.instructions@[k],
                                o.instructions@[k],
                                fold_point(of, j, k),
                            )
                    } else {
                        n == o
                    }
                },
            changed == exists|j: int, k: int|
                0 <= j < b && ob[j].reachable && 0 <= k < ob[j].instructions@.len()
                    && #[trigger] fold_point(of, j, k) is Some,
        decreases ob.len() - b,
    {
        proof {
            assert(ob.take(b + 1).drop_last() =~= ob.take(b as int));
            assert(ob.take(b + 1).last() == ob[b as int]);
        }
        if func.blocks[b].reachable {
            let mut insts: Vec<IRInst> = Vec::new();
            std::mem::swap(&mut insts, &mut func.blocks[b].instructions);
            let ghost tb = value_map@;
            let c = fold_block(&mut insts, &mut value_map);
            proof {
                let oi = ob[b as int].instructions@;
                assert forall|k: int| 0 <= k < oi.len() implies #[trigger] fold_point(of, b as int, k)
                    == fold_at(fold_insts(tb, oi.take(k)), oi[k]) by {}
                if c {
                    let k = choose|k: int| 0 <= k < oi.len() && #[trigger] fold_at(fold_insts(tb, oi.take(k)), oi[k]) is Some;
                    assert(fold_point(of, b as int, k) is Some);
                }
                if !c {
                    assert forall|k: int| 0 <= k < oi.len() implies !(#[trigger] fold_point(of, b as int, k) is Some) by {
                        assert(!(fold_at(fold_insts(tb, oi.take(k)), oi[k]) is Some));
                    }
                }
            }
            std::mem::swap(&mut insts, &mut func.blocks[b].instructions);
            if c {
                changed = true;
            }
        }
        b = b + 1;
    }
    proof {
        assert(ob.take(ob.len() as int) =~= ob);
    }
    changed
}

} // verus!
