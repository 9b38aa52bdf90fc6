//! Stack and heap layout for the BEAM runtime: frame sizes and offsets,
//! register assignment, spill slots and GC stack maps.

use crate::instruction::Reg;
use crate::type_system::{IRType, TypeKind};
use vstd::prelude::*;

verus! {

broadcast use vstd::seq::group_seq_axioms, vstd::std_specs::vec::group_vec_axioms;

/// Stack frame layout for a compiled function.
#[derive(Debug, Clone)]
pub struct FrameLayout {
    /// Total frame size in words
    pub frame_size: u32,
    /// Number of spill slots
    pub spill_slots: u32,
    /// Register assignments (register -> stack offset)
    pub register_slots: Vec<(Reg, u32)>,
    /// Spill slot offsets
    pub spill_offsets: Vec<u32>,
    /// Saved Y register count
    pub saved_y_count: u32,
    /// Whether this frame needs GC safepoints
    pub needs_gc: bool,
}

/// A stack slot: a register or a stack location.
#[derive(Debug, Clone, Copy, PartialEq, Eq, Hash, Structural)]
pub enum Slot {
    /// A register
    Reg(Reg),
    /// A stack slot (offset from frame base)
    Stack(u32),
    /// A spill slot
    Spill(u32),
}

/// The number of physical X registers.
pub const NUM_REGS: usize = 256;

/// The first X register that is not an argument or result register.
pub const FIRST_FREE_REG: usize = 8;

/// Layout calculator for function frames.
pub struct FrameLayoutCalculator {
    /// The function being laid out
    pub func_name: String,
    /// Register pressure for each physical register
    register_pressure: Vec<u32>,
    /// Spill slot counter
    next_spill: u32,
    /// Stack-allocated values
    stack_slots: Vec<Slot>,
}

/// The index of the first least value of `p` in `[lo, hi)`.
pub open spec fn first_min_index(p: Seq<u32>, lo: int, hi: int) -> int
    decreases hi - lo,
{
    if hi - lo <= 1 {
        lo
    } else {
        let rest = first_min_index(p, lo + 1, hi);
        if p[lo] <= p[rest] {
            lo
        } else {
            rest
        }
    }
}

/// Whether a type is kept in a register when it gets a slot.
pub open spec fn register_kind(k: TypeKind) -> bool {
    k is SmallInt || k is NonNegInt || k is Float || k is Atom
}

impl FrameLayoutCalculator {
    /// The register pressure of each physical register.
    pub closed spec fn pressure(&self) -> Seq<u32> {
        self.register_pressure@
    }

    /// The name of the function being laid out.
    pub closed spec fn name(&self) -> String {
        self.func_name
    }

    /// The number of spill slots allocated so far.
    pub closed spec fn spills(&self) -> u32 {
        self.next_spill
    }

    /// The stack slots allocated so far.
    pub closed spec fn stack(&self) -> Seq<Slot> {
        self.stack_slots@
    }

    /// The invariant: one pressure counter per physical register.
    pub closed spec fn inv(&self) -> bool {
        self.register_pressure@.len() == NUM_REGS
    }

    /// A calculator with no pressure, no spill and no stack slot.
    pub fn new(func_name: String) -> (r: Self)
        ensures
            r.name() == func_name,
            r.inv(),
            r.pressure() == Seq::new(NUM_REGS as nat, |i: int| 0u32),
            r.spills() == 0,
            r.stack().len() == 0,
    {
        let mut p: Vec<u32> = Vec::new();
        let mut i: usize = 0;
        while i < NUM_REGS
            invariant
                i <= NUM_REGS,
                p@ == Seq::new(i as nat, |j: int| 0u32),
            decreases NUM_REGS - i,
        {
            p.push(0);
            i = i + 1;
            proof {
                assert(p@ =~= Seq::new(i as nat, |j: int| 0u32));
            }
        }
        FrameLayoutCalculator {
            func_name,
            register_pressure: p,
            next_spill: 0,
            stack_slots: Vec::new(),
        }
    }

    /// The layout of a frame with `num_x_params` X register parameters and
    /// `num_y_slots` Y stack slots.  Each parameter register gains one unit
    /// of pressure and each Y slot a stack slot.
    #[verifier::loop_isolation(false)]
    pub fn compute_layout(&mut self, num_x_params: usize, num_y_slots: usize, needs_gc: bool) -> (r:
        FrameLayout)
        requires
            old(self).inv(),
            num_x_params <= NUM_REGS,
            forall|i: int| 0 <= i < num_x_params ==> #[trigger] old(self).pressure()[i] < u32::MAX,
            num_y_slots + old(self).spills() <= u32::MAX,
            num_x_params <= u32::MAX,
        ensures
            final(self).inv(),
            final(self).name() == old(self).name(),
            final(self).spills() == old(self).spills(),
            forall|i: int|
                0 <= i < NUM_REGS ==> #[trigger] final(self).pressure()[i] == if i < num_x_params {
                    old(self).pressure()[i] + 1
                } else {
                    old(self).pressure()[i] as int
                },
            final(self).stack() == old(self).stack() + Seq::new(
                num_y_slots as nat,
                |i: int| Slot::Stack(i as u32),
            ),
            r.frame_size == num_y_slots + old(self).spills(),
            r.spill_slots == old(self).spills(),
            r.register_slots@ == Seq::new(
                num_x_params as nat,
                |i: int| (Reg::X(i as u32), i as u32),
            ),
            r.spill_offsets@ == Seq::new(old(self).spills() as nat, |i: int| i as u32),
            r.saved_y_count == num_y_slots,
            r.needs_gc == needs_gc,
    {
        let mut i: usize = 0;
        while i < num_x_params
            invariant
                i <= num_x_params <= NUM_REGS,
                self.register_pressure@.len() == NUM_REGS,
                self.func_name == old(self).name(),
                self.next_spill == old(self).spills(),
                self.stack_slots@ == old(self).stack(),
                forall|j: int| 0 <= j < num_x_params ==> #[trigger] old(self).pressure()[j] < u32::MAX,
                forall|j: int|
                    0 <= j < NUM_REGS ==> #[trigger] self.register_pressure@[j] == if j < i {
                        old(self).pressure()[j] + 1
                    } else {
                        old(self).pressure()[j] as int
                    },
            decreases num_x_params - i,
        {
            let v = self.register_pressure[i];
            self.register_pressure.set(i, v + 1);
            i = i + 1;
        }
        let ghost before = self.stack_slots@;
        let ghost p1 = self.register_pressure@;
        let mut k: usize = 0;
        while k < num_y_slots
            invariant
                k <= num_y_slots <= u32::MAX,
                self.register_pressure@ == p1,
                self.next_spill == old(self).spills(),
                self.func_name == old(self).name(),
                self.stack_slots@ == before + Seq::new(k as nat, |j: int| Slot::Stack(j as u32)),
            decreases num_y_slots - k,
        {
            self.stack_slots.push(Slot::Stack(k as u32));
            k = k + 1;
            proof {
                assert(self.stack_slots@ =~= before + Seq::new(
                    k as nat,
                    |j: int| Slot::Stack(j as u32),
                ));
            }
        }
        let frame_size = num_y_slots as u32 + self.next_spill;
        let mut register_slots: Vec<(Reg, u32)> = Vec::new();
        let mut j: usize = 0;
        while j < num_x_params
            invariant
                j <= num_x_params <= u32::MAX,
                register_slots@ == Seq::new(j as nat, |m: int| (Reg::X(m as u32), m as u32)),
            decreases num_x_params - j,
        {
            register_slots.push((Reg::X(j as u32), j as u32));
            j = j + 1;
            proof {
                assert(register_slots@ =~= Seq::new(
                    j as nat,
                    |m: int| (Reg::X(m as u32), m as u32),
                ));
            }
        }
        let mut spill_offsets: Vec<u32> = Vec::new();
        let mut s: u32 = 0;
        while s < self.next_spill
            invariant
                s <= self.next_spill,
                spill_offsets@ == Seq::new(s as nat, |m: int| m as u32),
            decreases self.next_spill - s,
        {
            spill_offsets.push(s);
            s = s + 1;
            proof {
                assert(spill_offsets@ =~= Seq::new(s as nat, |m: int| m as u32));
            }
        }
        FrameLayout {
            frame_size,
            spill_slots: self.next_spill,
            register_slots,
            spill_offsets,
            saved_y_count: num_y_slots as u32,
            needs_gc,
        }
    }

    /// Allocate the next spill slot and return its index.
    pub fn allocate_spill(&mut self) -> (r: u32)
        requires
            old(self).spills() < u32::MAX,
        ensures
            r == old(self).spills(),
            final(self).spills() == old(self).spills() + 1,
            final(self).pressure() == old(self).pressure(),
            final(self).stack() == old(self).stack(),
            final(self).name() == old(self).name(),
            final(self).inv() == old(self).inv(),
    {
        let slot = self.next_spill;
        self.next_spill = self.next_spill + 1;
        slot
    }

    /// A slot for a value of the given type.  Small integers, floats and
    /// atoms go to the general-purpose X register (from X8 on) with the
    /// least pressure, the first such one on a tie; other values get a
    /// new stack slot numbered by the count of stack slots so far.
    pub fn get_or_alloc_slot(&mut self, value_type: &IRType) -> (r: Slot)
        requires
            old(self).inv(),
            forall|i: int| 0 <= i < NUM_REGS ==> #[trigger] old(self).pressure()[i] < u32::MAX,
            old(self).stack().len() < u32::MAX,
        ensures
            final(self).inv(),
            final(self).name() == old(self).name(),
            final(self).spills() == old(self).spills(),
            register_kind(value_type.kind) ==> {
                let m = first_min_index(old(self).pressure(), FIRST_FREE_REG as int, NUM_REGS as int);
                &&& r == Slot::Reg(Reg::X(m as u32))
                &&& final(self).pressure() == old(self).pressure().update(m, (old(self).pressure()[m] + 1) as u32)
                &&& final(self).stack() == old(self).stack()
            },
            !register_kind(value_type.kind) ==> {
                &&& r == Slot::Stack(old(self).stack().len() as u32)
                &&& final(self).stack() == old(self).stack().push(r)
                &&& final(self).pressure() == old(self).pressure()
            },
    {
        if matches!(value_type.kind, TypeKind::SmallInt | TypeKind::NonNegInt | TypeKind::Float | TypeKind::Atom) {
            let reg_idx = self.find_lowest_pressure_reg();
            let v = self.register_pressure[reg_idx];
            self.register_pressure.set(reg_idx, v + 1);
            return Slot::Reg(Reg::X(reg_idx as u32));
        }
        let offset = self.stack_slots.len() as u32;
        self.stack_slots.push(Slot::Stack(offset));
        Slot::Stack(offset)
    }

    /// The register from X8 to X255 with the lowest pressure, the first
    /// one on a tie.
    fn find_lowest_pressure_reg(&self) -> (r: usize)
        requires
            self.inv(),
        ensures
            r == first_min_index(self.pressure(), FIRST_FREE_REG as int, NUM_REGS as int),
            FIRST_FREE_REG <= r < NUM_REGS,
    {
        let mut best: usize = NUM_REGS - 1;
        let mut i: usize = NUM_REGS - 1;
        proof {
            assert(first_min_index(self.register_pressure@, (NUM_REGS - 1) as int, NUM_REGS as int) == NUM_REGS - 1);
        }
        while i > FIRST_FREE_REG
            invariant
                FIRST_FREE_REG <= i < NUM_REGS,
                self.register_pressure@.len() == NUM_REGS,
                best == first_min_index(self.register_pressure@, i as int, NUM_REGS as int),
                i <= best < NUM_REGS,
            decreases i,
        {
            i = i - 1;
            if self.register_pressure[i] <= self.register_pressure[best] {
                best = i;
            }
        }
        best
    }
}

/// The frame offset of a live slot: X registers first, then Y registers
/// from 256, then F registers from 512; stack and spill slots keep
/// their offset.
pub open spec fn slot_offset(s: Slot) -> int {
    match s {
        Slot::Reg(Reg::X(i)) => i as int,
        Slot::Reg(Reg::Y(i)) => 256 + i,
        Slot::Reg(Reg::F(i)) => 512 + i,
        Slot::Stack(o) => o as int,
        Slot::Spill(o) => o as int,
    }
}

/// The GC stack map of the live slots at a safepoint: each slot's
/// frame offset, marked as a pointer, in order.
pub fn compute_stack_map(layout: &FrameLayout, live_at_safepoint: &[Slot]) -> (r: Vec<(u32, bool)>)
    requires
        forall|k: int| 0 <= k < live_at_safepoint@.len() ==> #[trigger] slot_offset(live_at_safepoint@[k]) <= u32::MAX,
    ensures
        r@.len() == live_at_safepoint@.len(),
        forall|k: int| 0 <= k < r@.len() ==> #[trigger] r@[k] == (slot_offset(live_at_safepoint@[k]) as u32, true),
{
    let mut map: Vec<(u32, bool)> = Vec::new();
    let mut k: usize = 0;
    while k < live_at_safepoint.len()
        invariant
            k <= live_at_safepoint@.len(),
            map@.len() == k,
            forall|j: int| 0 <= j < live_at_safepoint@.len() ==> #[trigger] slot_offset(live_at_safepoint@[j]) <= u32::MAX,
            forall|j: int| 0 <= j < k ==> #[trigger] map@[j] == (slot_offset(live_at_safepoint@[j]) as u32, true),
        decreases live_at_safepoint@.len() - k,
    {
        let slot = live_at_safepoint[k];
        let ghost before = slot_offset(slot);
        assert(before <= u32::MAX);
        let offset: u32 = match slot {
            Slot::Reg(reg) => match reg {
                Reg::X(i) => i,
                Reg::Y(i) => 256 + i,
                Reg::F(i) => 512 + i,
            },
            Slot::Stack(o) => o,
            Slot::Spill(o) => o,
        };
        map.push((offset, true));
        k = k + 1;
    }
    map
}

/// The calling convention for BEAM functions: X0-X7 carry the first
/// arguments and the return value, X8-X255 are general purpose, Y
/// registers are callee-saved frame slots, F registers hold floats.
pub struct BeamCallingConvention;

impl BeamCallingConvention {
    /// Number of argument registers
    pub const ARG_REGS: usize = 8;

    /// The register of argument `i`.
    pub fn arg_reg(i: usize) -> (r: Reg)
        ensures
            r == Reg::X(i as u32),
    {
        Reg::X(i as u32)
    }

    /// The return value register.
    pub fn ret_reg() -> (r: Reg)
        ensures
            r == Reg::X(0),
    {
        Reg::X(0)
    }

    /// The stack frame alignment requirement, in words.
    pub fn stack_alignment() -> (r: usize)
        ensures
            r == 16,
    {
        16
    }
}

} // verus!
