//! SSA IR validation: checks the invariants that must hold after IR
//! construction and after every optimization pass.
//!
//! It reports, in order: an empty function; an entry block with
//! predecessors; each value defined more than once; each successor edge
//! whose target does not list the block as a predecessor; and, block by
//! block, each use of an undefined value, each use in a block that the
//! block of its definition does not dominate (some path from the entry
//! reaches the use without passing through the definition's block), and
//! a missing or repeated terminator.

use crate::function::{BasicBlock, IRFunction};
use crate::instruction::{IRInst, IRInstKind, Label, is_terminator, is_terminator_kind};
use crate::value::IRValueId;
use crate::BlockId;
use crate::function::{decimal, u64_decimal};
use vstd::prelude::*;

verus! {

broadcast use vstd::seq::group_seq_axioms, vstd::std_specs::vec::group_vec_axioms,
    vstd::seq_lib::group_seq_properties;

/// The errors of a failed validation, in the order found.
#[derive(Debug, Clone)]
pub struct ValidationErrors(pub Vec<ValidationError>);

/// A broken invariant of the IR.
#[derive(Debug, Clone, Copy, PartialEq, Eq, Structural)]
pub enum ValidationError {
    /// A value is defined more than once; `block` holds the later definition.
    RedefinedValue { value: IRValueId, block: BlockId },
    /// A value is used but never defined.
    UndefinedUse { value: IRValueId, block: BlockId, instr_index: usize },
    /// A use is not dominated by the value's definition.
    NotDominated { value: IRValueId, used_in: BlockId, defined_in: BlockId },
    /// A block has no terminator.
    MissingTerminator { block: BlockId },
    /// A block has more than one terminator.
    MultipleTerminators { block: BlockId },
    /// The entry block has predecessors.
    EntryHasPredecessors { block: BlockId },
    /// The function has no blocks.
    EmptyFunction,
    /// A successor edge has no matching predecessor entry.
    MissingPredecessor { block: BlockId, expected_pred: BlockId },
    /// A predecessor edge has no matching successor entry.
    MissingSuccessor { block: BlockId, expected_succ: BlockId },
}

// ── Definitions ───────────────────────────────────────────────────────────

/// The definitions of a block's instructions, with the block's ID.
pub open spec fn inst_defs(insts: Seq<IRInst>, b: int) -> Seq<(IRValueId, BlockId)>
    decreases insts.len(),
{
    if insts.len() == 0 {
        Seq::empty()
    } else {
        match insts.last().result {
            Some(r) => inst_defs(insts.drop_last(), b).push((r, BlockId(b as usize))),
            None => inst_defs(insts.drop_last(), b),
        }
    }
}

/// The definitions of the first `n` blocks, in order.
pub open spec fn defs_upto(blocks: Seq<BasicBlock>, n: int) -> Seq<(IRValueId, BlockId)>
    decreases n,
{
    if n <= 0 {
        Seq::empty()
    } else {
        defs_upto(blocks, n - 1) + inst_defs(blocks[n - 1].instructions@, n - 1)
    }
}

/// Whether a list of definitions defines `v`.
pub open spec fn defined(d: Seq<(IRValueId, BlockId)>, v: IRValueId) -> bool
    decreases d.len(),
{
    if d.len() == 0 {
        false
    } else {
        d.last().0 == v || defined(d.drop_last(), v)
    }
}

/// The block of the last definition of `v`.
pub open spec fn def_site(d: Seq<(IRValueId, BlockId)>, v: IRValueId) -> BlockId
    decreases d.len(),
{
    if d.len() == 0 {
        BlockId(0)
    } else if d.last().0 == v {
        d.last().1
    } else {
        def_site(d.drop_last(), v)
    }
}

/// A redefinition error for each definition of a value defined earlier.
pub open spec fn redefs(d: Seq<(IRValueId, BlockId)>) -> Seq<ValidationError>
    decreases d.len(),
{
    if d.len() == 0 {
        Seq::empty()
    } else if defined(d.drop_last(), d.last().0) {
        redefs(d.drop_last()).push(ValidationError::RedefinedValue { value: d.last().0, block: d.last().1 })
    } else {
        redefs(d.drop_last())
    }
}

/// Whether a list of definitions defines `v`, and the block of its last
/// definition.
fn find_def(d: &Vec<(IRValueId, BlockId)>, v: IRValueId) -> (r: Option<BlockId>)
    ensures
        r == if defined(d@, v) {
            Some(def_site(d@, v))
        } else {
            None
        },
{
    let mut i: usize = d.len();
    while i > 0
        invariant
            i <= d@.len(),
            defined(d@, v) == defined(d@.take(i as int), v),
            def_site(d@, v) == def_site(d@.take(i as int), v),
        decreases i,
    {
        proof {
            assert(d@.take(i as int).drop_last() == d@.take(i - 1));
            assert(d@.take(i as int).last() == d@[i - 1]);
        }
        if d[i - 1].0 == v {
            return Some(d[i - 1].1);
        }
        i = i - 1;
    }
    None
}

/// Collects the definitions of all blocks, reporting each redefinition.
fn collect_definitions(blocks: &Vec<BasicBlock>, errors: &mut Vec<ValidationError>) -> (d: Vec<(IRValueId, BlockId)>)
    ensures
        d@ == defs_upto(blocks@, blocks@.len() as int),
        final(errors)@ == old(errors)@ + redefs(d@),
{
    let mut d: Vec<(IRValueId, BlockId)> = Vec::new();
    let mut b: usize = 0;
    proof {
        assert(old(errors)@ + redefs(d@) =~= old(errors)@);
    }
    while b < blocks.len()
        invariant
            b <= blocks@.len(),
            d@ == defs_upto(blocks@, b as int),
            errors@ == old(errors)@ + redefs(d@),
        decreases blocks@.len() - b,
    {
        let insts = &blocks[b].instructions;
        let ghost base = d@;
        let mut k: usize = 0;
        while k < insts.len()
            invariant
                b < blocks@.len(),
                *insts == blocks@[b as int].instructions,
                k <= insts@.len(),
                d@ == base + inst_defs(insts@.take(k as int), b as int),
                errors@ == old(errors)@ + redefs(d@),
            decreases insts@.len() - k,
        {
            proof {
                assert(insts@.take(k + 1).drop_last() == insts@.take(k as int));
                assert(insts@.take(k + 1).last() == insts@[k as int]);
            }
            if let Some(r) = insts[k].result {
                let seen = find_def(&d, r);
                let ghost d0 = d@;
                d.push((r, BlockId(b)));
                proof {
                    assert(d@.drop_last() == d0);
                }
                if seen.is_some() {
                    errors.push(ValidationError::RedefinedValue { value: r, block: BlockId(b) });
                }
                proof {
                    assert(errors@ =~= old(errors)@ + redefs(d@));
                    assert(d@ =~= base + inst_defs(insts@.take(k + 1), b as int));
                }
            } else {
                proof {
                    assert(d@ =~= base + inst_defs(insts@.take(k + 1), b as int));
                }
            }
            k = k + 1;
        }
        proof {
            assert(insts@.take(insts@.len() as int) == insts@);
        }
        b = b + 1;
    }
    d
}

// ── Control flow graph symmetry ───────────────────────────────────────────

/// The missing-predecessor errors of the successor entries `succs` of
/// block `b`.
pub open spec fn sym_block(blocks: Seq<BasicBlock>, b: int, succs: Seq<Label>) -> Seq<ValidationError>
    decreases succs.len(),
{
    if succs.len() == 0 {
        Seq::empty()
    } else {
        let s = succs.last().0 as int;
        let rest = sym_block(blocks, b, succs.drop_last());
        if s < blocks.len() && !blocks[s].predecessors@.contains(Label(b as u32)) {
            rest.push(ValidationError::MissingPredecessor { block: BlockId(s as usize), expected_pred: BlockId(b as usize) })
        } else {
            rest
        }
    }
}

/// The missing-predecessor errors of the first `n` blocks.
pub open spec fn sym_upto(blocks: Seq<BasicBlock>, n: int) -> Seq<ValidationError>
    decreases n,
{
    if n <= 0 {
        Seq::empty()
    } else {
        sym_upto(blocks, n - 1) + sym_block(blocks, n - 1, blocks[n - 1].successors@)
    }
}

fn contains_label(v: &Vec<Label>, x: Label) -> (r: bool)
    ensures
        r == v@.contains(x),
{
    let mut i: usize = 0;
    while i < v.len()
        invariant
            i <= v@.len(),
            forall|j: int| 0 <= j < i ==> v@[j] != x,
        decreases v@.len() - i,
    {
        if v[i] == x {
            return true;
        }
        i = i + 1;
    }
    false
}

fn check_cfg_symmetry(blocks: &Vec<BasicBlock>, errors: &mut Vec<ValidationError>)
    ensures
        final(errors)@ == old(errors)@ + sym_upto(blocks@, blocks@.len() as int),
{
    let mut b: usize = 0;
    proof {
        assert(old(errors)@ + sym_upto(blocks@, 0) =~= old(errors)@);
    }
    while b < blocks.len()
        invariant
            b <= blocks@.len(),
            errors@ == old(errors)@ + sym_upto(blocks@, b as int),
        decreases blocks@.len() - b,
    {
        let succs = &blocks[b].successors;
        let ghost base = errors@;
        let mut k: usize = 0;
        proof {
            assert(base + sym_block(blocks@, b as int, succs@.take(0)) =~= base);
        }
        while k < succs.len()
            invariant
                b < blocks@.len(),
                *succs == blocks@[b as int].successors,
                k <= succs@.len(),
                errors@ == base + sym_block(blocks@, b as int, succs@.take(k as int)),
            decreases succs@.len() - k,
        {
            proof {
                assert(succs@.take(k + 1).drop_last() == succs@.take(k as int));
                assert(succs@.take(k + 1).last() == succs@[k as int]);
            }
            let s = succs[k].0 as usize;
            if s < blocks.len() {
                if !contains_label(&blocks[s].predecessors, Label(b as u32)) {
                    errors.push(ValidationError::MissingPredecessor { block: BlockId(s), expected_pred: BlockId(b) });
                }
            }
            proof {
                assert(errors@ =~= base + sym_block(blocks@, b as int, succs@.take(k + 1)));
            }
            k = k + 1;
        }
        proof {
            assert(succs@.take(succs@.len() as int) == succs@);
            assert(errors@ =~= old(errors)@ + sym_upto(blocks@, b + 1));
        }
        b = b + 1;
    }
}

// ── Dominance ─────────────────────────────────────────────────────────────

/// The block that successor `k` of block `i` names.
pub open spec fn edge_target(bl: Seq<BasicBlock>, i: int, k: int) -> int {
    bl[i].successors@[k].0 as int
}

/// Whether the marks `c` hold the entry and, with every marked block other
/// than `cut`, each of its successors that names a block of the function.
pub open spec fn closed_in(bl: Seq<BasicBlock>, entry: int, cut: int, c: Seq<bool>) -> bool {
    &&& c.len() == bl.len()
    &&& c[entry]
    &&& forall|i: int, k: int|
        0 <= i < bl.len() && i != cut && c[i] && 0 <= k < bl[i].successors@.len() && edge_target(bl, i, k) < bl.len()
            ==> c[#[trigger] edge_target(bl, i, k)]
}

/// Whether block `u` is reachable from the entry along edges that do not
/// leave block `cut`.
pub open spec fn reach_in(bl: Seq<BasicBlock>, entry: int, cut: int, u: int) -> bool {
    forall|c: Seq<bool>| #[trigger] closed_in(bl, entry, cut, c) ==> c[u]
}

/// Whether block `d` dominates block `u`: they are the same block, or
/// every path from the entry to `u` passes through `d`.
pub open spec fn dominates(bl: Seq<BasicBlock>, entry: int, d: int, u: int) -> bool {
    d == u || !reach_in(bl, entry, d, u)
}

/// The number of unset marks.
pub open spec fn unmarked(s: Seq<bool>) -> nat
    decreases s.len(),
{
    if s.len() == 0 {
        0
    } else {
        unmarked(s.drop_last()) + if s.last() { 0nat } else { 1nat }
    }
}

proof fn lemma_unmarked_set(s: Seq<bool>, i: int)
    requires
        0 <= i < s.len(),
        !s[i],
    ensures
        unmarked(s.update(i, true)) + 1 == unmarked(s),
    decreases s.len(),
{
    if i == s.len() - 1 {
        assert(s.update(i, true).drop_last() =~= s.drop_last());
    } else {
        lemma_unmarked_set(s.drop_last(), i);
        assert(s.update(i, true).drop_last() =~= s.drop_last().update(i, true));
    }
}

/// The marks of the blocks reachable from the entry along edges that do
/// not leave block `cut`; successors naming no block are ignored.
fn reach_avoiding(blocks: &Vec<BasicBlock>, entry: usize, cut: usize) -> (r: Vec<bool>)
    requires
        entry < blocks@.len(),
    ensures
        r@.len() == blocks@.len(),
        forall|i: int| 0 <= i < r@.len() ==> #[trigger] r@[i] == reach_in(blocks@, entry as int, cut as int, i),
{
    let n = blocks.len();
    let ghost bl = blocks@;
    let ghost e = entry as int;
    let ghost ct = cut as int;
    let mut reachable: Vec<bool> = Vec::new();
    let mut z: usize = 0;
    while z < n
        invariant
            z <= n,
            reachable@ == Seq::new(z as nat, |j: int| false),
        decreases n - z,
    {
        reachable.push(false);
        z = z + 1;
        proof {
            assert(reachable@ =~= Seq::new(z as nat, |j: int| false));
        }
    }
    let mut worklist: Vec<usize> = Vec::new();
    worklist.push(entry);
    proof {
        assert forall|c: Seq<bool>| #[trigger] closed_in(bl, e, ct, c) implies (forall|i: int|
            0 <= i < n && reachable@[i] ==> c[i]) && (forall|j: int|
            0 <= j < worklist@.len() ==> c[worklist@[j] as int]) by {
            assert(worklist@[0] == entry);
        }
        assert(worklist@[0] == entry);
    }
    while worklist.len() > 0
        invariant
            bl == blocks@,
            e == entry as int,
            ct == cut as int,
            n == bl.len(),
            entry < n,
            reachable@.len() == n,
            forall|j: int| 0 <= j < worklist@.len() ==> #[trigger] worklist@[j] < n,
            forall|c: Seq<bool>| #[trigger]
                closed_in(bl, e, ct, c) ==> (forall|i: int|
                    0 <= i < n && reachable@[i] ==> c[i]) && (forall|j: int|
                    0 <= j < worklist@.len() ==> c[worklist@[j] as int]),
            reachable@[e] || worklist@.contains(entry),
            forall|i: int, k: int|
                0 <= i < n && i != ct && reachable@[i] && 0 <= k < bl[i].successors@.len() && edge_target(bl, i, k) < n
                    ==> reachable@[#[trigger] edge_target(bl, i, k)] || worklist@.contains(
                    edge_target(bl, i, k) as usize,
                ),
        decreases unmarked(reachable@), worklist@.len(),
    {
        let ghost wl_before = worklist@;
        let b = worklist.pop().unwrap();
        proof {
            assert(wl_before == worklist@.push(b));
            assert(b < n) by {
                assert(wl_before[wl_before.len() - 1] == b);
            }
            assert forall|c: Seq<bool>| #[trigger] closed_in(bl, e, ct, c) implies c[b as int] by {
                assert(wl_before[wl_before.len() - 1] == b);
            }
        }
        if reachable[b] {
            proof {
                assert forall|i: int, k: int|
                    0 <= i < n && i != ct && reachable@[i] && 0 <= k < bl[i].successors@.len() && edge_target(bl, i, k) < n
                        implies reachable@[#[trigger] edge_target(bl, i, k)] || worklist@.contains(
                        edge_target(bl, i, k) as usize,
                    ) by {
                    let t = edge_target(bl, i, k) as usize;
                    assert(wl_before.contains(t) ==> (t == b || worklist@.contains(t)));
                }
                assert(wl_before.contains(entry) ==> (entry == b || worklist@.contains(entry)));
            }
            continue;
        }
        let ghost r_before = reachable@;
        reachable.set(b, true);
        proof {
            lemma_unmarked_set(r_before, b as int);
            assert forall|i: int, k: int|
                0 <= i < n && i != ct && reachable@[i] && i != b && 0 <= k < bl[i].successors@.len() && edge_target(bl, i, k) < n
                    implies reachable@[#[trigger] edge_target(bl, i, k)] || worklist@.contains(
                    edge_target(bl, i, k) as usize,
                ) by {
                let t = edge_target(bl, i, k) as usize;
                assert(r_before[i]);
                assert(wl_before.contains(t) ==> (t == b || worklist@.contains(t)));
                if t == b {
                    assert(edge_target(bl, i, k) == b);
                }
            }
            assert(wl_before.contains(entry) ==> (entry == b || worklist@.contains(entry)));
        }
        if b != cut {
            let succs = &blocks[b].successors;
            let mut k: usize = 0;
            while k < succs.len()
                invariant
                    bl == blocks@,
                    e == entry as int,
                    ct == cut as int,
                    n == bl.len(),
                    entry < n,
                    b < n,
                    b != cut,
                    succs@ == bl[b as int].successors@,
                    reachable@.len() == n,
                    reachable@[b as int],
                    unmarked(reachable@) < unmarked(r_before),
                    k <= succs@.len(),
                    forall|j: int| 0 <= j < worklist@.len() ==> #[trigger] worklist@[j] < n,
                    forall|c: Seq<bool>| #[trigger]
                        closed_in(bl, e, ct, c) ==> (forall|i: int|
                            0 <= i < n && reachable@[i] ==> c[i]) && (forall|j: int|
                            0 <= j < worklist@.len() ==> c[worklist@[j] as int]),
                    reachable@[e] || worklist@.contains(entry),
                    forall|i: int, kk: int|
                        0 <= i < n && i != ct && reachable@[i] && 0 <= kk < bl[i].successors@.len() && edge_target(bl, i, kk) < n
                            && (i != b || kk < k) ==> reachable@[#[trigger] edge_target(bl, i, kk)]
                            || worklist@.contains(edge_target(bl, i, kk) as usize),
                decreases succs@.len() - k,
            {
                let s = succs[k];
                proof {
                    assert(edge_target(bl, b as int, k as int) == s.0);
                }
                if (s.0 as usize) < n && !reachable[s.0 as usize] {
                    let ghost wl = worklist@;
                    worklist.push(s.0 as usize);
                    proof {
                        assert forall|c: Seq<bool>| #[trigger] closed_in(bl, e, ct, c) implies (forall|
                            j: int,
                        | 0 <= j < worklist@.len() ==> c[worklist@[j] as int]) by {
                            assert(c[edge_target(bl, b as int, k as int)]);
                            assert forall|j: int| 0 <= j < worklist@.len() implies c[worklist@[j] as int] by {
                                if j < wl.len() {
                                    assert(worklist@[j] == wl[j]);
                                }
                            }
                        }
                        assert forall|x: usize| wl.contains(x) implies worklist@.contains(x) by {
                            assert(worklist@ == wl.push(s.0 as usize));
                        }
                        assert(worklist@.contains(s.0 as usize)) by {
                            assert(worklist@[wl.len() as int] == s.0 as usize);
                        }
                    }
                }
                k = k + 1;
            }
        }
    }
    proof {
        assert(closed_in(bl, e, ct, reachable@));
        assert forall|i: int| 0 <= i < reachable@.len() implies #[trigger] reachable@[i] == reach_in(bl, e, ct, i) by {
            if reachable@[i] {
                assert forall|c: Seq<bool>| #[trigger] closed_in(bl, e, ct, c) implies c[i] by {}
            }
            if reach_in(bl, e, ct, i) {
                assert(closed_in(bl, e, ct, reachable@));
            }
        }
    }
    reachable
}

// ── Uses and terminators ──────────────────────────────────────────────────

/// The error of a use of `v` in instruction `i` of block `b`: undefined,
/// or defined last in a block that does not dominate `b`.
pub open spec fn use_error(
    bl: Seq<BasicBlock>,
    entry: int,
    d: Seq<(IRValueId, BlockId)>,
    v: IRValueId,
    b: int,
    i: int,
) -> Seq<ValidationError> {
    if !defined(d, v) {
        seq![ValidationError::UndefinedUse { value: v, block: BlockId(b as usize), instr_index: i as usize }]
    } else if !dominates(bl, entry, def_site(d, v).0 as int, b) {
        seq![ValidationError::NotDominated { value: v, used_in: BlockId(b as usize), defined_in: def_site(d, v) }]
    } else {
        Seq::empty()
    }
}

/// The use errors of a list of operands.
pub open spec fn ops_errors(
    bl: Seq<BasicBlock>,
    entry: int,
    d: Seq<(IRValueId, BlockId)>,
    ops: Seq<IRValueId>,
    b: int,
    i: int,
) -> Seq<ValidationError>
    decreases ops.len(),
{
    if ops.len() == 0 {
        Seq::empty()
    } else {
        ops_errors(bl, entry, d, ops.drop_last(), b, i) + use_error(bl, entry, d, ops.last(), b, i)
    }
}

/// The use errors of the instructions of block `b`.
pub open spec fn insts_errors(
    bl: Seq<BasicBlock>,
    entry: int,
    d: Seq<(IRValueId, BlockId)>,
    insts: Seq<IRInst>,
    b: int,
) -> Seq<ValidationError>
    decreases insts.len(),
{
    if insts.len() == 0 {
        Seq::empty()
    } else {
        insts_errors(bl, entry, d, insts.drop_last(), b) + ops_errors(bl, entry, d, insts.last().operands@, b, insts.len() - 1)
    }
}

/// The number of terminators among the instructions.
pub open spec fn count_terminators(insts: Seq<IRInst>) -> nat
    decreases insts.len(),
{
    if insts.len() == 0 {
        0
    } else {
        count_terminators(insts.drop_last()) + if is_terminator_kind(insts.last().kind) { 1nat } else { 0nat }
    }
}

/// The terminator error of block `b`, if it has none or several.
pub open spec fn term_error(insts: Seq<IRInst>, b: int) -> Seq<ValidationError> {
    if count_terminators(insts) == 0 {
        seq![ValidationError::MissingTerminator { block: BlockId(b as usize) }]
    } else if count_terminators(insts) == 1 {
        Seq::empty()
    } else {
        seq![ValidationError::MultipleTerminators { block: BlockId(b as usize) }]
    }
}

/// The use and terminator errors of the first `n` blocks.
pub open spec fn blocks_errors(
    entry: int,
    d: Seq<(IRValueId, BlockId)>,
    blocks: Seq<BasicBlock>,
    n: int,
) -> Seq<ValidationError>
    decreases n,
{
    if n <= 0 {
        Seq::empty()
    } else {
        blocks_errors(entry, d, blocks, n - 1) + insts_errors(blocks, entry, d, blocks[n - 1].instructions@, n - 1)
            + term_error(blocks[n - 1].instructions@, n - 1)
    }
}

fn check_blocks(blocks: &Vec<BasicBlock>, entry: usize, d: &Vec<(IRValueId, BlockId)>, errors: &mut Vec<ValidationError>)
    requires
        entry < blocks@.len(),
    ensures
        final(errors)@ == old(errors)@ + blocks_errors(entry as int, d@, blocks@, blocks@.len() as int),
{
    let ghost e = entry as int;
    let mut b: usize = 0;
    proof {
        assert(old(errors)@ + blocks_errors(e, d@, blocks@, 0) =~= old(errors)@);
    }
    while b < blocks.len()
        invariant
            b <= blocks@.len(),
            entry < blocks@.len(),
            e == entry as int,
            errors@ == old(errors)@ + blocks_errors(e, d@, blocks@, b as int),
        decreases blocks@.len() - b,
    {
        let insts = &blocks[b].instructions;
        let ghost base = errors@;
        let mut i: usize = 0;
        let mut terms: usize = 0;
        proof {
            assert(base + insts_errors(blocks@, e, d@, insts@.take(0), b as int) =~= base);
        }
        while i < insts.len()
            invariant
                b < blocks@.len(),
                entry < blocks@.len(),
                e == entry as int,
                *insts == blocks@[b as int].instructions,
                i <= insts@.len(),
                terms == count_terminators(insts@.take(i as int)),
                terms <= i,
                errors@ == base + insts_errors(blocks@, e, d@, insts@.take(i as int), b as int),
            decreases insts@.len() - i,
        {
            proof {
                assert(insts@.take(i + 1).drop_last() == insts@.take(i as int));
                assert(insts@.take(i + 1).last() == insts@[i as int]);
            }
            let ops = &insts[i].operands;
            let ghost base2 = errors@;
            let mut k: usize = 0;
            proof {
                assert(base2 + ops_errors(blocks@, e, d@, ops@.take(0), b as int, i as int) =~= base2);
            }
            while k < ops.len()
                invariant
                    k <= ops@.len(),
                    b < blocks@.len(),
                    entry < blocks@.len(),
                    e == entry as int,
                    errors@ == base2 + ops_errors(blocks@, e, d@, ops@.take(k as int), b as int, i as int),
                decreases ops@.len() - k,
            {
                proof {
                    assert(ops@.take(k + 1).drop_last() == ops@.take(k as int));
                    assert(ops@.take(k + 1).last() == ops@[k as int]);
                }
                let v = ops[k];
                match find_def(d, v) {
                    None => {
                        errors.push(ValidationError::UndefinedUse { value: v, block: BlockId(b), instr_index: i });
                    },
                    Some(site) => {
                        if site != BlockId(b) {
                            let r = reach_avoiding(blocks, entry, site.0);
                            if r[b] {
                                errors.push(ValidationError::NotDominated { value: v, used_in: BlockId(b), defined_in: site });
                            }
                        }
                    },
                }
                proof {
                    assert(errors@ =~= base2 + ops_errors(blocks@, e, d@, ops@.take(k + 1), b as int, i as int));
                }
                k = k + 1;
            }
            proof {
                assert(ops@.take(ops@.len() as int) == ops@);
                assert(errors@ =~= base + insts_errors(blocks@, e, d@, insts@.take(i + 1), b as int));
            }
            if is_terminator(&insts[i].kind) {
                terms = terms + 1;
            }
            i = i + 1;
        }
        proof {
            assert(insts@.take(insts@.len() as int) == insts@);
        }
        if terms == 0 {
            errors.push(ValidationError::MissingTerminator { block: BlockId(b) });
        } else if terms > 1 {
            errors.push(ValidationError::MultipleTerminators { block: BlockId(b) });
        }
        proof {
            assert(errors@ =~= old(errors)@ + blocks_errors(e, d@, blocks@, b + 1));
        }
        b = b + 1;
    }
}

// ── Validation ────────────────────────────────────────────────────────────

/// All the errors of a function, in the order they are reported.
pub open spec fn validation_errors(func: IRFunction) -> Seq<ValidationError> {
    let blocks = func.blocks@;
    if blocks.len() == 0 {
        seq![ValidationError::EmptyFunction]
    } else {
        let entry = if blocks[func.entry_block.0 as int].predecessors@.len() > 0 {
            seq![ValidationError::EntryHasPredecessors { block: func.entry_block }]
        } else {
            Seq::empty()
        };
        let d = defs_upto(blocks, blocks.len() as int);
        entry + redefs(d) + sym_upto(blocks, blocks.len() as int) + blocks_errors(
            func.entry_block.0 as int,
            d,
            blocks,
            blocks.len() as int,
        )
    }
}

/// Validates a function: `Ok` exactly when it has no error, and otherwise
/// all its errors in the order they are found.
pub fn validate(func: &IRFunction) -> (r: Result<(), ValidationErrors>)
    requires
        func.blocks@.len() > 0 ==> func.entry_block.0 < func.blocks@.len(),
    ensures
        r is Ok <==> validation_errors(*func).len() == 0,
        r matches Err(e) ==> e.0@ == validation_errors(*func),
{
    let mut errors: Vec<ValidationError> = Vec::new();
    if func.blocks.len() == 0 {
        errors.push(ValidationError::EmptyFunction);
        proof {
            assert(errors@ =~= validation_errors(*func));
        }
        return Err(ValidationErrors(errors));
    }
    let entry = func.entry_block;
    if func.blocks[entry.0].predecessors.len() > 0 {
        errors.push(ValidationError::EntryHasPredecessors { block: entry });
    }
    let ghost e0 = errors@;
    let d = collect_definitions(&func.blocks, &mut errors);
    check_cfg_symmetry(&func.blocks, &mut errors);
    check_blocks(&func.blocks, entry.0, &d, &mut errors);
    proof {
        assert(errors@ =~= validation_errors(*func));
    }
    if errors.len() == 0 {
        Ok(())
    } else {
        Err(ValidationErrors(errors))
    }
}


// ── Messages ──────────────────────────────────────────────────────────────

/// The debug text of a value ID: `IRValueId(5)`.
pub open spec fn value_text(v: IRValueId) -> Seq<char> {
    "IRValueId("@ + decimal(v.0 as nat) + ")"@
}

/// The debug text of a block ID: `BlockId(3)`.
pub open spec fn block_text(b: BlockId) -> Seq<char> {
    "BlockId("@ + decimal(b.0 as nat) + ")"@
}

/// The message of a validation error, tagged with the kind of invariant
/// it breaks: `SSA`, `DOM`, `TERM`, `ENTRY`, `FUNC` or `CFG`.
pub open spec fn error_text(e: ValidationError) -> Seq<char> {
    match e {
        ValidationError::RedefinedValue { value, block } => "SSA: value "@ + value_text(value)
            + " defined more than once (block "@ + block_text(block) + ")"@,
        ValidationError::UndefinedUse { value, block, instr_index } => "SSA: use of undefined value "@
            + value_text(value) + " in block "@ + block_text(block) + " instr "@ + decimal(
            instr_index as nat,
        ),
        ValidationError::NotDominated { value, used_in, defined_in } => "DOM: value "@ + value_text(
            value,
        ) + " defined in "@ + block_text(defined_in) + " does not dominate use in "@ + block_text(
            used_in,
        ),
        ValidationError::MissingTerminator { block } => "TERM: block "@ + block_text(block)
            + " has no terminator"@,
        ValidationError::MultipleTerminators { block } => "TERM: block "@ + block_text(block)
            + " has more than one terminator"@,
        ValidationError::EntryHasPredecessors { block } => "ENTRY: entry block "@ + block_text(block)
            + " must have no predecessors"@,
        ValidationError::EmptyFunction => "FUNC: function has no blocks"@,
        ValidationError::MissingPredecessor { block, expected_pred } => "CFG: block "@ + block_text(
            block,
        ) + " missing expected predecessor "@ + block_text(expected_pred),
        ValidationError::MissingSuccessor { block, expected_succ } => "CFG: block "@ + block_text(
            block,
        ) + " missing expected successor "@ + block_text(expected_succ),
    }
}

/// The text of a list of errors: a line `  [i] message` for each.
pub open spec fn errors_text(s: Seq<ValidationError>) -> Seq<char>
    decreases s.len(),
{
    if s.len() == 0 {
        Seq::empty()
    } else {
        errors_text(s.drop_last()) + "  ["@ + decimal((s.len() - 1) as nat) + "] "@ + error_text(
            s.last(),
        ) + "\n"@
    }
}

fn append_value(out: &mut String, v: IRValueId)
    ensures
        final(out)@ == old(out)@ + value_text(v),
{
    out.append("IRValueId(");
    let d = u64_decimal(v.0 as u64);
    out.append(d.as_str());
    out.append(")");
}

fn append_block(out: &mut String, b: BlockId)
    ensures
        final(out)@ == old(out)@ + block_text(b),
{
    out.append("BlockId(");
    let d = u64_decimal(b.0 as u64);
    out.append(d.as_str());
    out.append(")");
}

impl ValidationError {
    /// The message of this error (see `error_text`).
    pub fn display(&self) -> (r: String)
        ensures
            r@ == error_text(*self),
    {
        let mut s = String::new();
        let ghost e = Seq::<char>::empty();
        match *self {
            ValidationError::RedefinedValue { value, block } => {
                s.append("SSA: value ");
                append_value(&mut s, value);
                s.append(" defined more than once (block ");
                append_block(&mut s, block);
                s.append(")");
            },
            ValidationError::UndefinedUse { value, block, instr_index } => {
                s.append("SSA: use of undefined value ");
                append_value(&mut s, value);
                s.append(" in block ");
                append_block(&mut s, block);
                s.append(" instr ");
                let d = u64_decimal(instr_index as u64);
                s.append(d.as_str());
            },
            ValidationError::NotDominated { value, used_in, defined_in } => {
                s.append("DOM: value ");
                append_value(&mut s, value);
                s.append(" defined in ");
                append_block(&mut s, defined_in);
                s.append(" does not dominate use in ");
                append_block(&mut s, used_in);
            },
            ValidationError::MissingTerminator { block } => {
                s.append("TERM: block ");
                append_block(&mut s, block);
                s.append(" has no terminator");
            },
            ValidationError::MultipleTerminators { block } => {
                s.append("TERM: block ");
                append_block(&mut s, block);
                s.append(" has more than one terminator");
            },
            ValidationError::EntryHasPredecessors { block } => {
                s.append("ENTRY: entry block ");
                append_block(&mut s, block);
                s.append(" must have no predecessors");
            },
            ValidationError::EmptyFunction => {
                s.append("FUNC: function has no blocks");
            },
            ValidationError::MissingPredecessor { block, expected_pred } => {
                s.append("CFG: block ");
                append_block(&mut s, block);
                s.append(" missing expected predecessor ");
                append_block(&mut s, expected_pred);
            },
            ValidationError::MissingSuccessor { block, expected_succ } => {
                s.append("CFG: block ");
                append_block(&mut s, block);
                s.append(" missing expected successor ");
                append_block(&mut s, expected_succ);
            },
        }
        proof {
            assert(s@ =~= e + error_text(*self));
        }
        s
    }
}

impl ValidationErrors {
    /// The text of the errors: a line `  [i] message` for each, numbered
    /// from zero.
    pub fn display(&self) -> (r: String)
        ensures
            r@ == errors_text(self.0@),
    {
        let mut s = String::new();
        let mut i: usize = 0;
        proof {
            assert(self.0@.take(0) =~= Seq::<ValidationError>::empty());
        }
        while i < self.0.len()
            invariant
                i <= self.0@.len(),
                s@ == errors_text(self.0@.take(i as int)),
            decreases self.0.len() - i,
        {
            proof {
                assert(self.0@.take(i + 1).drop_last() =~= self.0@.take(i as int));
            }
            s.append("  [");
            let d = u64_decimal(i as u64);
            s.append(d.as_str());
            s.append("] ");
            let m = self.0[i].display();
            s.append(m.as_str());
            s.append("\n");
            i = i + 1;
        }
        proof {
            assert(self.0@.take(self.0@.len() as int) =~= self.0@);
        }
        s
    }
}

} // verus!
