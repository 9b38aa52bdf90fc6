//! Profiling and tracing tools for the type system: counting and timing
//! the lattice operations, recording how a type changes through the
//! passes, measuring the complexity of a type, and benchmarking.
//!
//! Spans of time are counted in nanoseconds, up to the longest span a
//! `std::time::Duration` holds.

use crate::type_display::{display_spec, display_type};
use crate::type_normalize::normalize_spec;
use crate::type_system::{
    IRType, KindV, TypeKind, contains_spec, copy_type, known_dims, lemma_tys_view, tys_view,
    type_eq,
};
use crate::function::{decimal, u64_decimal};
use std::time::{Duration, Instant};
use vstd::prelude::*;

verus! {

broadcast use vstd::seq::group_seq_axioms, vstd::std_specs::vec::group_vec_axioms;

/// The longest span of time, in nanoseconds: `u64::MAX` seconds and
/// 999 999 999 nanoseconds.
pub const MAX_SPAN_NANOS: u128 = 18_446_744_073_709_551_615_999_999_999u128;

// ── Order statistics ──────────────────────────────────────────────────────

/// Inserts `x` into a sorted list, after every element not above it.
pub open spec fn insert_sorted(s: Seq<u128>, x: u128) -> Seq<u128>
    decreases s.len(),
{
    if s.len() == 0 {
        seq![x]
    } else if x < s.last() {
        insert_sorted(s.drop_last(), x).push(s.last())
    } else {
        s.push(x)
    }
}

/// The samples in ascending order.
pub open spec fn sorted_samples(s: Seq<u128>) -> Seq<u128>
    decreases s.len(),
{
    if s.len() == 0 {
        Seq::empty()
    } else {
        insert_sorted(sorted_samples(s.drop_last()), s.last())
    }
}

/// Whether a list is in ascending order.
pub open spec fn ascending(s: Seq<u128>) -> bool {
    forall|i: int, j: int| 0 <= i <= j < s.len() ==> s[i] <= s[j]
}

/// The element at rank `floor(len * percent / 100)` of the sorted
/// samples (the last one when that is past the end), or zero when there
/// are none.
pub open spec fn percentile_spec(s: Seq<u128>, percent: nat) -> u128 {
    if s.len() == 0 {
        0
    } else {
        let idx = s.len() * percent / 100;
        let i = if idx < s.len() { idx } else { (s.len() - 1) as nat };
        sorted_samples(s)[i as int]
    }
}

proof fn lemma_insert_sorted(s: Seq<u128>, x: u128, j: int)
    requires
        0 <= j <= s.len(),
        forall|k: int| j <= k < s.len() ==> x < #[trigger] s[k],
        j > 0 ==> !(x < s[j - 1]),
    ensures
        insert_sorted(s, x) == s.insert(j, x),
    decreases s.len(),
{
    if s.len() == j {
        assert(s.insert(j, x) =~= s.push(x));
    } else {
        assert(x < s[s.len() - 1]);
        lemma_insert_sorted(s.drop_last(), x, j);
        assert(s.drop_last().insert(j, x).push(s.last()) =~= s.insert(j, x));
    }
}

/// The sorted samples are in ascending order and as many as the samples.
pub proof fn lemma_sorted_samples(s: Seq<u128>)
    ensures
        ascending(sorted_samples(s)),
        sorted_samples(s).len() == s.len(),
    decreases s.len(),
{
    if s.len() > 0 {
        let p = sorted_samples(s.drop_last());
        lemma_sorted_samples(s.drop_last());
        let x = s.last();
        let j = choose_insert_point(p, x);
        lemma_insert_sorted(p, x, j);
        let r = p.insert(j, x);
        assert forall|a: int, b: int| 0 <= a <= b < r.len() implies r[a] <= r[b] by {
            if a < j && b < j {
            } else if a < j && b == j {
                assert(p[a] <= p[j - 1]);
            } else if a < j {
                assert(r[b] == p[b - 1]);
            } else if a == j && b == j {
            } else if a == j {
                assert(r[b] == p[b - 1]);
            } else {
                assert(r[a] == p[a - 1]);
                assert(r[b] == p[b - 1]);
            }
        }
    }
}

/// The place where `x` goes in an ascending list: after the last element
/// not above it.
proof fn choose_insert_point(p: Seq<u128>, x: u128) -> (j: int)
    requires
        ascending(p),
    ensures
        0 <= j <= p.len(),
        forall|k: int| j <= k < p.len() ==> x < #[trigger] p[k],
        j > 0 ==> !(x < p[j - 1]),
        forall|k: int| 0 <= k < j ==> #[trigger] p[k] <= x,
    decreases p.len(),
{
    if p.len() == 0 {
        0
    } else if x < p.last() {
        let j = choose_insert_point(p.drop_last(), x);
        assert forall|k: int| j <= k < p.len() implies x < #[trigger] p[k] by {
            if k < p.len() - 1 {
                assert(p[k] == p.drop_last()[k]);
            }
        }
        assert forall|k: int| 0 <= k < j implies #[trigger] p[k] <= x by {
            assert(p[k] == p.drop_last()[k]);
        }
        j
    } else {
        p.len() as int
    }
}

/// The samples sorted in ascending order.
fn sort_samples(samples: &Vec<u128>) -> (r: Vec<u128>)
    ensures
        r@ == sorted_samples(samples@),
{
    let mut sorted: Vec<u128> = Vec::new();
    let mut i: usize = 0;
    while i < samples.len()
        invariant
            i <= samples@.len(),
            sorted@ == sorted_samples(samples@.take(i as int)),
        decreases samples.len() - i,
    {
        proof {
            assert(samples@.take(i + 1).drop_last() =~= samples@.take(i as int));
        }
        let x = samples[i];
        let mut j: usize = sorted.len();
        while j > 0 && x < sorted[j - 1]
            invariant
                j <= sorted@.len(),
                forall|k: int| j <= k < sorted@.len() ==> x < #[trigger] sorted@[k],
            decreases j,
        {
            j = j - 1;
        }
        proof {
            lemma_insert_sorted(sorted@, x, j as int);
        }
        sorted.insert(j, x);
        i = i + 1;
    }
    proof {
        assert(samples@.take(samples@.len() as int) =~= samples@);
    }
    sorted
}

/// The sample at the given percentile (see `percentile_spec`).
fn percentile(samples: &Vec<u128>, percent: u64) -> (r: u128)
    requires
        percent <= 100,
    ensures
        r == percentile_spec(samples@, percent as nat),
{
    if samples.len() == 0 {
        return 0;
    }
    let sorted = sort_samples(samples);
    proof {
        lemma_sorted_samples(samples@);
    }
    let n = samples.len() as u128;
    assert(n * (percent as u128) <= 0xFFFF_FFFF_FFFF_FFFF * 100) by (nonlinear_arith)
        requires
            n <= 0xFFFF_FFFF_FFFF_FFFF,
            percent <= 100,
    ;
    let idx128 = n * (percent as u128) / 100;
    let idx: usize = if idx128 < n {
        idx128 as usize
    } else {
        samples.len() - 1
    };
    sorted[idx]
}


// ── The profiler ──────────────────────────────────────────────────────────

/// Counts and times of the type operations, with the first samples of
/// each timed lattice operation kept for percentiles.  Times are in
/// nanoseconds.
#[derive(Debug, Clone)]
pub struct TypeProfiler {
    /// Number of join operations performed
    pub join_count: u64,
    /// Number of meet operations performed
    pub meet_count: u64,
    /// Number of contains operations performed
    pub contains_count: u64,
    /// Number of normalize operations performed
    pub normalize_count: u64,
    /// Total time spent in join operations
    pub join_time: u128,
    /// Total time spent in meet operations
    pub meet_time: u128,
    /// Total time spent in contains operations
    pub contains_time: u128,
    /// Total time spent in normalize operations
    pub normalize_time: u128,
    /// The first join samples, for percentiles
    pub join_samples: Vec<u128>,
    /// The first meet samples
    pub meet_samples: Vec<u128>,
    /// The first contains samples
    pub contains_samples: Vec<u128>,
    /// How many samples of each operation are kept at most
    pub max_samples: usize,
}

impl TypeProfiler {
    /// Whether every count, time and sample is zero or empty.
    pub open spec fn is_cleared(&self) -> bool {
        &&& self.join_count == 0
        &&& self.meet_count == 0
        &&& self.contains_count == 0
        &&& self.normalize_count == 0
        &&& self.join_time == 0
        &&& self.meet_time == 0
        &&& self.contains_time == 0
        &&& self.normalize_time == 0
        &&& self.join_samples@.len() == 0
        &&& self.meet_samples@.len() == 0
        &&& self.contains_samples@.len() == 0
    }

    /// Whether no list of samples is longer than the limit: what every
    /// operation of the profiler keeps.
    pub open spec fn within_limit(&self) -> bool {
        &&& self.join_samples@.len() <= self.max_samples
        &&& self.meet_samples@.len() <= self.max_samples
        &&& self.contains_samples@.len() <= self.max_samples
    }

    /// A list of samples after one more operation: the sample is kept
    /// while there is room.
    pub open spec fn kept(samples: Seq<u128>, limit: usize, d: u128) -> Seq<u128> {
        if samples.len() < limit {
            samples.push(d)
        } else {
            samples
        }
    }

    /// A profiler with no operation recorded, keeping at most `max_samples`
    /// samples of each operation.
    pub fn with_sample_limit(max_samples: usize) -> (r: Self)
        ensures
            r.is_cleared(),
            r.max_samples == max_samples,
            r.within_limit(),
    {
        TypeProfiler {
            join_count: 0,
            meet_count: 0,
            contains_count: 0,
            normalize_count: 0,
            join_time: 0,
            meet_time: 0,
            contains_time: 0,
            normalize_time: 0,
            join_samples: Vec::new(),
            meet_samples: Vec::new(),
            contains_samples: Vec::new(),
            max_samples,
        }
    }

    /// A profiler with no operation recorded, keeping at most 10 000
    /// samples of each operation.
    pub fn new() -> (r: Self)
        ensures
            r.is_cleared(),
            r.max_samples == 10_000,
            r.within_limit(),
    {
        Self::with_sample_limit(10_000)
    }

    /// Records a join that took `duration` nanoseconds.
    pub fn record_join(&mut self, duration: u128)
        requires
            old(self).join_count < u64::MAX,
            old(self).join_time + duration <= MAX_SPAN_NANOS,
        ensures
            final(self).join_count == old(self).join_count + 1,
            final(self).join_time == old(self).join_time + duration,
            final(self).join_samples@ == Self::kept(
                old(self).join_samples@,
                old(self).max_samples,
                duration,
            ),
            final(self).meet_count == old(self).meet_count,
            final(self).contains_count == old(self).contains_count,
            final(self).normalize_count == old(self).normalize_count,
            final(self).meet_time == old(self).meet_time,
            final(self).contains_time == old(self).contains_time,
            final(self).normalize_time == old(self).normalize_time,
            final(self).meet_samples@ == old(self).meet_samples@,
            final(self).contains_samples@ == old(self).contains_samples@,
            final(self).max_samples == old(self).max_samples,
            old(self).within_limit() ==> final(self).within_limit(),
    {
        self.join_count = self.join_count + 1;
        self.join_time = self.join_time + duration;
        if self.join_samples.len() < self.max_samples {
            self.join_samples.push(duration);
        }
    }

    /// Records a meet that took `duration` nanoseconds.
    pub fn record_meet(&mut self, duration: u128)
        requires
            old(self).meet_count < u64::MAX,
            old(self).meet_time + duration <= MAX_SPAN_NANOS,
        ensures
            final(self).meet_count == old(self).meet_count + 1,
            final(self).meet_time == old(self).meet_time + duration,
            final(self).meet_samples@ == Self::kept(
                old(self).meet_samples@,
                old(self).max_samples,
                duration,
            ),
            final(self).join_count == old(self).join_count,
            final(self).contains_count == old(self).contains_count,
            final(self).normalize_count == old(self).normalize_count,
            final(self).join_time == old(self).join_time,
            final(self).contains_time == old(self).contains_time,
            final(self).normalize_time == old(self).normalize_time,
            final(self).join_samples@ == old(self).join_samples@,
            final(self).contains_samples@ == old(self).contains_samples@,
            final(self).max_samples == old(self).max_samples,
            old(self).within_limit() ==> final(self).within_limit(),
    {
        self.meet_count = self.meet_count + 1;
        self.meet_time = self.meet_time + duration;
        if self.meet_samples.len() < self.max_samples {
            self.meet_samples.push(duration);
        }
    }

    /// Records a containment check that took `duration` nanoseconds.
    pub fn record_contains(&mut self, duration: u128)
        requires
            old(self).contains_count < u64::MAX,
            old(self).contains_time + duration <= MAX_SPAN_NANOS,
        ensures
            final(self).contains_count == old(self).contains_count + 1,
            final(self).contains_time == old(self).contains_time + duration,
            final(self).contains_samples@ == Self::kept(
                old(self).contains_samples@,
                old(self).max_samples,
                duration,
            ),
            final(self).join_count == old(self).join_count,
            final(self).meet_count == old(self).meet_count,
            final(self).normalize_count == old(self).normalize_count,
            final(self).join_time == old(self).join_time,
            final(self).meet_time == old(self).meet_time,
            final(self).normalize_time == old(self).normalize_time,
            final(self).join_samples@ == old(self).join_samples@,
            final(self).meet_samples@ == old(self).meet_samples@,
            final(self).max_samples == old(self).max_samples,
            old(self).within_limit() ==> final(self).within_limit(),
    {
        self.contains_count = self.contains_count + 1;
        self.contains_time = self.contains_time + duration;
        if self.contains_samples.len() < self.max_samples {
            self.contains_samples.push(duration);
        }
    }

    /// Records a normalization that took `duration` nanoseconds; no sample
    /// of it is kept.
    pub fn record_normalize(&mut self, duration: u128)
        requires
            old(self).normalize_count < u64::MAX,
            old(self).normalize_time + duration <= MAX_SPAN_NANOS,
        ensures
            final(self).normalize_count == old(self).normalize_count + 1,
            final(self).normalize_time == old(self).normalize_time + duration,
            final(self).join_count == old(self).join_count,
            final(self).meet_count == old(self).meet_count,
            final(self).contains_count == old(self).contains_count,
            final(self).join_time == old(self).join_time,
            final(self).meet_time == old(self).meet_time,
            final(self).contains_time == old(self).contains_time,
            final(self).join_samples@ == old(self).join_samples@,
            final(self).meet_samples@ == old(self).meet_samples@,
            final(self).contains_samples@ == old(self).contains_samples@,
            final(self).max_samples == old(self).max_samples,
            old(self).within_limit() ==> final(self).within_limit(),
    {
        self.normalize_count = self.normalize_count + 1;
        self.normalize_time = self.normalize_time + duration;
    }

    /// The average of a total over a count, rounded down; zero for no
    /// operation.
    pub open spec fn average(total: u128, count: u64) -> u128 {
        if count == 0 {
            0
        } else {
            (total / (count as u128)) as u128
        }
    }

    /// The average join time.
    pub fn avg_join_time(&self) -> (r: u128)
        ensures
            r == Self::average(self.join_time, self.join_count),
    {
        if self.join_count == 0 {
            0
        } else {
            self.join_time / (self.join_count as u128)
        }
    }

    /// The average meet time.
    pub fn avg_meet_time(&self) -> (r: u128)
        ensures
            r == Self::average(self.meet_time, self.meet_count),
    {
        if self.meet_count == 0 {
            0
        } else {
            self.meet_time / (self.meet_count as u128)
        }
    }

    /// The average containment check time.
    pub fn avg_contains_time(&self) -> (r: u128)
        ensures
            r == Self::average(self.contains_time, self.contains_count),
    {
        if self.contains_count == 0 {
            0
        } else {
            self.contains_time / (self.contains_count as u128)
        }
    }

    /// The average normalization time.
    pub fn avg_normalize_time(&self) -> (r: u128)
        ensures
            r == Self::average(self.normalize_time, self.normalize_count),
    {
        if self.normalize_count == 0 {
            0
        } else {
            self.normalize_time / (self.normalize_count as u128)
        }
    }

    /// The 95th percentile of the join samples.
    pub fn p95_join_time(&self) -> (r: u128)
        ensures
            r == percentile_spec(self.join_samples@, 95),
    {
        percentile(&self.join_samples, 95)
    }

    /// The 99th percentile of the join samples.
    pub fn p99_join_time(&self) -> (r: u128)
        ensures
            r == percentile_spec(self.join_samples@, 99),
    {
        percentile(&self.join_samples, 99)
    }

    /// The 95th percentile of the meet samples.
    pub fn p95_meet_time(&self) -> (r: u128)
        ensures
            r == percentile_spec(self.meet_samples@, 95),
    {
        percentile(&self.meet_samples, 95)
    }

    /// The 95th percentile of the containment check samples.
    pub fn p95_contains_time(&self) -> (r: u128)
        ensures
            r == percentile_spec(self.contains_samples@, 95),
    {
        percentile(&self.contains_samples, 95)
    }

    /// Clears every count, time and sample; the sample limit stays.
    pub fn reset(&mut self)
        ensures
            final(self).is_cleared(),
            final(self).max_samples == old(self).max_samples,
            final(self).within_limit(),
    {
        *self = Self::with_sample_limit(self.max_samples);
    }

    /// The number of operations recorded.
    pub fn total_ops(&self) -> (r: u64)
        requires
            self.join_count + self.meet_count + self.contains_count + self.normalize_count
                <= u64::MAX,
        ensures
            r == self.join_count + self.meet_count + self.contains_count + self.normalize_count,
    {
        self.join_count + self.meet_count + self.contains_count + self.normalize_count
    }

    /// The time spent in all operations.
    pub fn total_time(&self) -> (r: u128)
        requires
            self.join_time + self.meet_time + self.contains_time + self.normalize_time
                <= MAX_SPAN_NANOS,
        ensures
            r == self.join_time + self.meet_time + self.contains_time + self.normalize_time,
    {
        self.join_time + self.meet_time + self.contains_time + self.normalize_time
    }
}

impl Default for TypeProfiler {
    /// A profiler with no operation recorded that keeps no sample.
    fn default() -> (r: Self)
        ensures
            r.is_cleared(),
            r.max_samples == 0,
            r.within_limit(),
    {
        Self::with_sample_limit(0)
    }
}


// ── The tracer ────────────────────────────────────────────────────────────

/// A type recorded at one point of a trace.
#[derive(Debug)]
pub struct TypeSnapshot {
    pub ty: IRType,
    pub description: String,
    pub sequence: u64,
}

/// A copy of a snapshot.
fn copy_snapshot(s: &TypeSnapshot) -> (r: TypeSnapshot)
    ensures
        r.ty@ == s.ty@,
        r.description@ == s.description@,
        r.sequence == s.sequence,
{
    TypeSnapshot {
        ty: copy_type(&s.ty),
        description: s.description.clone(),
        sequence: s.sequence,
    }
}

impl Clone for TypeSnapshot {
    fn clone(&self) -> (r: Self)
        ensures
            r.ty@ == self.ty@,
            r.description@ == self.description@,
            r.sequence == self.sequence,
    {
        copy_snapshot(self)
    }
}

/// Records how a type changes through the passes.  While enabled, each
/// recorded type gets the next sequence number, counting from one.
#[derive(Debug)]
pub struct TypeTracer {
    pub snapshots: Vec<TypeSnapshot>,
    pub sequence: u64,
    pub enabled: bool,
}

/// How two snapshots of a trace relate.
#[derive(Debug)]
pub struct TypeDiff {
    pub from: TypeSnapshot,
    pub to: TypeSnapshot,
    /// The later type strictly includes the earlier one
    pub widened: bool,
    /// The earlier type strictly includes the later one
    pub narrowed: bool,
    /// The two types are the same
    pub unchanged: bool,
}

impl TypeTracer {
    /// Whether the snapshots are numbered in increasing order, none above
    /// the counter: what every operation of the tracer keeps.
    pub open spec fn well_numbered(&self) -> bool {
        &&& forall|i: int, j: int|
            0 <= i < j < self.snapshots@.len() ==> #[trigger] self.snapshots@[i].sequence
                < #[trigger] self.snapshots@[j].sequence
        &&& forall|i: int|
            0 <= i < self.snapshots@.len() ==> #[trigger] self.snapshots@[i].sequence <= self.sequence
    }

    /// An enabled tracer with nothing recorded.
    pub fn new() -> (r: Self)
        ensures
            r.snapshots@.len() == 0,
            r.sequence == 0,
            r.enabled,
            r.well_numbered(),
    {
        TypeTracer { snapshots: Vec::new(), sequence: 0, enabled: true }
    }

    /// A tracer with nothing recorded, enabled or not.
    pub fn with_enabled(enabled: bool) -> (r: Self)
        ensures
            r.snapshots@.len() == 0,
            r.sequence == 0,
            r.enabled == enabled,
            r.well_numbered(),
    {
        TypeTracer { snapshots: Vec::new(), sequence: 0, enabled }
    }

    /// Records a type with a description, when enabled: it gets the next
    /// sequence number.  A disabled tracer records nothing.
    pub fn record(&mut self, ty: &IRType, description: &str)
        requires
            old(self).enabled ==> old(self).sequence < u64::MAX,
        ensures
            final(self).enabled == old(self).enabled,
            !old(self).enabled ==> final(self).snapshots@ == old(self).snapshots@
                && final(self).sequence == old(self).sequence,
            old(self).enabled ==> {
                &&& final(self).sequence == old(self).sequence + 1
                &&& final(self).snapshots@.len() == old(self).snapshots@.len() + 1
                &&& final(self).snapshots@.take(old(self).snapshots@.len() as int)
                    == old(self).snapshots@
                &&& final(self).snapshots@.last().ty@ == ty@
                &&& final(self).snapshots@.last().description@ == description@
                &&& final(self).snapshots@.last().sequence == final(self).sequence
            },
            old(self).well_numbered() ==> final(self).well_numbered(),
    {
        if !self.enabled {
            return;
        }
        self.sequence = self.sequence + 1;
        let snap = TypeSnapshot {
            ty: copy_type(ty),
            description: String::from_str(description),
            sequence: self.sequence,
        };
        let ghost before = self.snapshots@;
        self.snapshots.push(snap);
        proof {
            assert(self.snapshots@.take(before.len() as int) =~= before);
        }
    }

    /// Turns recording on.
    pub fn enable(&mut self)
        ensures
            final(self).enabled,
            final(self).snapshots@ == old(self).snapshots@,
            final(self).sequence == old(self).sequence,
    {
        self.enabled = true;
    }

    /// Turns recording off.
    pub fn disable(&mut self)
        ensures
            !final(self).enabled,
            final(self).snapshots@ == old(self).snapshots@,
            final(self).sequence == old(self).sequence,
    {
        self.enabled = false;
    }

    /// Drops every snapshot and restarts the numbering.
    pub fn clear(&mut self)
        ensures
            final(self).snapshots@.len() == 0,
            final(self).sequence == 0,
            final(self).enabled == old(self).enabled,
            final(self).well_numbered(),
    {
        self.snapshots.clear();
        self.sequence = 0;
    }

    /// The number of snapshots.
    pub fn len(&self) -> (r: usize)
        ensures
            r == self.snapshots@.len(),
    {
        self.snapshots.len()
    }

    /// Whether there is no snapshot.
    pub fn is_empty(&self) -> (r: bool)
        ensures
            r == (self.snapshots@.len() == 0),
    {
        self.snapshots.len() == 0
    }

    /// How the snapshot at `to_idx` relates to the one at `from_idx`;
    /// `None` when either index is past the end.
    pub fn diff(&self, from_idx: usize, to_idx: usize) -> (r: Option<TypeDiff>)
        ensures
            r is Some <==> (from_idx < self.snapshots@.len() && to_idx < self.snapshots@.len()),
            r matches Some(d) ==> {
                let a = self.snapshots@[from_idx as int].ty@;
                let b = self.snapshots@[to_idx as int].ty@;
                &&& d.from.ty@ == a
                &&& d.from.description@ == self.snapshots@[from_idx as int].description@
                &&& d.from.sequence == self.snapshots@[from_idx as int].sequence
                &&& d.to.ty@ == b
                &&& d.to.description@ == self.snapshots@[to_idx as int].description@
                &&& d.to.sequence == self.snapshots@[to_idx as int].sequence
                &&& d.widened == (contains_spec(b, a) && !contains_spec(a, b))
                &&& d.narrowed == (contains_spec(a, b) && !contains_spec(b, a))
                &&& d.unchanged == (a == b)
            },
    {
        if from_idx >= self.snapshots.len() || to_idx >= self.snapshots.len() {
            return None;
        }
        let from = &self.snapshots[from_idx];
        let to = &self.snapshots[to_idx];
        let forward = to.ty.contains(&from.ty);
        let backward = from.ty.contains(&to.ty);
        Some(TypeDiff {
            from: copy_snapshot(from),
            to: copy_snapshot(to),
            widened: forward && !backward,
            narrowed: backward && !forward,
            unchanged: type_eq(&from.ty, &to.ty),
        })
    }
}

impl Default for TypeTracer {
    /// A disabled tracer with nothing recorded.
    fn default() -> (r: Self)
        ensures
            r.snapshots@.len() == 0,
            r.sequence == 0,
            !r.enabled,
            r.well_numbered(),
    {
        Self::with_enabled(false)
    }
}


/// `n` spaces.
pub open spec fn spaces(n: nat) -> Seq<char>
    decreases n,
{
    if n == 0 {
        Seq::empty()
    } else {
        spaces((n - 1) as nat).push(' ')
    }
}

/// A text right-aligned in four columns.
pub open spec fn pad4(s: Seq<char>) -> Seq<char> {
    if s.len() < 4 {
        spaces((4 - s.len()) as nat) + s
    } else {
        s
    }
}

/// The line of a snapshot in a trace: `  [   7] description: type`.
pub open spec fn trace_line(s: TypeSnapshot) -> Seq<char> {
    "  ["@ + pad4(decimal(s.sequence as nat)) + "] "@ + s.description@ + ": "@ + display_spec(s.ty@)
        + "\n"@
}

/// The text of a trace: a heading, then a line per snapshot.
pub open spec fn trace_text(s: Seq<TypeSnapshot>) -> Seq<char>
    decreases s.len(),
{
    if s.len() == 0 {
        "=== Type Trace ===\n"@
    } else {
        trace_text(s.drop_last()) + trace_line(s.last())
    }
}

/// Appends the line of a snapshot.
fn push_trace_line(out: &mut String, snap: &TypeSnapshot)
    ensures
        final(out)@ == old(out)@ + trace_line(*snap),
{
    let ghost orig = out@;
    out.append("  [");
    let digits = u64_decimal(snap.sequence);
    let n = digits.as_str().unicode_len();
    let mut k: usize = n;
    let ghost start = out@;
    while k < 4
        invariant
            n <= k <= 4 || (n > 4 && k == n),
            n == decimal(snap.sequence as nat).len(),
            out@ == start + spaces((k - n) as nat),
        decreases 4 - k,
    {
        proof {
            reveal_strlit(" ");
            assert(spaces((k + 1 - n) as nat) =~= spaces((k - n) as nat) + " "@);
        }
        out.append(" ");
        k = k + 1;
    }
    proof {
        if n < 4 {
            assert(k == 4);
        } else {
            assert(spaces(0) =~= Seq::<char>::empty());
            assert(start + spaces(0) =~= start);
        }
    }
    out.append(digits.as_str());
    out.append("] ");
    out.append(snap.description.as_str());
    out.append(": ");
    let text = display_type(&snap.ty);
    out.append(text.as_str());
    out.append("\n");
    proof {
        assert(pad4(decimal(snap.sequence as nat)) =~= spaces((k - n) as nat) + digits@);
        assert(out@ =~= orig + trace_line(*snap));
    }
}

impl TypeTracer {
    /// The text of the trace: a heading, then one line per snapshot with
    /// its sequence number right-aligned in four columns, its description
    /// and its type.
    pub fn format_trace(&self) -> (r: String)
        ensures
            r@ == trace_text(self.snapshots@),
    {
        let mut result = String::from_str("=== Type Trace ===\n");
        let mut i: usize = 0;
        while i < self.snapshots.len()
            invariant
                i <= self.snapshots@.len(),
                result@ == trace_text(self.snapshots@.take(i as int)),
            decreases self.snapshots.len() - i,
        {
            proof {
                assert(self.snapshots@.take(i + 1).drop_last() =~= self.snapshots@.take(i as int));
            }
            push_trace_line(&mut result, &self.snapshots[i]);
            i = i + 1;
        }
        proof {
            assert(self.snapshots@.take(self.snapshots@.len() as int) =~= self.snapshots@);
        }
        result
    }
}


// ── Complexity ────────────────────────────────────────────────────────────

/// Complexity metrics of a type.
#[derive(Debug, Clone, Copy, PartialEq, Eq, Structural)]
pub struct ComplexityInfo {
    /// The depth of the type tree, the root at depth one
    pub depth: u32,
    /// The number of leaves: constructors with no type inside
    pub width: u32,
    /// The number of constructors in the tree
    pub constructors: u32,
    /// Whether a union, intersection or difference occurs in it
    pub has_compound: bool,
    /// Whether its canonical form differs from it
    pub can_simplify: bool,
}

/// The number of constructors in a type tree.
pub open spec fn node_count(k: KindV) -> nat
    decreases k,
{
    match k {
        KindV::Union(a, b) => 1 + node_count(*a) + node_count(*b),
        KindV::Intersection(a, b) => 1 + node_count(*a) + node_count(*b),
        KindV::Difference(a, b) => 1 + node_count(*a) + node_count(*b),
        KindV::Message { payload, .. } => 1 + node_count(*payload),
        KindV::StableTuple { element_types, .. } => 1 + node_count_list(element_types),
        KindV::MapShape { values, .. } => 1 + node_count_list(values),
        KindV::Actor { accepts, .. } => 1 + node_count_list(accepts),
        KindV::RecursiveVar { bound, .. } => match bound {
            Some(b) => 1 + node_count(*b),
            None => 1,
        },
        KindV::Speculative { assumed, actual, .. } => 1 + node_count(*assumed) + node_count(*actual),
        _ => 1,
    }
}

/// The number of constructors in a list of type trees.
pub open spec fn node_count_list(s: Seq<KindV>) -> nat
    decreases s,
{
    if s.len() == 0 {
        0
    } else {
        node_count_list(s.drop_last()) + node_count(s.last())
    }
}

/// The number of leaves of a type tree: constructors with no type inside.
pub open spec fn leaf_count(k: KindV) -> nat
    decreases k,
{
    match k {
        KindV::Union(a, b) => leaf_count(*a) + leaf_count(*b),
        KindV::Intersection(a, b) => leaf_count(*a) + leaf_count(*b),
        KindV::Difference(a, b) => leaf_count(*a) + leaf_count(*b),
        KindV::Message { payload, .. } => leaf_count(*payload),
        KindV::StableTuple { element_types, .. } => leaf_count_list(element_types),
        KindV::MapShape { values, .. } => leaf_count_list(values),
        KindV::Actor { accepts, .. } => leaf_count_list(accepts),
        KindV::RecursiveVar { bound, .. } => match bound {
            Some(b) => leaf_count(*b),
            None => 0,
        },
        KindV::Speculative { assumed, actual, .. } => leaf_count(*assumed) + leaf_count(*actual),
        _ => 1,
    }
}

/// The number of leaves of a list of type trees.
pub open spec fn leaf_count_list(s: Seq<KindV>) -> nat
    decreases s,
{
    if s.len() == 0 {
        0
    } else {
        leaf_count_list(s.drop_last()) + leaf_count(s.last())
    }
}

/// The larger of two naturals.
pub open spec fn nat_max(a: nat, b: nat) -> nat {
    if a >= b {
        a
    } else {
        b
    }
}

/// The height of a type tree: one for a constructor with no type inside.
pub open spec fn tree_height(k: KindV) -> nat
    decreases k,
{
    match k {
        KindV::Union(a, b) => 1 + nat_max(tree_height(*a), tree_height(*b)),
        KindV::Intersection(a, b) => 1 + nat_max(tree_height(*a), tree_height(*b)),
        KindV::Difference(a, b) => 1 + nat_max(tree_height(*a), tree_height(*b)),
        KindV::Message { payload, .. } => 1 + tree_height(*payload),
        KindV::StableTuple { element_types, .. } => 1 + tree_height_list(element_types),
        KindV::MapShape { values, .. } => 1 + tree_height_list(values),
        KindV::Actor { accepts, .. } => 1 + tree_height_list(accepts),
        KindV::RecursiveVar { bound, .. } => match bound {
            Some(b) => 1 + tree_height(*b),
            None => 1,
        },
        KindV::Speculative { assumed, actual, .. } => 1 + nat_max(
            tree_height(*assumed),
            tree_height(*actual),
        ),
        _ => 1,
    }
}

/// The greatest height in a list of type trees; zero for none.
pub open spec fn tree_height_list(s: Seq<KindV>) -> nat
    decreases s,
{
    if s.len() == 0 {
        0
    } else {
        nat_max(tree_height_list(s.drop_last()), tree_height(s.last()))
    }
}

/// Whether a union, intersection or difference occurs in a type tree.
pub open spec fn has_compound_node(k: KindV) -> bool
    decreases k,
{
    match k {
        KindV::Union(..) | KindV::Intersection(..) | KindV::Difference(..) => true,
        KindV::Message { payload, .. } => has_compound_node(*payload),
        KindV::StableTuple { element_types, .. } => has_compound_list(element_types),
        KindV::MapShape { values, .. } => has_compound_list(values),
        KindV::Actor { accepts, .. } => has_compound_list(accepts),
        KindV::RecursiveVar { bound, .. } => match bound {
            Some(b) => has_compound_node(*b),
            None => false,
        },
        KindV::Speculative { assumed, actual, .. } => has_compound_node(*assumed)
            || has_compound_node(*actual),
        _ => false,
    }
}

/// Whether a union, intersection or difference occurs in a list of type
/// trees.
pub open spec fn has_compound_list(s: Seq<KindV>) -> bool
    decreases s,
{
    if s.len() == 0 {
        false
    } else {
        has_compound_list(s.drop_last()) || has_compound_node(s.last())
    }
}

/// The depth reached by a tree of height `h` whose root is at `depth`;
/// zero for an empty list.
pub open spec fn deepest(depth: nat, h: nat) -> nat {
    if h == 0 {
        0
    } else {
        (depth + h - 1) as nat
    }
}


proof fn lemma_counts_positive(k: KindV)
    ensures
        node_count(k) >= 1,
        tree_height(k) >= 1,
        leaf_count(k) <= node_count(k),
        tree_height(k) <= node_count(k),
    decreases k,
{
    match k {
        KindV::Union(a, b) => {
            lemma_counts_positive(*a);
            lemma_counts_positive(*b);
        },
        KindV::Intersection(a, b) => {
            lemma_counts_positive(*a);
            lemma_counts_positive(*b);
        },
        KindV::Difference(a, b) => {
            lemma_counts_positive(*a);
            lemma_counts_positive(*b);
        },
        KindV::Message { payload, .. } => {
            lemma_counts_positive(*payload);
        },
        KindV::StableTuple { element_types, .. } => {
            lemma_counts_list(element_types);
        },
        KindV::MapShape { values, .. } => {
            lemma_counts_list(values);
        },
        KindV::Actor { accepts, .. } => {
            lemma_counts_list(accepts);
        },
        KindV::RecursiveVar { bound, .. } => {
            if let Some(b) = bound {
                lemma_counts_positive(*b);
            }
        },
        KindV::Speculative { assumed, actual, .. } => {
            lemma_counts_positive(*assumed);
            lemma_counts_positive(*actual);
        },
        _ => {},
    }
}

proof fn lemma_counts_list(s: Seq<KindV>)
    ensures
        leaf_count_list(s) <= node_count_list(s),
        tree_height_list(s) <= node_count_list(s),
    decreases s,
{
    if s.len() > 0 {
        lemma_counts_list(s.drop_last());
        lemma_counts_positive(s.last());
    }
}

/// The counts of a list grow with the list.
proof fn lemma_counts_prefix(s: Seq<KindV>, i: int)
    requires
        0 <= i <= s.len(),
    ensures
        node_count_list(s.take(i)) <= node_count_list(s),
        leaf_count_list(s.take(i)) <= leaf_count_list(s),
        tree_height_list(s.take(i)) <= tree_height_list(s),
    decreases s.len(),
{
    if i == s.len() {
        assert(s.take(i) =~= s);
    } else {
        assert(s.drop_last().take(i) =~= s.take(i));
        lemma_counts_prefix(s.drop_last(), i);
    }
}

/// Walks a type tree whose root is at `depth`, counting into `info`.
fn walk_complexity(t: &IRType, depth: u32, info: &mut ComplexityInfo)
    requires
        depth >= 1,
        old(info).constructors + node_count(t@) <= u32::MAX,
        old(info).width + leaf_count(t@) <= u32::MAX,
        depth + tree_height(t@) - 1 <= u32::MAX,
    ensures
        final(info).depth == nat_max(old(info).depth as nat, deepest(depth as nat, tree_height(t@))),
        final(info).constructors == old(info).constructors + node_count(t@),
        final(info).width == old(info).width + leaf_count(t@),
        final(info).has_compound == (old(info).has_compound || has_compound_node(t@)),
        final(info).can_simplify == old(info).can_simplify,
    decreases t,
{
    proof {
        lemma_counts_positive(t@);
    }
    if depth > info.depth {
        info.depth = depth;
    }
    info.constructors = info.constructors + 1;
    match &t.kind {
        TypeKind::Union(a, b) | TypeKind::Intersection(a, b) | TypeKind::Difference(a, b) => {
            proof {
                lemma_counts_positive(a@);
                lemma_counts_positive(b@);
            }
            info.has_compound = true;
            walk_complexity(a, depth + 1, info);
            walk_complexity(b, depth + 1, info);
        },
        TypeKind::Message { payload, .. } => {
            proof {
                lemma_counts_positive(payload@);
            }
            walk_complexity(payload, depth + 1, info);
        },
        TypeKind::StableTuple { element_types, .. } => {
            walk_complexity_list(element_types, depth, info);
        },
        TypeKind::MapShape { values, .. } => {
            walk_complexity_list(values, depth, info);
        },
        TypeKind::Actor { accepts, .. } => {
            walk_complexity_list(accepts, depth, info);
        },
        TypeKind::RecursiveVar { bound, .. } => {
            if let Some(b) = bound {
                proof {
                    lemma_counts_positive(b@);
                }
                walk_complexity(b, depth + 1, info);
            }
        },
        TypeKind::Speculative { assumed, actual, .. } => {
            proof {
                lemma_counts_positive(assumed@);
                lemma_counts_positive(actual@);
            }
            walk_complexity(assumed, depth + 1, info);
            walk_complexity(actual, depth + 1, info);
        },
        _ => {
            info.width = info.width + 1;
        },
    }
}

/// Walks each tree of a list, its roots one below `parent`, counting into
/// `info`.
fn walk_complexity_list(v: &Vec<IRType>, parent: u32, info: &mut ComplexityInfo)
    requires
        parent >= 1,
        old(info).constructors + node_count_list(tys_view(v@)) <= u32::MAX,
        old(info).width + leaf_count_list(tys_view(v@)) <= u32::MAX,
        parent + tree_height_list(tys_view(v@)) <= u32::MAX,
    ensures
        final(info).depth == nat_max(
            old(info).depth as nat,
            deepest((parent + 1) as nat, tree_height_list(tys_view(v@))),
        ),
        final(info).constructors == old(info).constructors + node_count_list(tys_view(v@)),
        final(info).width == old(info).width + leaf_count_list(tys_view(v@)),
        final(info).has_compound == (old(info).has_compound || has_compound_list(tys_view(v@))),
        final(info).can_simplify == old(info).can_simplify,
    decreases v,
{
    proof {
        lemma_tys_view(v@);
    }
    let ghost s = tys_view(v@);
    let ghost start = *info;
    let mut i: usize = 0;
    proof {
        assert(s.take(0) =~= Seq::<KindV>::empty());
    }
    while i < v.len()
        invariant
            i <= v@.len(),
            s == tys_view(v@),
            s.len() == v@.len(),
            forall|k: int| 0 <= k < v@.len() ==> #[trigger] s[k] == v@[k]@,
            parent >= 1,
            start.constructors + node_count_list(s) <= u32::MAX,
            start.width + leaf_count_list(s) <= u32::MAX,
            parent + tree_height_list(s) <= u32::MAX,
            info.depth == nat_max(start.depth as nat, deepest((parent + 1) as nat, tree_height_list(s.take(i as int)))),
            info.constructors == start.constructors + node_count_list(s.take(i as int)),
            info.width == start.width + leaf_count_list(s.take(i as int)),
            info.has_compound == (start.has_compound || has_compound_list(s.take(i as int))),
            info.can_simplify == start.can_simplify,
        decreases v.len() - i,
    {
        proof {
            assert(decreases_to!(v => v@[i as int]));
            assert(s.take(i + 1).drop_last() =~= s.take(i as int));
            lemma_counts_prefix(s, i + 1);
            lemma_counts_positive(s[i as int]);
        }
        walk_complexity(&v[i], parent + 1, info);
        i = i + 1;
    }
    proof {
        assert(s.take(s.len() as int) =~= s);
    }
}

/// The complexity of a type: its depth, its number of leaves and of
/// constructors, whether it holds a union, intersection or difference,
/// and whether normalizing changes it.
pub fn analyze_complexity(ty: &IRType) -> (r: ComplexityInfo)
    requires
        node_count(ty@) <= u32::MAX,
    ensures
        r.depth == tree_height(ty@),
        r.width == leaf_count(ty@),
        r.constructors == node_count(ty@),
        r.has_compound == has_compound_node(ty@),
        r.can_simplify == (normalize_spec(ty@) != ty@),
{
    proof {
        lemma_counts_positive(ty@);
    }
    let mut info = ComplexityInfo {
        depth: 0,
        width: 0,
        constructors: 0,
        has_compound: false,
        can_simplify: false,
    };
    walk_complexity(ty, 1, &mut info);
    let normalized = ty.normalize();
    info.can_simplify = !type_eq(&normalized, ty);
    info
}


// ── Size estimate ─────────────────────────────────────────────────────────

/// At least one.
pub open spec fn at_least_one(n: int) -> int {
    if n >= 1 {
        n
    } else {
        1
    }
}

/// A rough measure of how many values a type holds.
pub open spec fn size_estimate(k: KindV) -> int
    decreases k,
{
    match k {
        KindV::Bottom => 0,
        KindV::Nil => 1,
        KindV::Constant(_) => 1,
        KindV::Boolean => 2,
        KindV::SmallInt | KindV::NonNegInt | KindV::Int64 | KindV::Float => 64,
        KindV::Atom => 32,
        KindV::Cons | KindV::List => 128,
        KindV::Tuple { arity } => 64 * at_least_one(arity as int),
        KindV::StableTuple { element_types, .. } => at_least_one(size_sum(element_types)),
        KindV::AnyMap => 256,
        KindV::MapShape { values, .. } => at_least_one(size_sum(values)),
        KindV::Union(a, b) => {
            let sum = size_estimate(*a) + size_estimate(*b);
            if sum > u32::MAX {
                u32::MAX as int
            } else {
                sum
            }
        },
        KindV::Intersection(a, b) => {
            let x = size_estimate(*a);
            let y = size_estimate(*b);
            if x <= y {
                x
            } else {
                y
            }
        },
        KindV::Difference(a, b) => {
            let d = size_estimate(*a) - size_estimate(*b);
            if d < 0 {
                0
            } else {
                d
            }
        },
        KindV::Any | KindV::Dynamic => 512,
        KindV::Message { payload, .. } => size_estimate(*payload),
        KindV::Actor { accepts, .. } => at_least_one(size_sum(accepts)),
        KindV::Tensor { shape, .. } => (known_dims(shape) as u32) * 32,
        KindV::Capability { .. } => 8,
        KindV::Pid | KindV::Port | KindV::Reference => 16,
        KindV::Fun { .. } => 64,
        KindV::Binary => 64,
        KindV::RecursiveVar { bound, .. } => match bound {
            Some(b) => size_estimate(*b),
            None => 256,
        },
        KindV::Speculative { actual, .. } => size_estimate(*actual),
    }
}

/// The sum of the size estimates of a list of types.
pub open spec fn size_sum(s: Seq<KindV>) -> int
    decreases s,
{
    if s.len() == 0 {
        0
    } else {
        size_sum(s.drop_last()) + size_estimate(s.last())
    }
}

/// Whether the size estimate of a type is computed without overflow in
/// 32 bits: every product and plain sum on the way fits.
pub open spec fn size_fits(k: KindV) -> bool
    decreases k,
{
    match k {
        KindV::Tuple { arity } => 64 * at_least_one(arity as int) <= u32::MAX,
        KindV::StableTuple { element_types, .. } => size_fits_list(element_types) && size_sum(
            element_types,
        ) <= u32::MAX,
        KindV::MapShape { values, .. } => size_fits_list(values) && size_sum(values) <= u32::MAX,
        KindV::Actor { accepts, .. } => size_fits_list(accepts) && size_sum(accepts) <= u32::MAX,
        KindV::Union(a, b) => size_fits(*a) && size_fits(*b),
        KindV::Intersection(a, b) => size_fits(*a) && size_fits(*b),
        KindV::Difference(a, b) => size_fits(*a) && size_fits(*b),
        KindV::Message { payload, .. } => size_fits(*payload),
        KindV::Tensor { shape, .. } => (known_dims(shape) as u32) * 32 <= u32::MAX,
        KindV::RecursiveVar { bound, .. } => match bound {
            Some(b) => size_fits(*b),
            None => true,
        },
        KindV::Speculative { actual, .. } => size_fits(*actual),
        _ => true,
    }
}

/// Whether the size estimate of every type of a list fits.
pub open spec fn size_fits_list(s: Seq<KindV>) -> bool
    decreases s,
{
    if s.len() == 0 {
        true
    } else {
        size_fits_list(s.drop_last()) && size_fits(s.last())
    }
}

proof fn lemma_size_range(k: KindV)
    requires
        size_fits(k),
    ensures
        0 <= size_estimate(k) <= u32::MAX,
    decreases k,
{
    match k {
        KindV::StableTuple { element_types, .. } => lemma_size_sum_range(element_types),
        KindV::MapShape { values, .. } => lemma_size_sum_range(values),
        KindV::Actor { accepts, .. } => lemma_size_sum_range(accepts),
        KindV::Union(a, b) => {
            lemma_size_range(*a);
            lemma_size_range(*b);
        },
        KindV::Intersection(a, b) => {
            lemma_size_range(*a);
            lemma_size_range(*b);
        },
        KindV::Difference(a, b) => {
            lemma_size_range(*a);
            lemma_size_range(*b);
        },
        KindV::Message { payload, .. } => lemma_size_range(*payload),
        KindV::RecursiveVar { bound, .. } => {
            if let Some(b) = bound {
                lemma_size_range(*b);
            }
        },
        KindV::Speculative { actual, .. } => lemma_size_range(*actual),
        _ => {},
    }
}

proof fn lemma_size_sum_range(s: Seq<KindV>)
    requires
        size_fits_list(s),
    ensures
        size_sum(s) >= 0,
    decreases s,
{
    if s.len() > 0 {
        lemma_size_sum_range(s.drop_last());
        lemma_size_range(s.last());
    }
}

proof fn lemma_size_prefix(s: Seq<KindV>, i: int)
    requires
        0 <= i <= s.len(),
        size_fits_list(s),
    ensures
        size_fits_list(s.take(i)),
        size_sum(s.take(i)) <= size_sum(s),
    decreases s.len(),
{
    if i == s.len() {
        assert(s.take(i) =~= s);
    } else {
        assert(s.drop_last().take(i) =~= s.take(i));
        lemma_size_prefix(s.drop_last(), i);
        lemma_size_range(s.last());
    }
}

/// The sum of the size estimates of a list of types.
fn size_sum_exec(v: &Vec<IRType>) -> (r: u32)
    requires
        size_fits_list(tys_view(v@)),
        size_sum(tys_view(v@)) <= u32::MAX,
    ensures
        r == size_sum(tys_view(v@)),
    decreases v,
{
    proof {
        lemma_tys_view(v@);
    }
    let ghost s = tys_view(v@);
    let mut total: u32 = 0;
    let mut i: usize = 0;
    proof {
        assert(s.take(0) =~= Seq::<KindV>::empty());
    }
    while i < v.len()
        invariant
            i <= v@.len(),
            s == tys_view(v@),
            s.len() == v@.len(),
            forall|k: int| 0 <= k < v@.len() ==> #[trigger] s[k] == v@[k]@,
            size_fits_list(s),
            size_sum(s) <= u32::MAX,
            total == size_sum(s.take(i as int)),
        decreases v.len() - i,
    {
        proof {
            assert(decreases_to!(v => v@[i as int]));
            assert(s.take(i + 1).drop_last() =~= s.take(i as int));
            lemma_size_prefix(s, i + 1);
            lemma_size_prefix(s, i as int);
            lemma_size_sum_range(s.take(i as int));
            assert(s.take(i + 1).last() == s[i as int]);
        }
        let x = estimated_type_size(&v[i]);
        total = total + x;
        i = i + 1;
    }
    proof {
        assert(s.take(s.len() as int) =~= s);
    }
    total
}

/// The number of statically known dimensions of a shape.
fn known_count(shape: &Vec<Option<u64>>) -> (r: usize)
    ensures
        r == known_dims(shape@),
{
    let mut n: usize = 0;
    let mut i: usize = 0;
    while i < shape.len()
        invariant
            i <= shape@.len(),
            n <= i,
            n == known_dims(shape@.take(i as int)),
        decreases shape.len() - i,
    {
        proof {
            assert(shape@.take(i + 1).drop_last() =~= shape@.take(i as int));
        }
        if shape[i].is_some() {
            n = n + 1;
        }
        i = i + 1;
    }
    proof {
        assert(shape@.take(shape@.len() as int) =~= shape@);
    }
    n
}

/// A rough measure of how many values a type holds: zero for the bottom
/// type, one for a singleton, sums over the members of products and
/// unions, and so on.
pub fn estimated_type_size(ty: &IRType) -> (r: u32)
    requires
        size_fits(ty@),
    ensures
        r == size_estimate(ty@),
    decreases ty,
{
    proof {
        lemma_size_range(ty@);
    }
    match &ty.kind {
        TypeKind::Bottom => 0,
        TypeKind::Nil | TypeKind::Constant(_) => 1,
        TypeKind::Boolean => 2,
        TypeKind::SmallInt | TypeKind::NonNegInt | TypeKind::Int64 | TypeKind::Float => 64,
        TypeKind::Atom => 32,
        TypeKind::Cons | TypeKind::List => 128,
        TypeKind::Tuple { arity } => 64 * (if *arity >= 1 { *arity } else { 1 }),
        TypeKind::StableTuple { element_types, .. } => {
            let s = size_sum_exec(element_types);
            if s >= 1 { s } else { 1 }
        },
        TypeKind::AnyMap => 256,
        TypeKind::MapShape { values, .. } => {
            let s = size_sum_exec(values);
            if s >= 1 { s } else { 1 }
        },
        TypeKind::Union(a, b) => {
            proof {
                lemma_size_range(a@);
                lemma_size_range(b@);
            }
            estimated_type_size(a).saturating_add(estimated_type_size(b))
        },
        TypeKind::Intersection(a, b) => {
            let x = estimated_type_size(a);
            let y = estimated_type_size(b);
            if x <= y { x } else { y }
        },
        TypeKind::Difference(a, b) => estimated_type_size(a).saturating_sub(estimated_type_size(b)),
        TypeKind::Any | TypeKind::Dynamic => 512,
        TypeKind::Message { payload, .. } => estimated_type_size(payload),
        TypeKind::Actor { accepts, .. } => {
            let s = size_sum_exec(accepts);
            if s >= 1 { s } else { 1 }
        },
        TypeKind::Tensor { shape, .. } => (known_count(shape) as u32) * 32,
        TypeKind::Capability { .. } => 8,
        TypeKind::Pid | TypeKind::Port | TypeKind::Reference => 16,
        TypeKind::Fun { .. } => 64,
        TypeKind::Binary => 64,
        TypeKind::RecursiveVar { bound, .. } => match bound {
            Some(b) => estimated_type_size(b),
            None => 256,
        },
        TypeKind::Speculative { actual, .. } => estimated_type_size(actual),
    }
}


// ── Benchmarks ────────────────────────────────────────────────────────────

#[verifier::external_type_specification]
#[verifier::external_body]
pub struct ExInstant(Instant);

/// Calls `Instant::now`: a reading of the monotonic clock.  Nothing is
/// promised of it.
#[verifier::external_body]
fn clock_now() -> (r: Instant) {
    Instant::now()
}

/// Calls `Instant::elapsed`: the time since `start`.  Nothing is promised
/// of it.
#[verifier::external_body]
fn elapsed_since(start: &Instant) -> (r: Duration) {
    start.elapsed()
}

/// Calls `Duration::as_nanos`: the whole span in nanoseconds, which is at
/// most `u64::MAX` seconds and 999 999 999 nanoseconds, the longest span a
/// `Duration` holds.
#[verifier::external_body]
fn span_nanos(d: &Duration) -> (r: u128)
    ensures
        r <= MAX_SPAN_NANOS,
{
    d.as_nanos()
}

/// The statistics of a benchmark; times are in nanoseconds.
#[derive(Debug, Clone)]
pub struct BenchmarkResult {
    pub operation: String,
    pub iterations: u64,
    pub total_time: u128,
    pub avg_time: u128,
    pub min_time: u128,
    pub max_time: u128,
    pub p50_time: u128,
    pub p95_time: u128,
    pub p99_time: u128,
}

/// Whether `r` holds the statistics of a run of `iterations` timed
/// operations that took `total_time` in all, with `samples` the time of
/// each: the average over the iterations (rounded down), the smallest and
/// largest sample, the median (the sample at rank `len / 2`) and the 95th
/// and 99th percentiles.
pub open spec fn summarizes(
    r: BenchmarkResult,
    operation: Seq<char>,
    iterations: u64,
    total_time: u128,
    samples: Seq<u128>,
) -> bool {
    &&& r.operation@ == operation
    &&& r.iterations == iterations
    &&& r.total_time == total_time
    &&& r.avg_time == total_time / (iterations as u128)
    &&& r.min_time == sorted_samples(samples)[0]
    &&& r.max_time == sorted_samples(samples)[samples.len() - 1]
    &&& r.p50_time == sorted_samples(samples)[(samples.len() / 2) as int]
    &&& r.p95_time == percentile_spec(samples, 95)
    &&& r.p99_time == percentile_spec(samples, 99)
}

/// The statistics of a run of `iterations` timed operations, from the
/// time of the whole run and the time of each operation.
pub fn benchmark_summary(operation: &str, iterations: u64, total_time: u128, samples: &Vec<u128>)
    -> (r: BenchmarkResult)
    requires
        samples@.len() > 0,
        iterations > 0,
    ensures
        summarizes(r, operation@, iterations, total_time, samples@),
        r.min_time <= r.p50_time <= r.p95_time <= r.p99_time <= r.max_time,
{
    let sorted = sort_samples(samples);
    proof {
        lemma_sorted_samples(samples@);
    }
    let len = sorted.len();
    let p95 = percentile(samples, 95);
    let p99 = percentile(samples, 99);
    proof {
        let n = samples@.len();
        assert(n * 95 / 100 >= n / 2) by (nonlinear_arith)
            requires
                n >= 1,
        ;
        assert(n * 99 / 100 >= n * 95 / 100) by (nonlinear_arith)
            requires
                n >= 1,
        ;
        let i95 = if n * 95 / 100 < n { n * 95 / 100 } else { (n - 1) as nat };
        let i99 = if n * 99 / 100 < n { n * 99 / 100 } else { (n - 1) as nat };
        let st = sorted_samples(samples@);
        assert(st[0] <= st[(n / 2) as int]);
        assert(st[(n / 2) as int] <= st[i95 as int]);
        assert(st[i95 as int] <= st[i99 as int]);
        assert(st[i99 as int] <= st[n - 1]);
    }
    BenchmarkResult {
        operation: String::from_str(operation),
        iterations,
        total_time,
        avg_time: total_time / (iterations as u128),
        min_time: sorted[0],
        max_time: sorted[len - 1],
        p50_time: sorted[len / 2],
        p95_time: p95,
        p99_time: p99,
    }
}

/// The operation a benchmark times.
enum BenchOp {
    Join,
    Meet,
    Contains,
    Normalize,
}

/// Runs the operation once, discarding its result.
fn run_op(op: &BenchOp, a: &IRType, b: &IRType) {
    match op {
        BenchOp::Join => {
            let _ = a.join(b);
        },
        BenchOp::Meet => {
            let _ = a.meet(b);
        },
        BenchOp::Contains => {
            let _ = a.contains(b);
        },
        BenchOp::Normalize => {
            let _ = a.normalize();
        },
    }
}

/// Times `iterations` runs of the operation, after up to 100 runs to
/// warm up.
fn benchmark_op(name: &str, op: BenchOp, a: &IRType, b: &IRType, iterations: u64) -> (r:
    BenchmarkResult)
    requires
        iterations > 0,
        iterations <= usize::MAX,
    ensures
        exists|t: u128, s: Seq<u128>| s.len() == iterations && #[trigger] summarizes(r, name@, iterations, t, s),
        r.min_time <= r.p50_time <= r.p95_time <= r.p99_time <= r.max_time,
{
    let warmup: u64 = if iterations < 100 { iterations } else { 100 };
    let mut w: u64 = 0;
    while w < warmup
        invariant
            w <= warmup,
        decreases warmup - w,
    {
        run_op(&op, a, b);
        w = w + 1;
    }
    let mut samples: Vec<u128> = Vec::new();
    let total_start = clock_now();
    let mut i: u64 = 0;
    while i < iterations
        invariant
            i <= iterations,
            iterations <= usize::MAX,
            samples@.len() == i,
        decreases iterations - i,
    {
        let start = clock_now();
        run_op(&op, a, b);
        let d = elapsed_since(&start);
        samples.push(span_nanos(&d));
        i = i + 1;
    }
    let total = elapsed_since(&total_start);
    let total_time = span_nanos(&total);
    benchmark_summary(name, iterations, total_time, &samples)
}

/// Benchmarks the join of two types.
pub fn benchmark_join(a: &IRType, b: &IRType, iterations: u64) -> (r: BenchmarkResult)
    requires
        iterations > 0,
        iterations <= usize::MAX,
    ensures
        exists|t: u128, s: Seq<u128>| s.len() == iterations && #[trigger] summarizes(r, "join"@, iterations, t, s),
        r.min_time <= r.p50_time <= r.p95_time <= r.p99_time <= r.max_time,
{
    benchmark_op("join", BenchOp::Join, a, b, iterations)
}

/// Benchmarks the meet of two types.
pub fn benchmark_meet(a: &IRType, b: &IRType, iterations: u64) -> (r: BenchmarkResult)
    requires
        iterations > 0,
        iterations <= usize::MAX,
    ensures
        exists|t: u128, s: Seq<u128>| s.len() == iterations && #[trigger] summarizes(r, "meet"@, iterations, t, s),
        r.min_time <= r.p50_time <= r.p95_time <= r.p99_time <= r.max_time,
{
    benchmark_op("meet", BenchOp::Meet, a, b, iterations)
}

/// Benchmarks the containment check of two types.
pub fn benchmark_contains(a: &IRType, b: &IRType, iterations: u64) -> (r: BenchmarkResult)
    requires
        iterations > 0,
        iterations <= usize::MAX,
    ensures
        exists|t: u128, s: Seq<u128>| s.len() == iterations && #[trigger] summarizes(r, "contains"@, iterations, t, s),
        r.min_time <= r.p50_time <= r.p95_time <= r.p99_time <= r.max_time,
{
    benchmark_op("contains", BenchOp::Contains, a, b, iterations)
}

/// Benchmarks the normalization of a type.
pub fn benchmark_normalize(a: &IRType, iterations: u64) -> (r: BenchmarkResult)
    requires
        iterations > 0,
        iterations <= usize::MAX,
    ensures
        exists|t: u128, s: Seq<u128>| s.len() == iterations && #[trigger] summarizes(r, "normalize"@, iterations, t, s),
        r.min_time <= r.p50_time <= r.p95_time <= r.p99_time <= r.max_time,
{
    benchmark_op("normalize", BenchOp::Normalize, a, a, iterations)
}


// ── Reports ───────────────────────────────────────────────────────────────

/// The `Debug` text of the `Duration` of `secs` seconds and `nanos`
/// nanoseconds (`1.5µs`, `2s` and so on).
pub uninterp spec fn span_debug(secs: u64, nanos: u32) -> Seq<char>;

/// Calls `Duration::new` and formats the span with `{:?}`: the text its
/// `Debug` writes, which depends on the two parts alone.
#[verifier::external_body]
fn span_parts_text(secs: u64, nanos: u32) -> (s: String)
    requires
        nanos < 1_000_000_000,
    ensures
        s@ == span_debug(secs, nanos),
{
    format!("{:?}", Duration::new(secs, nanos))
}

/// The `Debug` text of a span of nanoseconds, held to the longest span.
pub open spec fn nanos_debug(n: u128) -> Seq<char> {
    let m = if n <= MAX_SPAN_NANOS { n } else { MAX_SPAN_NANOS };
    span_debug((m / 1_000_000_000) as u64, (m % 1_000_000_000) as u32)
}

/// The `Debug` text of a span of nanoseconds.
fn nanos_text(n: u128) -> (s: String)
    ensures
        s@ == nanos_debug(n),
{
    let m = if n <= MAX_SPAN_NANOS { n } else { MAX_SPAN_NANOS };
    assert(m / 1_000_000_000 <= u64::MAX) by (nonlinear_arith)
        requires
            m <= MAX_SPAN_NANOS,
            MAX_SPAN_NANOS == 18_446_744_073_709_551_615_999_999_999u128,
    ;
    span_parts_text((m / 1_000_000_000) as u64, (m % 1_000_000_000) as u32)
}

/// A text padded on the left with spaces to `width` characters.
pub open spec fn pad_left(s: Seq<char>, width: nat) -> Seq<char> {
    if s.len() >= width {
        s
    } else {
        Seq::new((width - s.len()) as nat, |i: int| ' ') + s
    }
}

fn pad_string(s: String, width: usize) -> (r: String)
    ensures
        r@ == pad_left(s@, width as nat),
{
    let n = s.as_str().unicode_len();
    if n >= width {
        return s;
    }
    let mut r = String::new();
    let mut i: usize = 0;
    while i < width - n
        invariant
            i <= width - n,
            n == s@.len(),
            r@ == Seq::new(i as nat, |j: int| ' '),
        decreases width - n - i,
    {
        proof {
            reveal_strlit(" ");
        }
        r.append(" ");
        i = i + 1;
        proof {
            assert(r@ =~= Seq::new(i as nat, |j: int| ' '));
        }
    }
    r.append(s.as_str());
    r
}

/// The text of a flag.
pub open spec fn flag_text(b: bool) -> Seq<char> {
    if b {
        "true"@
    } else {
        "false"@
    }
}

fn flag_str(b: bool) -> (r: &'static str)
    ensures
        r@ == flag_text(b),
{
    if b {
        "true"
    } else {
        "false"
    }
}

impl ComplexityInfo {
    /// The text of the metrics.
    pub open spec fn text(&self) -> Seq<char> {
        "Complexity { depth: "@ + decimal(self.depth as nat) + ", width: "@ + decimal(self.width as nat)
            + ", constructors: "@ + decimal(self.constructors as nat) + ", compound: "@ + flag_text(
            self.has_compound,
        ) + ", simplifiable: "@ + flag_text(self.can_simplify) + " }"@
    }

    /// The text of the metrics: `Complexity { depth: 2, width: 3, ... }`.
    pub fn display(&self) -> (r: String)
        ensures
            r@ == self.text(),
    {
        let mut s = String::from_str("Complexity { depth: ");
        let d = u64_decimal(self.depth as u64);
        s.append(d.as_str());
        s.append(", width: ");
        let w = u64_decimal(self.width as u64);
        s.append(w.as_str());
        s.append(", constructors: ");
        let c = u64_decimal(self.constructors as u64);
        s.append(c.as_str());
        s.append(", compound: ");
        s.append(flag_str(self.has_compound));
        s.append(", simplifiable: ");
        s.append(flag_str(self.can_simplify));
        s.append(" }");
        s
    }
}

impl TypeDiff {
    /// The text of the change: its tag, then the earlier type, and the
    /// later one unless they are the same.
    pub open spec fn text(&self) -> Seq<char> {
        let from = display_spec(self.from.ty@);
        let to = display_spec(self.to.ty@);
        if self.unchanged {
            "  [UNCHANGED] "@ + from
        } else if self.widened {
            "  [WIDENED]   "@ + from + " → "@ + to
        } else if self.narrowed {
            "  [NARROWED]  "@ + from + " → "@ + to
        } else {
            "  [CHANGED]   "@ + from + " → "@ + to
        }
    }

    /// The text of the change: `  [WIDENED]   smallint → int64` and so on.
    pub fn display(&self) -> (r: String)
        ensures
            r@ == self.text(),
    {
        let from = display_type(&self.from.ty);
        let to = display_type(&self.to.ty);
        let mut s = String::new();
        if self.unchanged {
            s.append("  [UNCHANGED] ");
            s.append(from.as_str());
            return s;
        } else if self.widened {
            s.append("  [WIDENED]   ");
        } else if self.narrowed {
            s.append("  [NARROWED]  ");
        } else {
            s.append("  [CHANGED]   ");
        }
        s.append(from.as_str());
        s.append(" → ");
        s.append(to.as_str());
        s
    }
}

impl TypeProfiler {
    /// Whether the totals of the report fit: the number of operations in
    /// a `u64`, the time in a `Duration`.
    pub open spec fn report_fits(&self) -> bool {
        &&& self.join_count + self.meet_count + self.contains_count + self.normalize_count <= u64::MAX
        &&& self.join_time + self.meet_time + self.contains_time + self.normalize_time <= MAX_SPAN_NANOS
    }

    /// The text of the report.
    pub open spec fn report_text(&self) -> Seq<char> {
        "=== Type System Profiler ===\n"@ + "Total operations: "@ + decimal(
            (self.join_count + self.meet_count + self.contains_count + self.normalize_count) as nat,
        ) + "\n"@ + "Total time: "@ + nanos_debug(
            (self.join_time + self.meet_time + self.contains_time + self.normalize_time) as u128,
        ) + "\n"@ + "\n"@ + "  Join:     count="@ + pad_left(decimal(self.join_count as nat), 8) + "  avg="@
            + nanos_debug(Self::average(self.join_time, self.join_count)) + "  p95="@ + nanos_debug(
            percentile_spec(self.join_samples@, 95),
        ) + "  p99="@ + nanos_debug(percentile_spec(self.join_samples@, 99)) + "\n"@ + "  Meet:     count="@
            + pad_left(decimal(self.meet_count as nat), 8) + "  avg="@ + nanos_debug(
            Self::average(self.meet_time, self.meet_count),
        ) + "  p95="@ + nanos_debug(percentile_spec(self.meet_samples@, 95)) + "\n"@ + "  Contains: count="@
            + pad_left(decimal(self.contains_count as nat), 8) + "  avg="@ + nanos_debug(
            Self::average(self.contains_time, self.contains_count),
        ) + "  p95="@ + nanos_debug(percentile_spec(self.contains_samples@, 95)) + "\n"@
            + "  Normalize: count="@ + pad_left(decimal(self.normalize_count as nat), 7) + "  avg="@
            + nanos_debug(Self::average(self.normalize_time, self.normalize_count))
    }

    /// The report of the profiler: its counts, totals, averages and
    /// percentiles, one line per operation.
    pub fn report(&self) -> (r: String)
        requires
            self.report_fits(),
        ensures
            r@ == self.report_text(),
    {
        let mut s = String::from_str("=== Type System Profiler ===\n");
        s.append("Total operations: ");
        let ops = u64_decimal(self.total_ops());
        s.append(ops.as_str());
        s.append("\n");
        s.append("Total time: ");
        let tt = nanos_text(self.total_time());
        s.append(tt.as_str());
        s.append("\n");
        s.append("\n");
        s.append("  Join:     count=");
        let x = pad_string(u64_decimal(self.join_count), 8);
        s.append(x.as_str());
        s.append("  avg=");
        let x = nanos_text(self.avg_join_time());
        s.append(x.as_str());
        s.append("  p95=");
        let x = nanos_text(self.p95_join_time());
        s.append(x.as_str());
        s.append("  p99=");
        let x = nanos_text(self.p99_join_time());
        s.append(x.as_str());
        s.append("\n");
        s.append("  Meet:     count=");
        let x = pad_string(u64_decimal(self.meet_count), 8);
        s.append(x.as_str());
        s.append("  avg=");
        let x = nanos_text(self.avg_meet_time());
        s.append(x.as_str());
        s.append("  p95=");
        let x = nanos_text(self.p95_meet_time());
        s.append(x.as_str());
        s.append("\n");
        s.append("  Contains: count=");
        let x = pad_string(u64_decimal(self.contains_count), 8);
        s.append(x.as_str());
        s.append("  avg=");
        let x = nanos_text(self.avg_contains_time());
        s.append(x.as_str());
        s.append("  p95=");
        let x = nanos_text(self.p95_contains_time());
        s.append(x.as_str());
        s.append("\n");
        s.append("  Normalize: count=");
        let x = pad_string(u64_decimal(self.normalize_count), 7);
        s.append(x.as_str());
        s.append("  avg=");
        let x = nanos_text(self.avg_normalize_time());
        s.append(x.as_str());
        s
    }
}

impl BenchmarkResult {
    /// The text of the statistics.
    pub open spec fn report_text(&self) -> Seq<char> {
        "=== Benchmark: "@ + self.operation@ + " ===\n"@ + "  Iterations: "@ + decimal(self.iterations as nat)
            + "\n"@ + "  Total:      "@ + nanos_debug(self.total_time) + "\n"@ + "  Avg:        "@ + nanos_debug(
            self.avg_time,
        ) + "\n"@ + "  Min:        "@ + nanos_debug(self.min_time) + "\n"@ + "  Max:        "@ + nanos_debug(
            self.max_time,
        ) + "\n"@ + "  P50:        "@ + nanos_debug(self.p50_time) + "\n"@ + "  P95:        "@ + nanos_debug(
            self.p95_time,
        ) + "\n"@ + "  P99:        "@ + nanos_debug(self.p99_time)
    }

    /// The report of the benchmark, one statistic per line.
    pub fn report(&self) -> (r: String)
        ensures
            r@ == self.report_text(),
    {
        let mut s = String::from_str("=== Benchmark: ");
        s.append(self.operation.as_str());
        s.append(" ===\n");
        s.append("  Iterations: ");
        let x = u64_decimal(self.iterations);
        s.append(x.as_str());
        s.append("\n");
        s.append("  Total:      ");
        let x = nanos_text(self.total_time);
        s.append(x.as_str());
        s.append("\n");
        s.append("  Avg:        ");
        let x = nanos_text(self.avg_time);
        s.append(x.as_str());
        s.append("\n");
        s.append("  Min:        ");
        let x = nanos_text(self.min_time);
        s.append(x.as_str());
        s.append("\n");
        s.append("  Max:        ");
        let x = nanos_text(self.max_time);
        s.append(x.as_str());
        s.append("\n");
        s.append("  P50:        ");
        let x = nanos_text(self.p50_time);
        s.append(x.as_str());
        s.append("\n");
        s.append("  P95:        ");
        let x = nanos_text(self.p95_time);
        s.append(x.as_str());
        s.append("\n");
        s.append("  P99:        ");
        let x = nanos_text(self.p99_time);
        s.append(x.as_str());
        s
    }
}

} // verus!
