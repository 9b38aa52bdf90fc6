//! The canonical form of a type: nested unions and intersections are
//! flattened, redundant members dropped, and the members sorted by their
//! text, so that two spellings of one type normalize to the same value.

use crate::type_display::{display_spec, display_type};
use crate::type_system::{
    IRType, KindV, TypeKind, contains_spec, copy_type, intersection_conjuncts, law_lattice_idempotent,
    lemma_tys_view, lemma_tys_view_push, tys_view, union_alternatives,
};
use vstd::prelude::*;

verus! {

broadcast use vstd::seq::group_seq_axioms, vstd::std_specs::vec::group_vec_axioms;

// ── Ordering texts ────────────────────────────────────────────────────────

/// Lexicographic order on texts, character by character, as strings
/// compare: a proper prefix comes first.
pub open spec fn text_lt(a: Seq<char>, b: Seq<char>) -> bool
    decreases a.len(),
{
    if a.len() == 0 {
        b.len() > 0
    } else if b.len() == 0 {
        false
    } else if a[0] != b[0] {
        (a[0] as u32) < (b[0] as u32)
    } else {
        text_lt(a.drop_first(), b.drop_first())
    }
}

/// The characters of a string.
fn chars_of(s: &String) -> (r: Vec<char>)
    ensures
        r@ == s@,
{
    let mut r: Vec<char> = Vec::new();
    for c in it: s.as_str().chars()
        invariant
            r@ == it.seq().take(it.index() as int),
            it.seq() == s@,
    {
        r.push(c);
    }
    r
}


/// Equal first characters leave the order to the rest.
proof fn lemma_text_lt_skip(a: Seq<char>, b: Seq<char>, i: int)
    requires
        0 <= i <= a.len(),
        i <= b.len(),
        a.take(i) == b.take(i),
    ensures
        text_lt(a, b) == text_lt(a.skip(i), b.skip(i)),
    decreases i,
{
    if i > 0 {
        assert(a[0] == a.take(i)[0]);
        assert(b[0] == b.take(i)[0]);
        assert(a.drop_first().take(i - 1) =~= a.take(i).drop_first());
        assert(b.drop_first().take(i - 1) =~= b.take(i).drop_first());
        lemma_text_lt_skip(a.drop_first(), b.drop_first(), i - 1);
        assert(a.drop_first().skip(i - 1) =~= a.skip(i));
        assert(b.drop_first().skip(i - 1) =~= b.skip(i));
    } else {
        assert(a.skip(0) =~= a);
        assert(b.skip(0) =~= b);
    }
}

/// Whether the first text comes strictly before the second.
fn text_less(a: &Vec<char>, b: &Vec<char>) -> (r: bool)
    ensures
        r == text_lt(a@, b@),
{
    let mut i: usize = 0;
    while i < a.len() && i < b.len() && a[i] == b[i]
        invariant
            i <= a@.len(),
            i <= b@.len(),
            a@.take(i as int) == b@.take(i as int),
        decreases a.len() - i,
    {
        proof {
            assert(a@.take(i + 1) =~= a@.take(i as int).push(a@[i as int]));
            assert(b@.take(i + 1) =~= b@.take(i as int).push(b@[i as int]));
        }
        i = i + 1;
    }
    proof {
        lemma_text_lt_skip(a@, b@, i as int);
    }
    if i == a.len() {
        i < b.len()
    } else if i == b.len() {
        false
    } else {
        proof {
            assert(a@.skip(i as int)[0] == a@[i as int]);
            assert(b@.skip(i as int)[0] == b@[i as int]);
        }
        (a[i] as u32) < (b[i] as u32)
    }
}


// ── The canonical form ────────────────────────────────────────────────────

/// Whether `x` makes `y` redundant: among the members of a union
/// (`widest`) when `x` includes `y`, among the members of an intersection
/// when `y` includes `x`.
pub open spec fn covers(widest: bool, x: KindV, y: KindV) -> bool {
    if widest {
        contains_spec(x, y)
    } else {
        contains_spec(y, x)
    }
}

/// The members of `s` that `t` does not make redundant, in order.
pub open spec fn keep_uncovered(s: Seq<KindV>, t: KindV, widest: bool) -> Seq<KindV>
    decreases s.len(),
{
    if s.len() == 0 {
        Seq::empty()
    } else {
        let r = keep_uncovered(s.drop_last(), t, widest);
        if covers(widest, t, s.last()) {
            r
        } else {
            r.push(s.last())
        }
    }
}

/// Adds a member to a reduced list of members: it is dropped when a member
/// already there makes it redundant; otherwise the members that it makes
/// redundant are dropped and it is added at the end.
pub open spec fn absorb_push(acc: Seq<KindV>, t: KindV, widest: bool) -> Seq<KindV> {
    if exists|i: int| 0 <= i < acc.len() && covers(widest, #[trigger] acc[i], t) {
        acc
    } else {
        keep_uncovered(acc, t, widest).push(t)
    }
}

/// The members of `s`, added in order, with the redundant ones dropped.
pub open spec fn absorb_all(s: Seq<KindV>, widest: bool) -> Seq<KindV>
    decreases s.len(),
{
    if s.len() == 0 {
        Seq::empty()
    } else {
        absorb_push(absorb_all(s.drop_last(), widest), s.last(), widest)
    }
}

/// Inserts `t` into a list sorted by text, after every member whose text
/// does not come after its own.
pub open spec fn insert_by_text(s: Seq<KindV>, t: KindV) -> Seq<KindV>
    decreases s.len(),
{
    if s.len() == 0 {
        seq![t]
    } else if text_lt(display_spec(t), display_spec(s.last())) {
        insert_by_text(s.drop_last(), t).push(s.last())
    } else {
        s.push(t)
    }
}

/// The members of `s` sorted by their text; members with the same text
/// keep their order.
pub open spec fn sort_by_text(s: Seq<KindV>) -> Seq<KindV>
    decreases s.len(),
{
    if s.len() == 0 {
        Seq::empty()
    } else {
        insert_by_text(sort_by_text(s.drop_last()), s.last())
    }
}

/// The union (`widest`) or intersection of a non-empty list of members,
/// nested to the left.
pub open spec fn fold_members(s: Seq<KindV>, widest: bool) -> KindV
    decreases s.len(),
{
    if s.len() <= 1 {
        s[0]
    } else if widest {
        KindV::Union(Box::new(fold_members(s.drop_last(), widest)), Box::new(s.last()))
    } else {
        KindV::Intersection(Box::new(fold_members(s.drop_last(), widest)), Box::new(s.last()))
    }
}

/// A union (`widest`) or intersection rebuilt from its members: the
/// redundant ones dropped, a single one left alone, several sorted by text.
pub open spec fn rebuild_spec(members: Seq<KindV>, widest: bool) -> KindV {
    let f = absorb_all(members, widest);
    if f.len() == 1 {
        f[0]
    } else {
        fold_members(sort_by_text(f), widest)
    }
}

/// The canonical form of a type.  A union is flattened into its
/// alternatives, each normalized; an alternative included in another is
/// dropped, and the rest are sorted by text and nested to the left.  An
/// intersection is treated alike, keeping its narrowest members.  Any
/// other type is its own canonical form.
pub open spec fn normalize_spec(k: KindV) -> KindV
    decreases k, 1int,
{
    match k {
        KindV::Union(..) => rebuild_spec(normalized_alternatives(k), true),
        KindV::Intersection(..) => rebuild_spec(normalized_conjuncts(k), false),
        _ => k,
    }
}

/// The leaves of the union tree of a type, left to right, each normalized.
pub open spec fn normalized_alternatives(k: KindV) -> Seq<KindV>
    decreases k, (if k is Union { 0int } else { 2int }),
{
    match k {
        KindV::Union(a, b) => normalized_alternatives(*a) + normalized_alternatives(*b),
        _ => seq![normalize_spec(k)],
    }
}

/// The leaves of the intersection tree of a type, left to right, each
/// normalized.
pub open spec fn normalized_conjuncts(k: KindV) -> Seq<KindV>
    decreases k, (if k is Intersection { 0int } else { 2int }),
{
    match k {
        KindV::Intersection(a, b) => normalized_conjuncts(*a) + normalized_conjuncts(*b),
        _ => seq![normalize_spec(k)],
    }
}


// ── Computing it ──────────────────────────────────────────────────────────

fn covers_exec(widest: bool, x: &IRType, y: &IRType) -> (r: bool)
    ensures
        r == covers(widest, x@, y@),
{
    if widest {
        x.contains(y)
    } else {
        y.contains(x)
    }
}

/// Adds one member to a reduced list of members.
fn absorb_one(acc: Vec<IRType>, t: &IRType, widest: bool) -> (r: Vec<IRType>)
    ensures
        tys_view(r@) == absorb_push(tys_view(acc@), t@, widest),
{
    proof {
        lemma_tys_view(acc@);
    }
    let ghost a = tys_view(acc@);
    let mut j: usize = 0;
    while j < acc.len()
        invariant
            j <= acc@.len(),
            a == tys_view(acc@),
            a.len() == acc@.len(),
            forall|k: int| 0 <= k < acc@.len() ==> #[trigger] a[k] == acc@[k]@,
            forall|k: int| 0 <= k < j ==> !covers(widest, #[trigger] a[k], t@),
        decreases acc.len() - j,
    {
        if covers_exec(widest, &acc[j], t) {
            proof {
                assert(covers(widest, a[j as int], t@));
            }
            return acc;
        }
        j = j + 1;
    }
    let mut kept: Vec<IRType> = Vec::new();
    let mut i: usize = 0;
    proof {
        assert(a.take(0) =~= Seq::<KindV>::empty());
    }
    while i < acc.len()
        invariant
            i <= acc@.len(),
            a == tys_view(acc@),
            a.len() == acc@.len(),
            forall|k: int| 0 <= k < acc@.len() ==> #[trigger] a[k] == acc@[k]@,
            tys_view(kept@) == keep_uncovered(a.take(i as int), t@, widest),
        decreases acc.len() - i,
    {
        proof {
            assert(a.take(i + 1).drop_last() =~= a.take(i as int));
        }
        if !covers_exec(widest, t, &acc[i]) {
            let ghost before = kept@;
            kept.push(copy_type(&acc[i]));
            proof {
                lemma_tys_view_push(before, kept@.last());
                assert(before.push(kept@.last()) =~= kept@);
            }
        }
        i = i + 1;
    }
    proof {
        assert(a.take(a.len() as int) =~= a);
    }
    let ghost before = kept@;
    kept.push(copy_type(t));
    proof {
        lemma_tys_view_push(before, kept@.last());
        assert(before.push(kept@.last()) =~= kept@);
    }
    kept
}


/// The members, added in order, with the redundant ones dropped.
fn absorb(members: &Vec<IRType>, widest: bool) -> (r: Vec<IRType>)
    ensures
        tys_view(r@) == absorb_all(tys_view(members@), widest),
{
    proof {
        lemma_tys_view(members@);
    }
    let ghost m = tys_view(members@);
    let mut acc: Vec<IRType> = Vec::new();
    let mut i: usize = 0;
    proof {
        assert(m.take(0) =~= Seq::<KindV>::empty());
    }
    while i < members.len()
        invariant
            i <= members@.len(),
            m == tys_view(members@),
            m.len() == members@.len(),
            forall|k: int| 0 <= k < members@.len() ==> #[trigger] m[k] == members@[k]@,
            tys_view(acc@) == absorb_all(m.take(i as int), widest),
        decreases members.len() - i,
    {
        proof {
            assert(m.take(i + 1).drop_last() =~= m.take(i as int));
        }
        acc = absorb_one(acc, &members[i], widest);
        i = i + 1;
    }
    proof {
        assert(m.take(m.len() as int) =~= m);
    }
    acc
}

/// Inserting by scanning from the end: the member goes just after the last
/// member whose text does not come after its own.
proof fn lemma_insert_by_text(s: Seq<KindV>, t: KindV, j: int)
    requires
        0 <= j <= s.len(),
        forall|k: int| j <= k < s.len() ==> text_lt(display_spec(t), display_spec(#[trigger] s[k])),
        j > 0 ==> !text_lt(display_spec(t), display_spec(s[j - 1])),
    ensures
        insert_by_text(s, t) == s.insert(j, t),
    decreases s.len(),
{
    if s.len() == j {
        assert(s.insert(j, t) =~= s.push(t));
    } else {
        assert(text_lt(display_spec(t), display_spec(s[s.len() - 1])));
        lemma_insert_by_text(s.drop_last(), t, j);
        assert(s.drop_last().insert(j, t).push(s.last()) =~= s.insert(j, t));
    }
}

/// The members sorted by their text, stably.
fn sort_members(members: &Vec<IRType>) -> (r: Vec<IRType>)
    ensures
        tys_view(r@) == sort_by_text(tys_view(members@)),
{
    proof {
        lemma_tys_view(members@);
    }
    let ghost m = tys_view(members@);
    let mut sorted: Vec<IRType> = Vec::new();
    let mut texts: Vec<Vec<char>> = Vec::new();
    let mut i: usize = 0;
    proof {
        assert(m.take(0) =~= Seq::<KindV>::empty());
    }
    while i < members.len()
        invariant
            i <= members@.len(),
            m == tys_view(members@),
            m.len() == members@.len(),
            forall|k: int| 0 <= k < members@.len() ==> #[trigger] m[k] == members@[k]@,
            tys_view(sorted@) == sort_by_text(m.take(i as int)),
            texts@.len() == sorted@.len(),
            forall|k: int| 0 <= k < sorted@.len() ==> #[trigger] texts@[k]@ == display_spec(sorted@[k]@),
        decreases members.len() - i,
    {
        proof {
            assert(m.take(i + 1).drop_last() =~= m.take(i as int));
            lemma_tys_view(sorted@);
        }
        let ghost s0 = tys_view(sorted@);
        let text = display_type(&members[i]);
        let chars = chars_of(&text);
        let mut j: usize = sorted.len();
        while j > 0 && text_less(&chars, &texts[j - 1])
            invariant
                j <= sorted@.len(),
                texts@.len() == sorted@.len(),
                s0 == tys_view(sorted@),
                s0.len() == sorted@.len(),
                forall|k: int| 0 <= k < sorted@.len() ==> #[trigger] s0[k] == sorted@[k]@,
                forall|k: int| 0 <= k < sorted@.len() ==> #[trigger] texts@[k]@ == display_spec(sorted@[k]@),
                chars@ == display_spec(m[i as int]),
                forall|k: int| j <= k < s0.len() ==> text_lt(display_spec(m[i as int]), display_spec(#[trigger] s0[k])),
            decreases j,
        {
            j = j - 1;
        }
        proof {
            if j > 0 {
                assert(texts@[j - 1]@ == display_spec(s0[j - 1]));
            }
            lemma_insert_by_text(s0, m[i as int], j as int);
        }
        let ghost before = sorted@;
        let ghost tbefore = texts@;
        sorted.insert(j, copy_type(&members[i]));
        texts.insert(j, chars);
        proof {
            lemma_tys_view(sorted@);
            assert(tys_view(sorted@) =~= s0.insert(j as int, m[i as int]));
            assert forall|k: int| 0 <= k < sorted@.len() implies #[trigger] texts@[k]@ == display_spec(sorted@[k]@) by {
                if k < j {
                    assert(texts@[k] == tbefore[k]);
                    assert(sorted@[k] == before[k]);
                } else if k > j {
                    assert(texts@[k] == tbefore[k - 1]);
                    assert(sorted@[k] == before[k - 1]);
                }
            }
        }
        i = i + 1;
    }
    proof {
        assert(m.take(m.len() as int) =~= m);
    }
    sorted
}


/// Adding a member never empties a list, and a non-empty list of members
/// reduces to a non-empty one.
proof fn lemma_absorb_nonempty(s: Seq<KindV>, widest: bool)
    ensures
        s.len() > 0 ==> absorb_all(s, widest).len() > 0,
    decreases s.len(),
{
    if s.len() > 0 {
        lemma_absorb_nonempty(s.drop_last(), widest);
    }
}

proof fn lemma_sort_len(s: Seq<KindV>)
    ensures
        sort_by_text(s).len() == s.len(),
    decreases s.len(),
{
    if s.len() > 0 {
        lemma_sort_len(s.drop_last());
        lemma_insert_len(sort_by_text(s.drop_last()), s.last());
    }
}

proof fn lemma_insert_len(s: Seq<KindV>, t: KindV)
    ensures
        insert_by_text(s, t).len() == s.len() + 1,
    decreases s.len(),
{
    if s.len() > 0 {
        lemma_insert_len(s.drop_last(), t);
    }
}

/// The union (`widest`) or intersection of the members, nested to the left.
fn fold_exec(members: &Vec<IRType>, widest: bool) -> (r: IRType)
    requires
        members@.len() > 0,
    ensures
        r@ == fold_members(tys_view(members@), widest),
{
    proof {
        lemma_tys_view(members@);
    }
    let ghost m = tys_view(members@);
    let mut acc = copy_type(&members[0]);
    let mut i: usize = 1;
    proof {
        assert(m.take(1).len() == 1);
    }
    while i < members.len()
        invariant
            1 <= i <= members@.len(),
            m == tys_view(members@),
            m.len() == members@.len(),
            forall|k: int| 0 <= k < members@.len() ==> #[trigger] m[k] == members@[k]@,
            acc@ == fold_members(m.take(i as int), widest),
        decreases members.len() - i,
    {
        proof {
            assert(m.take(i + 1).drop_last() =~= m.take(i as int));
        }
        let next = copy_type(&members[i]);
        if widest {
            acc = IRType::new(TypeKind::Union(Box::new(acc), Box::new(next)));
        } else {
            acc = IRType::new(TypeKind::Intersection(Box::new(acc), Box::new(next)));
        }
        i = i + 1;
    }
    proof {
        assert(m.take(m.len() as int) =~= m);
    }
    acc
}

/// A union (`widest`) or intersection rebuilt from its normalized members.
fn rebuild(members: &Vec<IRType>, widest: bool) -> (r: IRType)
    requires
        members@.len() > 0,
    ensures
        r@ == rebuild_spec(tys_view(members@), widest),
{
    let kept = absorb(members, widest);
    proof {
        lemma_tys_view(members@);
        lemma_tys_view(kept@);
        lemma_absorb_nonempty(tys_view(members@), widest);
    }
    if kept.len() == 1 {
        copy_type(&kept[0])
    } else {
        let sorted = sort_members(&kept);
        proof {
            lemma_tys_view(sorted@);
            lemma_sort_len(tys_view(kept@));
        }
        fold_exec(&sorted, widest)
    }
}

/// Appends the normalized leaves of the union tree of `t`.
fn collect_alternatives(t: &IRType, out: &mut Vec<IRType>)
    ensures
        tys_view(final(out)@) == tys_view(old(out)@) + normalized_alternatives(t@),
    decreases t, (if t.kind is Union { 0int } else { 2int }),
{
    match &t.kind {
        TypeKind::Union(a, b) => {
            collect_alternatives(a, out);
            collect_alternatives(b, out);
        },
        _ => {
            let n = normalize_type(t);
            let ghost before = out@;
            out.push(n);
            proof {
                lemma_tys_view_push(before, out@.last());
                assert(before.push(out@.last()) =~= out@);
            }
        },
    }
}

/// Appends the normalized leaves of the intersection tree of `t`.
fn collect_conjuncts(t: &IRType, out: &mut Vec<IRType>)
    ensures
        tys_view(final(out)@) == tys_view(old(out)@) + normalized_conjuncts(t@),
    decreases t, (if t.kind is Intersection { 0int } else { 2int }),
{
    match &t.kind {
        TypeKind::Intersection(a, b) => {
            collect_conjuncts(a, out);
            collect_conjuncts(b, out);
        },
        _ => {
            let n = normalize_type(t);
            let ghost before = out@;
            out.push(n);
            proof {
                lemma_tys_view_push(before, out@.last());
                assert(before.push(out@.last()) =~= out@);
            }
        },
    }
}

/// The canonical form of a type.
fn normalize_type(t: &IRType) -> (r: IRType)
    ensures
        r@ == normalize_spec(t@),
    decreases t, 1int,
{
    match &t.kind {
        TypeKind::Union(..) => {
            let mut members: Vec<IRType> = Vec::new();
            collect_alternatives(t, &mut members);
            proof {
                lemma_alternatives_nonempty(t@);
                assert(tys_view(Seq::<IRType>::empty()) =~= Seq::<KindV>::empty());
                assert(Seq::<KindV>::empty() + normalized_alternatives(t@) =~= normalized_alternatives(t@));
                lemma_tys_view(members@);
            }
            rebuild(&members, true)
        },
        TypeKind::Intersection(..) => {
            let mut members: Vec<IRType> = Vec::new();
            collect_conjuncts(t, &mut members);
            proof {
                lemma_conjuncts_nonempty(t@);
                assert(tys_view(Seq::<IRType>::empty()) =~= Seq::<KindV>::empty());
                assert(Seq::<KindV>::empty() + normalized_conjuncts(t@) =~= normalized_conjuncts(t@));
                lemma_tys_view(members@);
            }
            rebuild(&members, false)
        },
        _ => copy_type(t),
    }
}

proof fn lemma_alternatives_nonempty(k: KindV)
    ensures
        normalized_alternatives(k).len() > 0,
    decreases k,
{
    if let KindV::Union(a, b) = k {
        lemma_alternatives_nonempty(*a);
    }
}

proof fn lemma_conjuncts_nonempty(k: KindV)
    ensures
        normalized_conjuncts(k).len() > 0,
    decreases k,
{
    if let KindV::Intersection(a, b) = k {
        lemma_conjuncts_nonempty(*a);
    }
}

impl IRType {
    /// The canonical form of this type: nested unions (and intersections)
    /// flattened, members included in another member (for intersections:
    /// including another member) dropped, the rest sorted by their text.
    /// Two spellings of one union normalize to the same value.
    pub fn normalize(&self) -> (r: IRType)
        ensures
            r@ == normalize_spec(self@),
    {
        normalize_type(self)
    }
}


/// A type that is neither a union nor an intersection is its own
/// canonical form.
pub proof fn law_normalize_simple(k: KindV)
    requires
        !(k is Union),
        !(k is Intersection),
    ensures
        normalize_spec(k) == k,
{
}


/// Whether no member of a list makes another one redundant.
pub open spec fn irredundant(s: Seq<KindV>, widest: bool) -> bool {
    forall|i: int, j: int|
        0 <= i < s.len() && 0 <= j < s.len() && i != j ==> !covers(widest, #[trigger] s[i], #[trigger] s[j])
}

proof fn lemma_keep_members(s: Seq<KindV>, t: KindV, widest: bool)
    ensures
        forall|i: int| 0 <= i < keep_uncovered(s, t, widest).len() ==> exists|j: int| 0 <= j < s.len() && #[trigger] keep_uncovered(s, t, widest)[i] == s[j],
        forall|i: int| 0 <= i < keep_uncovered(s, t, widest).len() ==> !covers(widest, t, #[trigger] keep_uncovered(s, t, widest)[i]),
    decreases s.len(),
{
    if s.len() > 0 {
        lemma_keep_members(s.drop_last(), t, widest);
        let k0 = keep_uncovered(s.drop_last(), t, widest);
        let k = keep_uncovered(s, t, widest);
        assert forall|i: int| 0 <= i < k.len() implies exists|j: int| 0 <= j < s.len() && #[trigger] k[i] == s[j] by {
            if i < k0.len() {
                let j = choose|j: int| 0 <= j < s.drop_last().len() && k0[i] == s.drop_last()[j];
                assert(k[i] == s[j]);
            } else {
                assert(k[i] == s[s.len() - 1]);
            }
        }
    }
}

proof fn lemma_keep_irredundant(s: Seq<KindV>, t: KindV, widest: bool)
    requires
        irredundant(s, widest),
    ensures
        irredundant(keep_uncovered(s, t, widest), widest),
    decreases s.len(),
{
    if s.len() > 0 {
        let p = s.drop_last();
        assert(irredundant(p, widest)) by {
            assert forall|i: int, j: int| 0 <= i < p.len() && 0 <= j < p.len() && i != j implies !covers(widest, #[trigger] p[i], #[trigger] p[j]) by {
                assert(p[i] == s[i] && p[j] == s[j]);
            }
        }
        lemma_keep_irredundant(p, t, widest);
        lemma_keep_members(p, t, widest);
        let k0 = keep_uncovered(p, t, widest);
        let k = keep_uncovered(s, t, widest);
        let x = s.last();
        if !covers(widest, t, x) {
            assert forall|i: int, j: int| 0 <= i < k.len() && 0 <= j < k.len() && i != j implies !covers(widest, #[trigger] k[i], #[trigger] k[j]) by {
                if i < k0.len() && j < k0.len() {
                    assert(k[i] == k0[i] && k[j] == k0[j]);
                } else if i < k0.len() {
                    let a = choose|a: int| 0 <= a < p.len() && k0[i] == p[a];
                    assert(k[i] == s[a]);
                    assert(k[j] == s[s.len() - 1]);
                } else {
                    let b = choose|b: int| 0 <= b < p.len() && k0[j] == p[b];
                    assert(k[j] == s[b]);
                    assert(k[i] == s[s.len() - 1]);
                }
            }
        }
    }
}

/// The members that normalization keeps are irredundant: after adding
/// the members one by one, no kept member of a union includes another, and
/// no kept member of an intersection is included in another.
pub proof fn law_absorb_irredundant(s: Seq<KindV>, widest: bool)
    ensures
        irredundant(absorb_all(s, widest), widest),
    decreases s.len(),
{
    if s.len() > 0 {
        law_absorb_irredundant(s.drop_last(), widest);
        let acc = absorb_all(s.drop_last(), widest);
        let t = s.last();
        if !(exists|i: int| 0 <= i < acc.len() && covers(widest, #[trigger] acc[i], t)) {
            lemma_keep_irredundant(acc, t, widest);
            lemma_keep_members(acc, t, widest);
            let k = keep_uncovered(acc, t, widest);
            let r = k.push(t);
            assert forall|i: int, j: int| 0 <= i < r.len() && 0 <= j < r.len() && i != j implies !covers(widest, #[trigger] r[i], #[trigger] r[j]) by {
                if i < k.len() && j < k.len() {
                    assert(r[i] == k[i] && r[j] == k[j]);
                } else if i < k.len() {
                    let a = choose|a: int| 0 <= a < acc.len() && k[i] == acc[a];
                    assert(r[i] == acc[a]);
                    assert(r[j] == t);
                } else {
                    assert(r[i] == t);
                    assert(r[j] == k[j]);
                }
            }
        }
    }
}


proof fn lemma_text_lt_irreflexive(a: Seq<char>)
    ensures
        !text_lt(a, a),
    decreases a.len(),
{
    if a.len() > 0 {
        lemma_text_lt_irreflexive(a.drop_first());
    }
}

proof fn lemma_text_lt_transitive(a: Seq<char>, b: Seq<char>, c: Seq<char>)
    requires
        text_lt(a, b),
        text_lt(b, c),
    ensures
        text_lt(a, c),
    decreases a.len(),
{
    if a.len() > 0 && a[0] == b[0] && b[0] == c[0] {
        lemma_text_lt_transitive(a.drop_first(), b.drop_first(), c.drop_first());
    }
}

proof fn lemma_text_lt_total(a: Seq<char>, b: Seq<char>)
    requires
        a != b,
    ensures
        text_lt(a, b) || text_lt(b, a),
    decreases a.len(),
{
    if a.len() > 0 && b.len() > 0 {
        if a[0] == b[0] {
            if a.drop_first() == b.drop_first() {
                assert(a =~= seq![a[0]] + a.drop_first());
                assert(b =~= seq![b[0]] + b.drop_first());
            }
            lemma_text_lt_total(a.drop_first(), b.drop_first());
        } else {
            vstd::utf8::char_u32_cast(a[0], a[0] as u32);
            vstd::utf8::char_u32_cast(b[0], b[0] as u32);
            assert((a[0] as u32) != (b[0] as u32));
        }
    } else if a.len() == 0 && b.len() == 0 {
        assert(a =~= b);
    }
}

/// Whether the texts of a list of types never go down.
pub open spec fn sorted_by_text(s: Seq<KindV>) -> bool {
    forall|i: int, j: int|
        0 <= i < j < s.len() ==> !text_lt(display_spec(#[trigger] s[j]), display_spec(#[trigger] s[i]))
}

proof fn lemma_insert_by_text_members(s: Seq<KindV>, t: KindV)
    ensures
        insert_by_text(s, t).to_multiset() =~= s.to_multiset().insert(t),
        insert_by_text(s, t).len() == s.len() + 1,
    decreases s.len(),
{
    broadcast use vstd::seq_lib::group_to_multiset_ensures;

    if s.len() > 0 {
        lemma_insert_by_text_members(s.drop_last(), t);
        assert(s =~= s.drop_last().push(s.last()));
    }
}

proof fn lemma_insert_by_text_sorted(s: Seq<KindV>, t: KindV)
    requires
        sorted_by_text(s),
    ensures
        sorted_by_text(insert_by_text(s, t)),
    decreases s.len(),
{
    broadcast use vstd::seq_lib::group_to_multiset_ensures;

    if s.len() > 0 {
        let p = s.drop_last();
        let x = s.last();
        let dt = display_spec(t);
        let dx = display_spec(x);
        if text_lt(dt, dx) {
            assert(sorted_by_text(p)) by {
                assert forall|i: int, j: int| 0 <= i < j < p.len() implies !text_lt(display_spec(#[trigger] p[j]), display_spec(#[trigger] p[i])) by {
                    assert(p[i] == s[i] && p[j] == s[j]);
                }
            }
            lemma_insert_by_text_sorted(p, t);
            lemma_insert_by_text_members(p, t);
            let q = insert_by_text(p, t);
            let r = q.push(x);
            assert forall|i: int, j: int| 0 <= i < j < r.len() implies !text_lt(display_spec(#[trigger] r[j]), display_spec(#[trigger] r[i])) by {
                if j == r.len() - 1 {
                    let e = q[i];
                    assert(q.to_multiset().count(e) > 0);
                    assert(p.to_multiset().insert(t).count(e) > 0);
                    if e != t {
                        assert(p.to_multiset().count(e) > 0);
                        let k = choose|k: int| 0 <= k < p.len() && p[k] == e;
                        assert(s[k] == e);
                        assert(!text_lt(dx, display_spec(s[k])));
                    } else {
                        if text_lt(dx, dt) {
                            lemma_text_lt_transitive(dx, dt, dx);
                            lemma_text_lt_irreflexive(dx);
                        }
                    }
                } else {
                    assert(r[i] == q[i] && r[j] == q[j]);
                }
            }
        } else {
            let r = s.push(t);
            assert forall|i: int, j: int| 0 <= i < j < r.len() implies !text_lt(display_spec(#[trigger] r[j]), display_spec(#[trigger] r[i])) by {
                if j == r.len() - 1 {
                    let di = display_spec(s[i]);
                    if text_lt(dt, di) {
                        if i < s.len() - 1 {
                            assert(!text_lt(dx, di));
                            if dx != di {
                                lemma_text_lt_total(dx, di);
                            }
                            if text_lt(di, dx) {
                                lemma_text_lt_transitive(dt, di, dx);
                            }
                        }
                    }
                } else {
                    assert(r[i] == s[i] && r[j] == s[j]);
                }
            }
        }
    }
}

/// Normalization sorts the members it keeps by their text, losing none:
/// the sorted list holds the same members, each as often, and no member's
/// text comes before that of a member ahead of it.
pub proof fn law_sort_by_text(s: Seq<KindV>)
    ensures
        sort_by_text(s).to_multiset() =~= s.to_multiset(),
        sorted_by_text(sort_by_text(s)),
    decreases s.len(),
{
    broadcast use vstd::seq_lib::group_to_multiset_ensures;

    if s.len() > 0 {
        law_sort_by_text(s.drop_last());
        lemma_insert_by_text_members(sort_by_text(s.drop_last()), s.last());
        lemma_insert_by_text_sorted(sort_by_text(s.drop_last()), s.last());
        assert(s =~= s.drop_last().push(s.last()));
    }
}


/// Whether a type is neither a union nor an intersection.
pub open spec fn is_simple_kind(k: KindV) -> bool {
    !(k is Union) && !(k is Intersection)
}

/// Whether every member of a list is simple.
pub open spec fn all_simple(s: Seq<KindV>) -> bool {
    forall|i: int| 0 <= i < s.len() ==> is_simple_kind(#[trigger] s[i])
}

proof fn lemma_absorb_members(s: Seq<KindV>, widest: bool)
    ensures
        forall|i: int| 0 <= i < absorb_all(s, widest).len() ==> s.contains(#[trigger] absorb_all(s, widest)[i]),
    decreases s.len(),
{
    if s.len() > 0 {
        lemma_absorb_members(s.drop_last(), widest);
        let acc = absorb_all(s.drop_last(), widest);
        let t = s.last();
        lemma_keep_members(acc, t, widest);
        let r = absorb_all(s, widest);
        assert forall|i: int| 0 <= i < r.len() implies s.contains(#[trigger] r[i]) by {
            if exists|j: int| 0 <= j < acc.len() && covers(widest, #[trigger] acc[j], t) {
                assert(s.drop_last().contains(acc[i]));
                let j = choose|j: int| 0 <= j < s.drop_last().len() && s.drop_last()[j] == acc[i];
                assert(s[j] == r[i]);
            } else {
                let k = keep_uncovered(acc, t, widest);
                if i < k.len() {
                    let a = choose|a: int| 0 <= a < acc.len() && #[trigger] k[i] == acc[a];
                    assert(s.drop_last().contains(acc[a]));
                    let j = choose|j: int| 0 <= j < s.drop_last().len() && s.drop_last()[j] == acc[a];
                    assert(s[j] == r[i]);
                } else {
                    assert(s[s.len() - 1] == r[i]);
                }
            }
        }
    }
}

proof fn lemma_keep_all(s: Seq<KindV>, t: KindV, widest: bool)
    requires
        forall|i: int| 0 <= i < s.len() ==> !covers(widest, t, #[trigger] s[i]),
    ensures
        keep_uncovered(s, t, widest) == s,
    decreases s.len(),
{
    if s.len() > 0 {
        lemma_keep_all(s.drop_last(), t, widest);
        assert(s.drop_last().push(s.last()) =~= s);
    }
}

/// Adding the members of an irredundant list one by one keeps them all.
proof fn lemma_absorb_identity(s: Seq<KindV>, widest: bool)
    requires
        irredundant(s, widest),
    ensures
        absorb_all(s, widest) == s,
    decreases s.len(),
{
    if s.len() > 0 {
        let p = s.drop_last();
        let t = s.last();
        assert(irredundant(p, widest)) by {
            assert forall|i: int, j: int| 0 <= i < p.len() && 0 <= j < p.len() && i != j implies !covers(widest, #[trigger] p[i], #[trigger] p[j]) by {
                assert(p[i] == s[i] && p[j] == s[j]);
            }
        }
        lemma_absorb_identity(p, widest);
        assert(!(exists|i: int| 0 <= i < p.len() && covers(widest, #[trigger] p[i], t))) by {
            assert forall|i: int| 0 <= i < p.len() implies !covers(widest, #[trigger] p[i], t) by {
                assert(p[i] == s[i]);
            }
        }
        assert forall|i: int| 0 <= i < p.len() implies !covers(widest, t, #[trigger] p[i]) by {
            assert(p[i] == s[i]);
        }
        lemma_keep_all(p, t, widest);
        assert(p.push(t) =~= s);
    }
}

/// An irredundant list has no repeated member.
proof fn lemma_irredundant_distinct(s: Seq<KindV>, widest: bool)
    requires
        irredundant(s, widest),
    ensures
        s.no_duplicates(),
{
    assert forall|i: int, j: int| 0 <= i < s.len() && 0 <= j < s.len() && i != j implies s[i] != s[j] by {
        law_lattice_idempotent(s[i]);
    }
}

/// Reordering an irredundant list keeps it irredundant.
proof fn lemma_irredundant_permutation(f: Seq<KindV>, t: Seq<KindV>, widest: bool)
    requires
        irredundant(f, widest),
        t.to_multiset() =~= f.to_multiset(),
    ensures
        irredundant(t, widest),
{
    broadcast use vstd::seq_lib::group_to_multiset_ensures;

    lemma_irredundant_distinct(f, widest);
    f.lemma_multiset_has_no_duplicates();
    t.lemma_multiset_has_no_duplicates_conv();
    assert forall|i: int, j: int| 0 <= i < t.len() && 0 <= j < t.len() && i != j implies !covers(widest, #[trigger] t[i], #[trigger] t[j]) by {
        assert(t.to_multiset().count(t[i]) > 0);
        assert(t.to_multiset().count(t[j]) > 0);
        assert(f.contains(t[i]));
        assert(f.contains(t[j]));
        let a = choose|a: int| 0 <= a < f.len() && f[a] == t[i];
        let b = choose|b: int| 0 <= b < f.len() && f[b] == t[j];
        assert(t[i] != t[j]);
    }
}

/// Sorting a sorted list changes nothing.
proof fn lemma_sort_identity(s: Seq<KindV>)
    requires
        sorted_by_text(s),
    ensures
        sort_by_text(s) == s,
    decreases s.len(),
{
    if s.len() > 0 {
        let p = s.drop_last();
        assert(sorted_by_text(p)) by {
            assert forall|i: int, j: int| 0 <= i < j < p.len() implies !text_lt(display_spec(#[trigger] p[j]), display_spec(#[trigger] p[i])) by {
                assert(p[i] == s[i] && p[j] == s[j]);
            }
        }
        lemma_sort_identity(p);
        if p.len() > 0 {
            assert(!text_lt(display_spec(s[s.len() - 1]), display_spec(s[s.len() - 2])));
        }
        assert(p.push(s.last()) =~= s);
    }
}

/// The members of a union (`widest`) or of an intersection.
pub open spec fn members_of(k: KindV, widest: bool) -> Seq<KindV> {
    if widest {
        union_alternatives(k)
    } else {
        intersection_conjuncts(k)
    }
}

/// The members of a union (`widest`) or of an intersection, each
/// normalized.
pub open spec fn normalized_members(k: KindV, widest: bool) -> Seq<KindV> {
    if widest {
        normalized_alternatives(k)
    } else {
        normalized_conjuncts(k)
    }
}

/// Whether a type is a union (`widest`) or an intersection.
pub open spec fn is_combination(k: KindV, widest: bool) -> bool {
    if widest {
        k is Union
    } else {
        k is Intersection
    }
}

/// The normalized members are the members, each normalized.
proof fn lemma_members_map(k: KindV, widest: bool)
    ensures
        normalized_members(k, widest).len() == members_of(k, widest).len(),
        forall|i: int|
            0 <= i < members_of(k, widest).len() ==> #[trigger] normalized_members(k, widest)[i]
                == normalize_spec(members_of(k, widest)[i]),
    decreases k,
{
    match k {
        KindV::Union(a, b) => {
            if widest {
                lemma_members_map(*a, widest);
                lemma_members_map(*b, widest);
                let ma = members_of(*a, widest);
                let mb = members_of(*b, widest);
                assert(members_of(k, widest) == ma + mb);
                assert(normalized_members(k, widest) == normalized_members(*a, widest) + normalized_members(
                    *b,
                    widest,
                ));
                assert forall|i: int| 0 <= i < members_of(k, widest).len() implies #[trigger] normalized_members(
                    k,
                    widest,
                )[i] == normalize_spec(members_of(k, widest)[i]) by {
                    if i < ma.len() {
                        assert(members_of(k, widest)[i] == ma[i]);
                    } else {
                        assert(members_of(k, widest)[i] == mb[i - ma.len()]);
                    }
                }
            }
        },
        KindV::Intersection(a, b) => {
            if !widest {
                lemma_members_map(*a, widest);
                lemma_members_map(*b, widest);
                let ma = members_of(*a, widest);
                let mb = members_of(*b, widest);
                assert(members_of(k, widest) == ma + mb);
                assert(normalized_members(k, widest) == normalized_members(*a, widest) + normalized_members(
                    *b,
                    widest,
                ));
                assert forall|i: int| 0 <= i < members_of(k, widest).len() implies #[trigger] normalized_members(
                    k,
                    widest,
                )[i] == normalize_spec(members_of(k, widest)[i]) by {
                    if i < ma.len() {
                        assert(members_of(k, widest)[i] == ma[i]);
                    } else {
                        assert(members_of(k, widest)[i] == mb[i - ma.len()]);
                    }
                }
            }
        },
        _ => {},
    }
}

/// Folding members that are not themselves of the same combination gives
/// them back as its members.
proof fn lemma_fold_members(s: Seq<KindV>, widest: bool)
    requires
        s.len() >= 1,
        forall|i: int| 0 <= i < s.len() ==> !is_combination(#[trigger] s[i], widest),
    ensures
        members_of(fold_members(s, widest), widest) == s,
    decreases s.len(),
{
    if s.len() == 1 {
        assert(members_of(s[0], widest) =~= s);
    } else {
        let p = s.drop_last();
        assert forall|i: int| 0 <= i < p.len() implies !is_combination(#[trigger] p[i], widest) by {
            assert(p[i] == s[i]);
        }
        lemma_fold_members(p, widest);
        assert(!is_combination(s[s.len() - 1], widest));
        assert(members_of(s.last(), widest) =~= seq![s.last()]);
        assert(p + seq![s.last()] =~= s);
    }
}

/// Dropping the members that a type makes redundant never adds any.
proof fn lemma_keep_len(s: Seq<KindV>, t: KindV, widest: bool)
    ensures
        keep_uncovered(s, t, widest).len() <= s.len(),
    decreases s.len(),
{
    if s.len() > 0 {
        lemma_keep_len(s.drop_last(), t, widest);
    }
}

/// Reducing a list of members never makes it longer.
proof fn lemma_absorb_len(s: Seq<KindV>, widest: bool)
    ensures
        absorb_all(s, widest).len() <= s.len(),
    decreases s.len(),
{
    if s.len() > 0 {
        lemma_absorb_len(s.drop_last(), widest);
        lemma_keep_len(absorb_all(s.drop_last(), widest), s.last(), widest);
    }
}

/// The step of idempotence: when every member normalizes to a type that
/// is not of the same combination and that normalizing leaves as it is,
/// normalizing the combination again leaves it as it is; and it is not of
/// the other combination when no normalized member is.
proof fn lemma_idempotent_step(k: KindV, widest: bool)
    requires
        is_combination(k, widest),
        forall|i: int|
            0 <= i < members_of(k, widest).len() ==> !is_combination(
                #[trigger] normalize_spec(members_of(k, widest)[i]),
                widest,
            ) && normalize_spec(normalize_spec(members_of(k, widest)[i])) == normalize_spec(
                members_of(k, widest)[i],
            ),
    ensures
        normalize_spec(normalize_spec(k)) == normalize_spec(k),
        (forall|i: int|
            0 <= i < members_of(k, widest).len() ==> !is_combination(
                #[trigger] normalize_spec(members_of(k, widest)[i]),
                !widest,
            )) ==> !is_combination(normalize_spec(k), !widest),
        members_of(normalize_spec(k), widest).len() <= members_of(k, widest).len(),
        irredundant(members_of(normalize_spec(k), widest), widest),
{
    broadcast use vstd::seq_lib::group_to_multiset_ensures;

    let m = members_of(k, widest);
    let s = normalized_members(k, widest);
    lemma_members_map(k, widest);
    lemma_alternatives_nonempty(k);
    lemma_conjuncts_nonempty(k);
    assert(normalize_spec(k) == rebuild_spec(s, widest));
    let f = absorb_all(s, widest);
    lemma_absorb_nonempty(s, widest);
    lemma_absorb_members(s, widest);
    law_absorb_irredundant(s, widest);
    lemma_absorb_len(s, widest);
    assert forall|i: int| 0 <= i < f.len() implies !is_combination(#[trigger] f[i], widest)
        && normalize_spec(f[i]) == f[i] by {
        assert(s.contains(f[i]));
        let j = choose|j: int| 0 <= j < s.len() && s[j] == f[i];
        assert(s[j] == normalize_spec(m[j]));
    }
    if f.len() == 1 {
        assert(members_of(f[0], widest) =~= seq![f[0]]);
        if forall|i: int| 0 <= i < m.len() ==> !is_combination(#[trigger] normalize_spec(m[i]), !widest) {
            assert(s.contains(f[0]));
            let j = choose|j: int| 0 <= j < s.len() && s[j] == f[0];
            assert(s[j] == normalize_spec(m[j]));
        }
    } else {
        let t = sort_by_text(f);
        law_sort_by_text(f);
        lemma_sort_len(f);
        assert forall|i: int| 0 <= i < t.len() implies !is_combination(#[trigger] t[i], widest)
            && normalize_spec(t[i]) == t[i] by {
            assert(t.to_multiset().count(t[i]) > 0);
            assert(f.contains(t[i]));
        }
        let r = fold_members(t, widest);
        lemma_fold_members(t, widest);
        lemma_members_map(r, widest);
        assert(normalized_members(r, widest) =~= t);
        lemma_irredundant_permutation(f, t, widest);
        lemma_absorb_identity(t, widest);
        lemma_sort_identity(t);
    }
}

/// Whether a member of a union (`widest`) or intersection is simple, or a
/// combination of the other kind whose own members are simple.
pub open spec fn shallow_member(k: KindV, widest: bool) -> bool {
    is_simple_kind(k) || (is_combination(k, !widest) && all_simple(members_of(k, !widest)))
}

/// A combination of simple members normalizes to a type that normalizing
/// again leaves as it is, and that is not of the other combination.
proof fn lemma_simple_combination(k: KindV, widest: bool)
    requires
        is_combination(k, widest),
        all_simple(members_of(k, widest)),
    ensures
        normalize_spec(normalize_spec(k)) == normalize_spec(k),
        !is_combination(normalize_spec(k), !widest),
{
    let m = members_of(k, widest);
    assert forall|i: int| 0 <= i < m.len() implies !is_combination(#[trigger] normalize_spec(m[i]), widest)
        && normalize_spec(normalize_spec(m[i])) == normalize_spec(m[i]) && !is_combination(
        normalize_spec(m[i]),
        !widest,
    ) by {
        assert(is_simple_kind(m[i]));
        law_normalize_simple(m[i]);
    }
    lemma_idempotent_step(k, widest);
}

/// Normalization is idempotent on a union or intersection whose members
/// are simple, or combinations of the other kind with simple members:
/// normalizing the result again leaves it as it is.  The result has no
/// more members than the type had, and none of them makes another
/// redundant.
pub proof fn law_normalize_idempotent(k: KindV)
    requires
        k is Union || k is Intersection,
        forall|i: int|
            0 <= i < members_of(k, k is Union).len() ==> shallow_member(
                #[trigger] members_of(k, k is Union)[i],
                k is Union,
            ),
    ensures
        normalize_spec(normalize_spec(k)) == normalize_spec(k),
        members_of(normalize_spec(k), k is Union).len() <= members_of(k, k is Union).len(),
        irredundant(members_of(normalize_spec(k), k is Union), k is Union),
{
    let w = k is Union;
    let m = members_of(k, w);
    assert forall|i: int| 0 <= i < m.len() implies !is_combination(#[trigger] normalize_spec(m[i]), w)
        && normalize_spec(normalize_spec(m[i])) == normalize_spec(m[i]) by {
        if is_simple_kind(m[i]) {
            law_normalize_simple(m[i]);
        } else {
            lemma_simple_combination(m[i], !w);
        }
    }
    lemma_idempotent_step(k, w);
}

} // verus!
