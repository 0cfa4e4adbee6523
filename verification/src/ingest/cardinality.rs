//! Metric series cardinality guard.
//!
//! Every distinct (name, service, label set) is a series the store must track
//! forever after. This guard caps the number of distinct series that are
//! accepted: points on series already seen always pass, points that would mint
//! a series beyond the cap are dropped and counted. The cap is a setting; `0`
//! disables the guard.

use crate::ingest::backpressure::{cap_of, read_cap};
use crate::labels::{finite_maps_can_be_sorted, labels_are_finite, sorted_pairs, Labels};
use crate::metrics::MetricPoint;
use crate::text::{less, same, text_less, texts};
use vstd::prelude::*;

verus! {

pub const DEFAULT_SERIES_LIMIT: usize = 100000;

// ── Identities ──────────────────────────────────────────────────────

/// The names and values of pairs, one after the other.
pub open spec fn flattened(pairs: Seq<(Seq<char>, Seq<char>)>) -> Seq<Seq<char>>
    decreases pairs.len(),
{
    if pairs.len() == 0 {
        Seq::empty()
    } else {
        flattened(pairs.drop_last()).push(pairs.last().0).push(pairs.last().1)
    }
}

/// What tells one series from another: name, service, and full label set in
/// the order of the label names.
pub open spec fn identity_of(p: MetricPoint) -> Seq<Seq<char>> {
    seq![p.name@, p.service@] + flattened(sorted_pairs(p.attributes@))
}

/// Put the names and values of labels behind some texts.
pub fn push_labels(out: &mut Vec<String>, labels: &Labels)
    ensures
        texts(final(out)@) == texts(old(out)@) + flattened(sorted_pairs(labels@)),
{
    let n: usize = labels.len();
    let ghost pairs = sorted_pairs(labels@);
    let ghost head = texts(out@);
    let mut i: usize = 0;
    assert(texts(out@) =~= head + flattened(pairs.take(0)));
    while i < n
        invariant
            i <= n == labels.pairs().len(),
            pairs == labels.pairs(),
            texts(out@) == head + flattened(pairs.take(i as int)),
        decreases n - i,
    {
        let ghost before = out@;
        let name = labels.name_at(i).clone();
        let value = labels.value_at(i).clone();
        out.push(name);
        out.push(value);
        proof {
            assert(pairs.take(i as int + 1).drop_last() =~= pairs.take(i as int));
            assert(texts(out@) =~= texts(before).push(name@).push(value@));
            assert(head + flattened(pairs.take(i as int + 1)) =~= (head + flattened(
                pairs.take(i as int),
            )).push(name@).push(value@));
        }
        i = i + 1;
    }
    assert(pairs.take(n as int) =~= pairs);
}

/// The identity of a point's series: name, service, and full label set.
pub fn series_identity(point: &MetricPoint) -> (r: Vec<String>)
    ensures
        texts(r@) == identity_of(*point),
{
    let mut out: Vec<String> = Vec::new();
    out.push(point.name.clone());
    out.push(point.service.clone());
    assert(texts(out@) =~= seq![point.name@, point.service@]);
    push_labels(&mut out, &point.attributes);
    out
}

/// Two points have the same identity exactly when they agree on name, service
/// and labels; the order in which labels were given makes no difference.
pub proof fn identity_is_the_series(p: MetricPoint, q: MetricPoint)
    ensures
        identity_of(p) == identity_of(q) <==> p.name@ == q.name@ && p.service@ == q.service@
            && p.attributes@ == q.attributes@,
{
    let a = sorted_pairs(p.attributes@);
    let b = sorted_pairs(q.attributes@);
    labels_are_finite(p.attributes);
    labels_are_finite(q.attributes);
    finite_maps_can_be_sorted(p.attributes@);
    finite_maps_can_be_sorted(q.attributes@);
    if identity_of(p) == identity_of(q) {
        assert(identity_of(p)[0] == p.name@ && identity_of(q)[0] == q.name@);
        assert(identity_of(p)[1] == p.service@ && identity_of(q)[1] == q.service@);
        assert(flattened(a) =~= identity_of(p).skip(2));
        assert(flattened(b) =~= identity_of(q).skip(2));
        flattened_injective(a, b);
    }
}

/// Pairs are told apart by their names and values in a row.
pub proof fn flattened_injective(a: Seq<(Seq<char>, Seq<char>)>, b: Seq<(Seq<char>, Seq<char>)>)
    requires
        flattened(a) == flattened(b),
    ensures
        a == b,
    decreases a.len(),
{
    flattened_len(a);
    flattened_len(b);
    if a.len() == 0 {
        assert(a =~= b);
    } else {
        let fa = flattened(a);
        let fb = flattened(b);
        assert(fa[fa.len() - 1] == a.last().1 && fa[fa.len() - 2] == a.last().0);
        assert(fb[fb.len() - 1] == b.last().1 && fb[fb.len() - 2] == b.last().0);
        assert(flattened(a.drop_last()) =~= fa.take(fa.len() - 2));
        assert(flattened(b.drop_last()) =~= fb.take(fb.len() - 2));
        flattened_injective(a.drop_last(), b.drop_last());
        assert(a =~= a.drop_last().push(a.last()));
        assert(b =~= b.drop_last().push(b.last()));
    }
}

proof fn flattened_len(a: Seq<(Seq<char>, Seq<char>)>)
    ensures
        flattened(a).len() == 2 * a.len(),
    decreases a.len(),
{
    if a.len() > 0 {
        flattened_len(a.drop_last());
    }
}

// ── An order of identities ──────────────────────────────────────────

/// Whether one identity comes before another, text by text.
pub open spec fn identity_less(a: Seq<Seq<char>>, b: Seq<Seq<char>>) -> bool
    decreases a.len(),
{
    if b.len() == 0 {
        false
    } else if a.len() == 0 {
        true
    } else if a[0] == b[0] {
        identity_less(a.drop_first(), b.drop_first())
    } else {
        text_less(a[0], b[0])
    }
}

proof fn identity_irreflexive(a: Seq<Seq<char>>)
    ensures
        !identity_less(a, a),
    decreases a.len(),
{
    if a.len() > 0 {
        identity_irreflexive(a.drop_first());
    }
}

proof fn identity_transitive(a: Seq<Seq<char>>, b: Seq<Seq<char>>, c: Seq<Seq<char>>)
    requires
        identity_less(a, b),
        identity_less(b, c),
    ensures
        identity_less(a, c),
    decreases a.len(),
{
    if a.len() > 0 && b.len() > 0 && c.len() > 0 {
        if a[0] == b[0] && b[0] == c[0] {
            identity_transitive(a.drop_first(), b.drop_first(), c.drop_first());
        } else if a[0] != b[0] && b[0] != c[0] {
            crate::text::text_less_transitive(a[0], b[0], c[0]);
            crate::text::text_less_irreflexive(a[0]);
        }
    }
}

proof fn identity_total(a: Seq<Seq<char>>, b: Seq<Seq<char>>)
    ensures
        identity_less(a, b) || identity_less(b, a) || a == b,
    decreases a.len(),
{
    if a.len() > 0 && b.len() > 0 {
        if a[0] == b[0] {
            identity_total(a.drop_first(), b.drop_first());
            if a.drop_first() == b.drop_first() {
                assert(a =~= seq![a[0]] + a.drop_first());
                assert(b =~= seq![b[0]] + b.drop_first());
            }
        } else {
            crate::text::text_less_total(a[0], b[0]);
        }
    } else if a.len() == 0 && b.len() == 0 {
        assert(a =~= b);
    }
}

fn identity_before(a: &Vec<String>, b: &Vec<String>) -> (r: bool)
    ensures
        r == identity_less(texts(a@), texts(b@)),
{
    let ghost x = texts(a@);
    let ghost y = texts(b@);
    let mut i: usize = 0;
    assert(x.skip(0) =~= x);
    assert(y.skip(0) =~= y);
    while i < a.len() && i < b.len()
        invariant
            i <= a@.len(),
            i <= b@.len(),
            x == texts(a@),
            y == texts(b@),
            identity_less(x, y) == identity_less(x.skip(i as int), y.skip(i as int)),
        decreases a@.len() - i,
    {
        assert(x.skip(i as int)[0] == a@[i as int]@);
        assert(y.skip(i as int)[0] == b@[i as int]@);
        if !same(a[i].as_str(), b[i].as_str()) {
            return less(a[i].as_str(), b[i].as_str());
        }
        assert(x.skip(i as int).drop_first() =~= x.skip(i as int + 1));
        assert(y.skip(i as int).drop_first() =~= y.skip(i as int + 1));
        i = i + 1;
    }
    i < b.len()
}

// ── The guard ───────────────────────────────────────────────────────

/// The series seen so far, the cap, and what the cap has cost.
#[derive(Debug)]
pub struct SeriesGuard {
    seen: Vec<Vec<String>>,
    limit: usize,
    dropped: u64,
}

spec fn identities(seen: Seq<Vec<String>>) -> Seq<Seq<Seq<char>>> {
    seen.map_values(|id: Vec<String>| texts(id@))
}

spec fn ids_ascend(ids: Seq<Seq<Seq<char>>>) -> bool {
    forall|i: int, j: int|
        0 <= i < j < ids.len() ==> identity_less(#[trigger] ids[i], #[trigger] ids[j])
}

/// What passes the guard, and the series seen afterwards: a point on a known
/// series passes; one on a new series passes while there is room.
pub open spec fn admitted(
    seen: Set<Seq<Seq<char>>>,
    limit: nat,
    points: Seq<MetricPoint>,
) -> (Set<Seq<Seq<char>>>, Seq<MetricPoint>)
    decreases points.len(),
{
    if points.len() == 0 {
        (seen, Seq::empty())
    } else {
        let (known, kept) = admitted(seen, limit, points.drop_last());
        let p = points.last();
        if known.contains(identity_of(p)) {
            (known, kept.push(p))
        } else if known.len() >= limit {
            (known, kept)
        } else {
            (known.insert(identity_of(p)), kept.push(p))
        }
    }
}

impl SeriesGuard {
    #[verifier::type_invariant]
    spec fn wf(self) -> bool {
        &&& ids_ascend(identities(self.seen@))
        &&& self.limit > 0 ==> self.seen@.len() <= self.limit
    }

    /// The series seen so far.
    pub closed spec fn known(&self) -> Set<Seq<Seq<char>>> {
        identities(self.seen@).to_set()
    }

    pub closed spec fn cap(&self) -> nat {
        self.limit as nat
    }

    pub closed spec fn lost(&self) -> u64 {
        self.dropped
    }

    /// A guard that has seen nothing, with the cap that a setting names.
    pub fn new(setting: Option<&str>) -> (r: SeriesGuard)
        ensures
            r.known() == Set::<Seq<Seq<char>>>::empty(),
            r.cap() == cap_of(
                match setting {
                    Some(s) => Some(s@),
                    None => None,
                },
                DEFAULT_SERIES_LIMIT,
            ),
            r.lost() == 0,
    {
        let r = SeriesGuard {
            seen: Vec::new(),
            limit: read_cap(setting, DEFAULT_SERIES_LIMIT),
            dropped: 0,
        };
        assert(r.known() =~= Set::<Seq<Seq<char>>>::empty());
        r
    }

    /// The position of an identity, or where it would stand.
    fn search(&self, id: &Vec<String>) -> (r: (usize, bool))
        ensures
            ids_ascend(identities(self.seen@)),
            r.0 <= self.seen@.len(),
            r.1 ==> r.0 < self.seen@.len() && identities(self.seen@)[r.0 as int] == texts(id@),
            !r.1 ==> forall|i: int|
                0 <= i < r.0 ==> identity_less(#[trigger] identities(self.seen@)[i], texts(id@)),
            !r.1 ==> forall|i: int|
                r.0 <= i < self.seen@.len() ==> identity_less(
                    texts(id@),
                    #[trigger] identities(self.seen@)[i],
                ),
    {
        proof {
            use_type_invariant(self);
        }
        let ghost ids = identities(self.seen@);
        let ghost key = texts(id@);
        let mut lo: usize = 0;
        let mut hi: usize = self.seen.len();
        while lo < hi
            invariant
                lo <= hi <= self.seen@.len(),
                ids == identities(self.seen@),
                key == texts(id@),
                ids_ascend(ids),
                forall|i: int| 0 <= i < lo ==> identity_less(#[trigger] ids[i], key),
                forall|i: int| hi <= i < ids.len() ==> identity_less(key, #[trigger] ids[i]),
            decreases hi - lo,
        {
            let mid: usize = lo + (hi - lo) / 2;
            let ghost here = ids[mid as int];
            assert(here == texts(self.seen@[mid as int]@));
            if identity_before(&self.seen[mid], id) {
                proof {
                    assert forall|i: int| 0 <= i < mid + 1 implies identity_less(
                        #[trigger] ids[i],
                        key,
                    ) by {
                        if i < mid {
                            identity_transitive(ids[i], here, key);
                        }
                    }
                }
                lo = mid + 1;
            } else if identity_before(id, &self.seen[mid]) {
                proof {
                    assert forall|i: int| mid <= i < ids.len() implies identity_less(
                        key,
                        #[trigger] ids[i],
                    ) by {
                        if i > mid {
                            identity_transitive(key, here, ids[i]);
                        }
                    }
                }
                hi = mid;
            } else {
                proof {
                    identity_total(here, key);
                }
                return (mid, true);
            }
        }
        (lo, false)
    }

    /// Whether a point passes. A new series is remembered when it does.
    fn pass(&mut self, point: &MetricPoint) -> (r: bool)
        ensures
            final(self).cap() == old(self).cap(),
            final(self).lost() == old(self).lost(),
            r == (old(self).known().contains(identity_of(*point)) || old(self).known().len() < old(
                self,
            ).cap()),
            final(self).known() == if r {
                old(self).known().insert(identity_of(*point))
            } else {
                old(self).known()
            },
    {
        let id = series_identity(point);
        let ghost key = identity_of(*point);
        let (at, found) = self.search(&id);
        proof {
            use_type_invariant(&*self);
        }
        let ghost before = identities(self.seen@);
        proof {
            ascending_distinct(before);
            before.unique_seq_to_set();
        }
        if found {
            assert(before.contains(key)) by {
                assert(before[at as int] == key);
            }
            assert(self.known() =~= self.known().insert(key));
            return true;
        }
        assert(!before.contains(key)) by {
            if before.contains(key) {
                let i = choose|i: int| 0 <= i < before.len() && before[i] == key;
                identity_irreflexive(key);
            }
        }
        if self.seen.len() >= self.limit {
            return false;
        }
        let mut seen: Vec<Vec<String>> = Vec::new();
        std::mem::swap(&mut seen, &mut self.seen);
        seen.insert(at, id);
        proof {
            let after = identities(seen@);
            assert(after =~= before.insert(at as int, key));
            assert forall|i: int, j: int| 0 <= i < j < after.len() implies identity_less(
                #[trigger] after[i],
                #[trigger] after[j],
            ) by {
                let oi = if i < at { i } else { i - 1 };
                let oj = if j < at { j } else { j - 1 };
                if i != at && j != at {
                    assert(identity_less(before[oi], before[oj]));
                } else if i == at {
                    assert(identity_less(key, before[oj]));
                } else {
                    assert(identity_less(before[oi], key));
                }
            }
            assert(after.to_set() =~= before.to_set().insert(key)) by {
                assert forall|x: Seq<Seq<char>>| #[trigger] after.contains(x) == (before.contains(x)
                    || x == key) by {
                    if before.contains(x) {
                        let i = choose|i: int| 0 <= i < before.len() && before[i] == x;
                        assert(after[if i < at { i } else { i + 1 }] == x);
                    }
                    if x == key {
                        assert(after[at as int] == key);
                    }
                    if after.contains(x) {
                        let i = choose|i: int| 0 <= i < after.len() && after[i] == x;
                        if i != at {
                            assert(before[if i < at { i } else { i - 1 }] == x);
                        }
                    }
                }
            }
        }
        self.seen = seen;
        true
    }
}

proof fn ascending_distinct(ids: Seq<Seq<Seq<char>>>)
    requires
        ids_ascend(ids),
    ensures
        ids.no_duplicates(),
{
    assert forall|i: int, j: int| 0 <= i < ids.len() && 0 <= j < ids.len() && i != j implies ids[i]
        != ids[j] by {
        identity_irreflexive(ids[i]);
        if i < j {
            assert(identity_less(ids[i], ids[j]));
        } else {
            assert(identity_less(ids[j], ids[i]));
        }
    }
}

/// Drop points that would mint a series beyond the cap. Returns how many were
/// dropped.
pub fn admit_points(guard: &mut SeriesGuard, points: &mut Vec<MetricPoint>) -> (r: u64)
    ensures
        final(guard).cap() == old(guard).cap(),
        old(guard).cap() == 0 ==> r == 0 && final(points)@ == old(points)@ && final(guard).known()
            == old(guard).known() && final(guard).lost() == old(guard).lost(),
        old(guard).cap() > 0 ==> {
            let (known, kept) = admitted(old(guard).known(), old(guard).cap(), old(points)@);
            &&& final(guard).known() == known
            &&& known.len() <= old(guard).cap()
            &&& final(points)@ == kept
            &&& r == old(points)@.len() - kept.len()
            &&& final(guard).lost() == old(guard).lost().wrapping_add(r)
        },
{
    if guard.limit == 0 {
        return 0;
    }
    let ghost all = points@;
    let ghost seen = guard.known();
    let ghost cap = guard.cap();
    let mut batch: Vec<MetricPoint> = Vec::new();
    std::mem::swap(&mut batch, points);
    let mut kept: Vec<MetricPoint> = Vec::new();
    let mut dropped: u64 = 0;
    let total: usize = batch.len();
    for p in it: batch
        invariant
            it.seq() == all,
            total == all.len(),
            guard.cap() == cap,
            guard.lost() == old(guard).lost(),
            admitted(seen, cap, all.take(it.index())) == (guard.known(), kept@),
            dropped + kept@.len() == it.index(),
    {
        proof {
            assert(all.take(it.index() + 1).drop_last() =~= all.take(it.index()));
            assert(all.take(it.index() + 1).last() == p);
        }
        let ghost known = guard.known();
        if guard.pass(&p) {
            kept.push(p);
            proof {
                if known.contains(identity_of(p)) {
                    assert(known.insert(identity_of(p)) =~= known);
                }
            }
        } else {
            dropped = dropped + 1;
        }
    }
    assert(all.take(all.len() as int) =~= all);
    *points = kept;
    proof {
        use_type_invariant(&*guard);
        ascending_distinct(identities(guard.seen@));
        identities(guard.seen@).unique_seq_to_set();
    }
    guard.count_lost(dropped);
    dropped
}

impl SeriesGuard {
    fn count_lost(&mut self, n: u64)
        ensures
            final(self).known() == old(self).known(),
            final(self).cap() == old(self).cap(),
            final(self).lost() == old(self).lost().wrapping_add(n),
    {
        proof {
            use_type_invariant(&*self);
        }
        self.dropped = self.dropped.wrapping_add(n);
    }
}

/// Distinct series seen.
pub fn tracked_series(guard: &SeriesGuard) -> (r: usize)
    ensures
        r == guard.known().len(),
        guard.cap() > 0 ==> r <= guard.cap(),
{
    proof {
        use_type_invariant(guard);
        ascending_distinct(identities(guard.seen@));
        identities(guard.seen@).unique_seq_to_set();
    }
    guard.seen.len()
}

/// Total points dropped by the cap.
pub fn dropped_points(guard: &SeriesGuard) -> (r: u64)
    ensures
        r == guard.lost(),
{
    guard.dropped
}

/// The cap (`0` = unbounded).
pub fn series_limit(guard: &SeriesGuard) -> (r: usize)
    ensures
        r == guard.cap(),
{
    guard.limit
}

// ── Laws ────────────────────────────────────────────────────────────

/// A guard has seen finitely many series.
pub proof fn known_series_are_finite(guard: SeriesGuard)
    ensures
        guard.known().finite(),
{
    vstd::seq_lib::seq_to_set_is_finite(identities(guard.seen@));
}

/// A batch of points whose series are all known passes whole, and the cap is
/// never exceeded unless it was before.
pub proof fn known_series_always_pass(
    seen: Set<Seq<Seq<char>>>,
    limit: nat,
    points: Seq<MetricPoint>,
)
    requires
        forall|i: int|
            0 <= i < points.len() ==> seen.contains(identity_of(#[trigger] points[i])),
    ensures
        admitted(seen, limit, points) == (seen, points),
    decreases points.len(),
{
    if points.len() > 0 {
        let init = points.drop_last();
        assert forall|i: int| 0 <= i < init.len() implies seen.contains(
            identity_of(#[trigger] init[i]),
        ) by {
            assert(init[i] == points[i]);
        }
        known_series_always_pass(seen, limit, init);
        assert(points =~= init.push(points.last()));
        assert(seen.contains(identity_of(points[points.len() - 1])));
    } else {
        assert(points =~= Seq::empty());
    }
}

/// The points that passed pass again: a second pass over them drops nothing and
/// teaches the guard nothing.
pub proof fn kept_points_pass_again(
    seen: Set<Seq<Seq<char>>>,
    limit: nat,
    points: Seq<MetricPoint>,
)
    ensures
        ({
            let (known, kept) = admitted(seen, limit, points);
            admitted(known, limit, kept) == (known, kept)
        }),
{
    let (known, kept) = admitted(seen, limit, points);
    kept_points_are_known(seen, limit, points);
    known_series_always_pass(known, limit, kept);
}

proof fn kept_points_are_known(
    seen: Set<Seq<Seq<char>>>,
    limit: nat,
    points: Seq<MetricPoint>,
)
    ensures
        forall|i: int|
            0 <= i < admitted(seen, limit, points).1.len() ==> admitted(
                seen,
                limit,
                points,
            ).0.contains(identity_of(#[trigger] admitted(seen, limit, points).1[i])),
    decreases points.len(),
{
    if points.len() > 0 {
        kept_points_are_known(seen, limit, points.drop_last());
        let (known, kept) = admitted(seen, limit, points.drop_last());
        let (known2, kept2) = admitted(seen, limit, points);
        assert forall|i: int| 0 <= i < kept2.len() implies known2.contains(
            identity_of(#[trigger] kept2[i]),
        ) by {
            if i < kept.len() {
                assert(kept2[i] == kept[i]);
            }
        }
    }
}

/// The guard never comes to know more series than the cap allows, nor forgets
/// one.
pub proof fn cap_holds(seen: Set<Seq<Seq<char>>>, limit: nat, points: Seq<MetricPoint>)
    requires
        seen.finite(),
        seen.len() <= limit,
    ensures
        admitted(seen, limit, points).0.finite(),
        admitted(seen, limit, points).0.len() <= limit,
        seen.subset_of(admitted(seen, limit, points).0),
    decreases points.len(),
{
    if points.len() > 0 {
        cap_holds(seen, limit, points.drop_last());
    }
}

/// A new series passes while there is room, and is known from then on; without
/// room it is left out and nothing changes.
pub proof fn new_series_pass_while_there_is_room(
    seen: Set<Seq<Seq<char>>>,
    limit: nat,
    points: Seq<MetricPoint>,
    p: MetricPoint,
)
    requires
        !admitted(seen, limit, points).0.contains(identity_of(p)),
    ensures
        ({
            let (known, kept) = admitted(seen, limit, points);
            let (known2, kept2) = admitted(seen, limit, points.push(p));
            &&& known.len() < limit ==> kept2 == kept.push(p) && known2 == known.insert(
                identity_of(p),
            )
            &&& known.len() >= limit ==> kept2 == kept && known2 == known
        }),
{
    assert(points.push(p).drop_last() =~= points);
}

} // verus!
