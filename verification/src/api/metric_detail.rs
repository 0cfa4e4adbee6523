//! Everything known about one metric.

use crate::doubles::{greater, greater_of, lesser, lesser_of};
use crate::ingest::cardinality::{identity_of, series_identity};
use crate::labels::{distinct_texts, sorted_distinct, sorted_pairs};
use crate::metrics::{MetricPoint, MetricType};
use crate::text::{same, texts};
use vstd::prelude::*;

verus! {

/// What a metric is and whether it can be queried. Values are the bits of
/// doubles.
#[derive(Debug)]
pub struct MetricDetail {
    pub metric_type: MetricType,
    pub unit: String,
    pub point_count: usize,
    pub series_count: usize,
    pub services: Vec<String>,
    pub label_keys: Vec<String>,
    pub value_min: u64,
    pub value_max: u64,
    /// Points that retained buckets: quantiles can be answered for them.
    pub with_histogram: usize,
    /// How many points are shown, the newest first.
    pub recent: usize,
}

pub open spec fn point_services(points: Seq<MetricPoint>) -> Seq<Seq<char>> {
    points.map_values(|p: MetricPoint| p.service@)
}

pub open spec fn names_in(p: MetricPoint) -> Seq<Seq<char>> {
    sorted_pairs(p.attributes@).map_values(|e: (Seq<char>, Seq<char>)| e.0)
}

pub open spec fn point_labels(points: Seq<MetricPoint>) -> Seq<Seq<char>>
    decreases points.len(),
{
    if points.len() == 0 {
        Seq::empty()
    } else {
        point_labels(points.drop_last()) + names_in(points.last())
    }
}

/// Whether a point is the first of its series.
pub open spec fn starts_series(points: Seq<MetricPoint>, i: int) -> bool {
    forall|j: int| 0 <= j < i ==> identity_of(#[trigger] points[j]) != identity_of(points[i])
}

/// The number of different series.
pub open spec fn series_among(points: Seq<MetricPoint>, n: nat) -> nat
    decreases n,
{
    if n == 0 {
        0
    } else {
        series_among(points, (n - 1) as nat) + if starts_series(points, n - 1) {
            1nat
        } else {
            0
        }
    }
}

pub open spec fn least(points: Seq<MetricPoint>) -> u64
    decreases points.len(),
{
    if points.len() == 0 {
        0x7ff0_0000_0000_0000
    } else {
        lesser_of(least(points.drop_last()), points.last().value)
    }
}

pub open spec fn greatest(points: Seq<MetricPoint>) -> u64
    decreases points.len(),
{
    if points.len() == 0 {
        0xfff0_0000_0000_0000
    } else {
        greater_of(greatest(points.drop_last()), points.last().value)
    }
}

pub open spec fn histograms_among(points: Seq<MetricPoint>) -> nat
    decreases points.len(),
{
    if points.len() == 0 {
        0
    } else {
        histograms_among(points.drop_last()) + if points.last().histogram is Some {
            1nat
        } else {
            0
        }
    }
}

fn same_texts(a: &Vec<String>, b: &Vec<String>) -> (r: bool)
    ensures
        r == (texts(a@) == texts(b@)),
{
    if a.len() != b.len() {
        assert(texts(a@).len() != texts(b@).len());
        return false;
    }
    let mut i: usize = 0;
    while i < a.len()
        invariant
            i <= a@.len(),
            a@.len() == b@.len(),
            forall|j: int| 0 <= j < i ==> texts(a@)[j] == texts(b@)[j],
        decreases a@.len() - i,
    {
        if !same(a[i].as_str(), b[i].as_str()) {
            assert(texts(a@)[i as int] != texts(b@)[i as int]);
            return false;
        }
        i = i + 1;
    }
    assert(texts(a@) =~= texts(b@));
    true
}

fn count_series(points: &Vec<MetricPoint>) -> (r: usize)
    ensures
        r == series_among(points@, points@.len()),
{
    let mut seen: Vec<Vec<String>> = Vec::new();
    let mut n: usize = 0;
    let mut i: usize = 0;
    while i < points.len()
        invariant
            i <= points@.len(),
            n <= i,
            n == series_among(points@, i as nat),
            seen@.len() == i,
            forall|j: int| 0 <= j < i ==> texts((#[trigger] seen@[j])@) == identity_of(points@[j]),
        decreases points@.len() - i,
    {
        let id = series_identity(&points[i]);
        let mut first: bool = true;
        let mut j: usize = 0;
        while j < i
            invariant
                j <= i < points@.len(),
                seen@.len() == i,
                texts(id@) == identity_of(points@[i as int]),
                forall|j: int|
                    0 <= j < i ==> texts((#[trigger] seen@[j])@) == identity_of(points@[j]),
                first == (forall|k: int|
                    0 <= k < j ==> identity_of(#[trigger] points@[k]) != identity_of(
                        points@[i as int],
                    )),
            decreases i - j,
        {
            if same_texts(&seen[j], &id) {
                assert(identity_of(points@[j as int]) == identity_of(points@[i as int]));
                first = false;
            }
            j = j + 1;
        }
        assert(first == starts_series(points@, i as int));
        if first {
            n = n + 1;
        }
        seen.push(id);
        i = i + 1;
    }
    n
}

/// Describe a metric from its points, the newest first; nothing where it has
/// none.
pub fn describe(points: &Vec<MetricPoint>) -> (r: Option<MetricDetail>)
    ensures
        match r {
            None => points@.len() == 0,
            Some(d) => {
                &&& points@.len() > 0
                &&& d.metric_type == points@[0].metric_type
                &&& d.unit@ == points@[0].unit@
                &&& d.point_count == points@.len()
                &&& d.series_count == series_among(points@, points@.len())
                &&& texts(d.services@) == sorted_distinct(point_services(points@))
                &&& texts(d.label_keys@) == sorted_distinct(point_labels(points@))
                &&& d.value_min == least(points@)
                &&& d.value_max == greatest(points@)
                &&& d.with_histogram == histograms_among(points@)
                &&& d.recent == if points@.len() < 20 {
                    points@.len()
                } else {
                    20
                }
            },
        },
{
    if points.len() == 0 {
        return None;
    }
    let mut services: Vec<String> = Vec::new();
    let mut labels: Vec<String> = Vec::new();
    let mut min: u64 = 0x7ff0_0000_0000_0000;
    let mut max: u64 = 0xfff0_0000_0000_0000;
    let mut with_histogram: usize = 0;
    let mut i: usize = 0;
    assert(points@.take(0) =~= Seq::<MetricPoint>::empty());
    assert(texts(services@) =~= point_services(points@).take(0));
    assert(texts(labels@) =~= Seq::<Seq<char>>::empty());
    while i < points.len()
        invariant
            i <= points@.len(),
            texts(services@) == point_services(points@).take(i as int),
            texts(labels@) == point_labels(points@.take(i as int)),
            min == least(points@.take(i as int)),
            max == greatest(points@.take(i as int)),
            with_histogram <= i,
            with_histogram == histograms_among(points@.take(i as int)),
        decreases points@.len() - i,
    {
        let p = &points[i];
        let ghost s0 = services@;
        let ghost l0 = labels@;
        assert(points@.take(i as int + 1).drop_last() =~= points@.take(i as int));
        assert(points@.take(i as int + 1).last() == *p);
        services.push(p.service.clone());
        assert(texts(services@) =~= texts(s0).push(p.service@));
        assert(texts(services@) =~= point_services(points@).take(i as int + 1));
        let mut names = p.attributes.names();
        let ghost n0 = names@;
        labels.append(&mut names);
        assert(texts(labels@) =~= texts(l0) + texts(n0));
        min = lesser(min, p.value);
        max = greater(max, p.value);
        if p.histogram.is_some() {
            with_histogram = with_histogram + 1;
        }
        i = i + 1;
    }
    assert(points@.take(points@.len() as int) =~= points@);
    assert(point_services(points@).take(points@.len() as int) =~= point_services(points@));
    Some(
        MetricDetail {
            metric_type: points[0].metric_type,
            unit: points[0].unit.clone(),
            point_count: points.len(),
            series_count: count_series(points),
            services: distinct_texts(&services),
            label_keys: distinct_texts(&labels),
            value_min: min,
            value_max: max,
            with_histogram,
            recent: if points.len() < 20 {
                points.len()
            } else {
                20
            },
        },
    )
}

// ── Laws ────────────────────────────────────────────────────────────

/// The least and the greatest value are among those of the points, and none lies
/// beyond them.
pub proof fn extremes_are_among_the_values(points: Seq<MetricPoint>)
    requires
        forall|i: int|
            0 <= i < points.len() ==> !crate::doubles::is_nan_bits((#[trigger] points[i]).value),
    ensures
        !crate::doubles::is_nan_bits(least(points)) && !crate::doubles::is_nan_bits(greatest(points)),
        points.len() > 0 ==> (exists|i: int|
            0 <= i < points.len() && (#[trigger] points[i]).value == least(points)) && (exists|i: int|
            0 <= i < points.len() && (#[trigger] points[i]).value == greatest(points)),
        forall|i: int|
            0 <= i < points.len() ==> crate::doubles::is_at_least(
                greatest(points),
                (#[trigger] points[i]).value,
            ) && crate::doubles::is_at_least(points[i].value, least(points)),
    decreases points.len(),
{
    if points.len() > 0 {
        let init = points.drop_last();
        assert forall|i: int| 0 <= i < init.len() implies !crate::doubles::is_nan_bits(
            (#[trigger] init[i]).value,
        ) by {
            assert(init[i] == points[i]);
        }
        extremes_are_among_the_values(init);
        assert(points[points.len() - 1] == points.last());
        if init.len() > 0 {
            let (l, g) = (least(init), greatest(init));
            let (i, j) = (
                choose|i: int| 0 <= i < init.len() && (#[trigger] init[i]).value == l,
                choose|j: int| 0 <= j < init.len() && (#[trigger] init[j]).value == g,
            );
            assert(points[i] == init[i] && points[j] == init[j]);
        }
        assert forall|i: int| 0 <= i < points.len() implies crate::doubles::is_at_least(
            greatest(points),
            (#[trigger] points[i]).value,
        ) && crate::doubles::is_at_least(points[i].value, least(points)) by {
            if i < init.len() {
                assert(init[i] == points[i]);
            }
        }
    }
}

/// One more point is one more series exactly when none before it had the same
/// name, service and attributes, and one more histogram when it has buckets.
pub proof fn points_are_counted_by_series(points: Seq<MetricPoint>, p: MetricPoint)
    ensures
        histograms_among(points.push(p)) == histograms_among(points) + if p.histogram is Some {
            1nat
        } else {
            0nat
        },
        series_among(points, 0) == 0 && histograms_among(Seq::empty()) == 0,
        series_among(points.push(p), points.len() + 1) == series_among(points, points.len()) + if exists|
            i: int,
        |
            0 <= i < points.len() && (#[trigger] points[i]).name@ == p.name@ && points[i].service@
                == p.service@ && points[i].attributes@ == p.attributes@ {
            0nat
        } else {
            1nat
        },
{
    let more = points.push(p);
    let n = points.len() as int;
    assert(more.drop_last() =~= points);
    same_series(points, p, points.len());
    assert(more[n] == p);
    if exists|i: int|
        0 <= i < points.len() && (#[trigger] points[i]).name@ == p.name@ && points[i].service@
            == p.service@ && points[i].attributes@ == p.attributes@ {
        let i = choose|i: int|
            0 <= i < points.len() && (#[trigger] points[i]).name@ == p.name@ && points[i].service@
                == p.service@ && points[i].attributes@ == p.attributes@;
        crate::ingest::cardinality::identity_is_the_series(points[i], p);
        assert(identity_of(more[i]) == identity_of(more[n]));
        assert(!starts_series(more, n));
    } else {
        assert forall|j: int| 0 <= j < n implies identity_of(#[trigger] more[j]) != identity_of(
            more[n],
        ) by {
            crate::ingest::cardinality::identity_is_the_series(points[j], p);
            assert(more[j] == points[j]);
        }
    }
}

proof fn same_series(points: Seq<MetricPoint>, p: MetricPoint, n: nat)
    requires
        n <= points.len(),
    ensures
        series_among(points.push(p), n) == series_among(points, n),
    decreases n,
{
    if n > 0 {
        let more = points.push(p);
        same_series(points, p, (n - 1) as nat);
        assert forall|j: int| 0 <= j < n implies more[j] == #[trigger] points[j] by {}
        assert(starts_series(more, n - 1) == starts_series(points, n - 1)) by {
            if starts_series(points, n - 1) {
                assert forall|j: int| 0 <= j < n - 1 implies identity_of(#[trigger] more[j])
                    != identity_of(more[n - 1]) by {
                    assert(more[j] == points[j]);
                }
            }
            if starts_series(more, n - 1) {
                assert forall|j: int| 0 <= j < n - 1 implies identity_of(#[trigger] points[j])
                    != identity_of(points[n - 1]) by {
                    assert(more[j] == points[j]);
                }
            }
        }
    }
}

} // verus!
