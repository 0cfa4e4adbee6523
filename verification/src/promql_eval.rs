//! Evaluation of queries over fetched points: which points a selector keeps,
//! how they fall into series and groups, and which samples each result is
//! computed from. The arithmetic on the samples is left to the caller.

use crate::doubles::{at_least, greater, greater_of, is_at_least, is_nan_bits, lesser, lesser_of, magnitude_bits, nearest_double};
use crate::grouping::{
    code, coded, group_by, group_views, grouping, keys_tell_texts_apart, together_where_keys_agree,
    Group,
};
use crate::ingest::cardinality::{
    flattened, flattened_injective, identity_is_the_series, identity_of, push_labels,
    series_identity,
};
use crate::labels::{finite_maps_can_be_sorted, labels_are_finite, sorted_pairs, Labels};
use crate::metrics::{MetricPoint, Temporality};
use crate::queries::MetricQuery;
use crate::promql::{agg_name, op_name, AggOp, CompareOp, Expr, LabelMatcher, MatchOp, Selector};
use crate::text::{same, texts};
use crate::time::{earlier, elapsed, Instant, Timestamp};
use vstd::prelude::*;

verus! {

/// One result of an instant query. `value` holds the bits of a double.
#[derive(Debug, Clone)]
pub struct Series {
    pub metric: String,
    pub labels: Labels,
    pub value: u64,
    pub timestamp: Timestamp,
}

/// What a label of a point is. `service` and `__name__` are labels too, and
/// outdo attributes of these names.
pub open spec fn label_of(p: MetricPoint, name: Seq<char>) -> Option<Seq<char>> {
    if name == "service"@ {
        Some(p.service@)
    } else if name == "__name__"@ {
        Some(p.name@)
    } else if p.attributes@.dom().contains(name) {
        Some(p.attributes@[name])
    } else {
        None
    }
}

/// Whether a point satisfies a matcher. A missing label counts as empty.
pub open spec fn matcher_holds(p: MetricPoint, m: LabelMatcher) -> bool {
    let actual = match label_of(p, m.name@) {
        Some(v) => v,
        None => Seq::empty(),
    };
    match m.op {
        MatchOp::Eq => actual == m.value@,
        MatchOp::NotEq => actual != m.value@,
    }
}

pub open spec fn all_hold(p: MetricPoint, matchers: Seq<LabelMatcher>) -> bool {
    forall|i: int| 0 <= i < matchers.len() ==> matcher_holds(p, #[trigger] matchers[i])
}

/// The value of a label of a point.
fn label_value<'a>(p: &'a MetricPoint, name: &str) -> (r: Option<&'a String>)
    ensures
        match r {
            Some(v) => label_of(*p, name@) == Some(v@),
            None => label_of(*p, name@) is None,
        },
{
    if same(name, "service") {
        Some(&p.service)
    } else if same(name, "__name__") {
        Some(&p.name)
    } else {
        p.attributes.get(name)
    }
}

/// Whether a point satisfies every matcher.
pub fn matches_labels(point: &MetricPoint, matchers: &Vec<LabelMatcher>) -> (r: bool)
    ensures
        r == all_hold(*point, matchers@),
{
    let mut i: usize = 0;
    while i < matchers.len()
        invariant
            i <= matchers@.len(),
            forall|j: int| 0 <= j < i ==> matcher_holds(*point, #[trigger] matchers@[j]),
        decreases matchers@.len() - i,
    {
        let m = &matchers[i];
        let equal: bool = match label_value(point, m.name.as_str()) {
            Some(v) => same(v.as_str(), m.value.as_str()),
            None => {
                let empty: bool = m.value.as_str().is_empty();
                assert(empty == (m.value@ =~= Seq::<char>::empty()));
                empty
            },
        };
        let holds: bool = match m.op {
            MatchOp::Eq => equal,
            MatchOp::NotEq => !equal,
        };
        if !holds {
            assert(!matcher_holds(*point, matchers@[i as int]));
            return false;
        }
        i = i + 1;
    }
    true
}

/// The query that brings a selector's points: its metric, within the window.
/// The batch is generous, since matchers are applied afterwards.
pub fn fetch_query(sel: &Selector, lookback_seconds: i64) -> (r: MetricQuery)
    ensures
        r.name matches Some(n) && n@ == sel.metric@,
        r.last_seconds == Some(lookback_seconds),
        r.limit == Some(10000u32),
        r.service is None,
        r.metric_type is None,
        r.tenant is None,
{
    MetricQuery {
        service: None,
        name: Some(sel.metric.clone()),
        metric_type: None,
        last_seconds: Some(lookback_seconds),
        limit: Some(10000),
        tenant: None,
    }
}

/// The points of a batch that satisfy a selector's matchers, in order.
pub fn fetch_points(raw: Vec<MetricPoint>, sel: &Selector) -> (r: Vec<MetricPoint>)
    ensures
        r@ == raw@.filter(|p: MetricPoint| all_hold(p, sel.matchers@)),
{
    let ghost keep = |p: MetricPoint| all_hold(p, sel.matchers@);
    let ghost all = raw@;
    let mut out: Vec<MetricPoint> = Vec::new();
    proof {
        reveal(Seq::filter);
    }
    for p in it: raw
        invariant
            it.seq() == all,
            keep == (|p: MetricPoint| all_hold(p, sel.matchers@)),
            out@ == all.take(it.index()).filter(keep),
    {
        proof {
            reveal(Seq::filter);
            assert(all.take(it.index() + 1).drop_last() =~= all.take(it.index()));
        }
        if matches_labels(&p, &sel.matchers) {
            out.push(p);
        }
    }
    assert(all.take(all.len() as int) =~= all);
    out
}

// ── Series ──────────────────────────────────────────────────────────

/// What tells labels from others: their names and values in the order of the
/// names, as one key.
pub open spec fn labels_key_of(labels: Map<Seq<char>, Seq<char>>) -> Seq<char> {
    coded(flattened(sorted_pairs(labels)))
}

/// What tells a point's series from others: its name, its service and its full
/// label set, as one key.
pub open spec fn series_key_of(p: MetricPoint) -> Seq<char> {
    coded(identity_of(p))
}

/// The labels as one key.
pub fn labels_key(labels: &Labels) -> (r: String)
    ensures
        r@ == labels_key_of(labels@),
{
    let mut parts: Vec<String> = Vec::new();
    push_labels(&mut parts, labels);
    assert(texts(parts@) =~= flattened(sorted_pairs(labels@)));
    code(&parts)
}

pub fn series_key(p: &MetricPoint) -> (r: String)
    ensures
        r@ == series_key_of(*p),
{
    let identity = series_identity(p);
    code(&identity)
}

/// Two points belong to one series exactly when they agree on name, service
/// and attributes, in whatever order the attributes were given.
pub proof fn series_keys_tell_series_apart(p: MetricPoint, q: MetricPoint)
    ensures
        series_key_of(p) == series_key_of(q) <==> p.name@ == q.name@ && p.service@ == q.service@
            && p.attributes@ == q.attributes@,
{
    keys_tell_texts_apart(identity_of(p), identity_of(q));
    identity_is_the_series(p, q);
}

/// Labels have one key exactly when they are the same.
pub proof fn label_keys_tell_labels_apart(
    a: Map<Seq<char>, Seq<char>>,
    b: Map<Seq<char>, Seq<char>>,
)
    requires
        a.dom().finite(),
        b.dom().finite(),
    ensures
        labels_key_of(a) == labels_key_of(b) <==> a == b,
{
    finite_maps_can_be_sorted(a);
    finite_maps_can_be_sorted(b);
    keys_tell_texts_apart(flattened(sorted_pairs(a)), flattened(sorted_pairs(b)));
    if labels_key_of(a) == labels_key_of(b) {
        flattened_injective(sorted_pairs(a), sorted_pairs(b));
    }
}

/// Two points are counted to one series exactly when they agree on name,
/// service and attributes.
pub proof fn series_are_label_sets(points: Seq<MetricPoint>, i: int, j: int)
    requires
        0 <= i < points.len(),
        0 <= j < points.len(),
    ensures
        (exists|g: int|
            0 <= g < series_groups(points).len() && (#[trigger] series_groups(
                points,
            )[g]).1.contains(i) && series_groups(points)[g].1.contains(j)) <==> points[i].name@
            == points[j].name@ && points[i].service@ == points[j].service@
            && points[i].attributes@ == points[j].attributes@,
{
    series_keys_tell_series_apart(points[i], points[j]);
    together_where_keys_agree(series_keys(points), i, j);
}

/// The labels of a point's series: its attributes and its service.
pub open spec fn series_labels_of(p: MetricPoint) -> Map<Seq<char>, Seq<char>> {
    p.attributes@.insert("service"@, p.service@)
}

pub fn series_labels(p: &MetricPoint) -> (r: Labels)
    ensures
        r@ == series_labels_of(*p),
{
    let mut labels = p.attributes.clone();
    labels.insert("service".to_owned(), p.service.clone());
    labels
}

pub open spec fn series_keys(points: Seq<MetricPoint>) -> Seq<Seq<char>> {
    points.map_values(|p: MetricPoint| series_key_of(p))
}

/// The series that points fall into: the key of each and the positions of its
/// points, in the order of the keys.
pub open spec fn series_groups(points: Seq<MetricPoint>) -> Seq<(Seq<char>, Seq<int>)> {
    grouping(series_keys(points))
}

/// The series that points fall into, in the order of their keys.
pub fn group_series(points: &Vec<MetricPoint>) -> (r: Vec<Group>)
    ensures
        group_views(r@) == series_groups(points@),
        forall|g: int, k: int|
            0 <= g < r@.len() && 0 <= k < r@[g].members@.len() ==> #[trigger] r@[g].members@[k]
                < points@.len(),
        forall|g: int| 0 <= g < r@.len() ==> (#[trigger] r@[g]).members@.len() > 0,
{
    let mut keys: Vec<String> = Vec::new();
    let mut i: usize = 0;
    while i < points.len()
        invariant
            i <= points@.len(),
            texts(keys@) == series_keys(points@).take(i as int),
        decreases points@.len() - i,
    {
        let ghost before = keys@;
        let key = series_key(&points[i]);
        keys.push(key);
        assert(texts(keys@) =~= texts(before).push(key@));
        i = i + 1;
        assert(texts(keys@) =~= series_keys(points@).take(i as int));
    }
    assert(series_keys(points@).take(points@.len() as int) =~= series_keys(points@));
    assert(keys@.len() == texts(keys@).len());
    group_by(&keys)
}

/// Of some positions, the first one among those with the latest instant.
pub open spec fn newest(points: Seq<MetricPoint>, members: Seq<int>) -> int
    decreases members.len(),
{
    if members.len() <= 1 {
        members[0]
    } else {
        let best = newest(points, members.drop_last());
        if !earlier(points[best].timestamp@, points[members.last()].timestamp@) {
            best
        } else {
            members.last()
        }
    }
}

/// Of some positions, the first one among those with the earliest instant.
pub open spec fn oldest(points: Seq<MetricPoint>, members: Seq<int>) -> int
    decreases members.len(),
{
    if members.len() <= 1 {
        members[0]
    } else {
        let best = oldest(points, members.drop_last());
        if !earlier(points[members.last()].timestamp@, points[best].timestamp@) {
            best
        } else {
            members.last()
        }
    }
}

/// Of some positions, the last one among those with the latest instant.
pub open spec fn newest_last(points: Seq<MetricPoint>, members: Seq<int>) -> int
    decreases members.len(),
{
    if members.len() <= 1 {
        members[0]
    } else {
        let best = newest_last(points, members.drop_last());
        if earlier(points[members.last()].timestamp@, points[best].timestamp@) {
            best
        } else {
            members.last()
        }
    }
}

fn pick_newest(points: &Vec<MetricPoint>, members: &Vec<usize>) -> (r: usize)
    requires
        members@.len() > 0,
        forall|k: int| 0 <= k < members@.len() ==> #[trigger] members@[k] < points@.len(),
    ensures
        r == newest(points@, members@.map_values(|i: usize| i as int)),
        r < points@.len(),
{
    let ghost all = members@.map_values(|i: usize| i as int);
    let mut best: usize = members[0];
    let mut k: usize = 1;
    assert(all.take(1)[0] == best);
    while k < members.len()
        invariant
            1 <= k <= members@.len(),
            all == members@.map_values(|i: usize| i as int),
            forall|k: int| 0 <= k < members@.len() ==> #[trigger] members@[k] < points@.len(),
            best < points@.len(),
            best == newest(points@, all.take(k as int)),
        decreases members@.len() - k,
    {
        let at: usize = members[k];
        assert(all.take(k as int + 1).drop_last() =~= all.take(k as int));
        assert(all.take(k as int + 1).last() == at);
        if points[best].timestamp.before(&points[at].timestamp) {
            best = at;
        }
        k = k + 1;
    }
    assert(all.take(members@.len() as int) =~= all);
    best
}

fn pick_ends(points: &Vec<MetricPoint>, members: &Vec<usize>) -> (r: (usize, usize))
    requires
        members@.len() > 0,
        forall|k: int| 0 <= k < members@.len() ==> #[trigger] members@[k] < points@.len(),
    ensures
        r.0 == oldest(points@, members@.map_values(|i: usize| i as int)),
        r.1 == newest_last(points@, members@.map_values(|i: usize| i as int)),
        r.0 < points@.len(),
        r.1 < points@.len(),
{
    let ghost all = members@.map_values(|i: usize| i as int);
    let mut first: usize = members[0];
    let mut last: usize = members[0];
    let mut k: usize = 1;
    assert(all.take(1)[0] == first);
    while k < members.len()
        invariant
            1 <= k <= members@.len(),
            all == members@.map_values(|i: usize| i as int),
            forall|k: int| 0 <= k < members@.len() ==> #[trigger] members@[k] < points@.len(),
            first < points@.len(),
            last < points@.len(),
            first == oldest(points@, all.take(k as int)),
            last == newest_last(points@, all.take(k as int)),
        decreases members@.len() - k,
    {
        let at: usize = members[k];
        assert(all.take(k as int + 1).drop_last() =~= all.take(k as int));
        assert(all.take(k as int + 1).last() == at);
        if points[at].timestamp.before(&points[first].timestamp) {
            first = at;
        }
        if !points[at].timestamp.before(&points[last].timestamp) {
            last = at;
        }
        k = k + 1;
    }
    assert(all.take(members@.len() as int) =~= all);
    (first, last)
}

// ── Bare selectors ──────────────────────────────────────────────────

pub open spec fn is_series_of(s: Series, p: MetricPoint) -> bool {
    &&& s.metric@ == p.name@
    &&& s.labels@ == series_labels_of(p)
    &&& s.value == p.value
    &&& s.timestamp == p.timestamp
}

pub fn point_to_series(p: &MetricPoint) -> (r: Series)
    ensures
        is_series_of(r, *p),
{
    Series {
        metric: p.name.clone(),
        labels: series_labels(p),
        value: p.value,
        timestamp: p.timestamp,
    }
}

/// One result per series, in the order of the series' keys: its most recent
/// sample.
pub fn eval_selector_instant(points: &Vec<MetricPoint>) -> (r: Vec<Series>)
    ensures
        r@.len() == series_groups(points@).len(),
        forall|g: int|
            0 <= g < r@.len() ==> is_series_of(
                #[trigger] r@[g],
                points@[newest(points@, series_groups(points@)[g].1)],
            ),
{
    let groups = group_series(points);
    let ghost views = group_views(groups@);
    let mut out: Vec<Series> = Vec::new();
    let mut g: usize = 0;
    while g < groups.len()
        invariant
            g <= groups@.len(),
            views == group_views(groups@),
            out@.len() == g,
            forall|g: int, k: int|
                0 <= g < groups@.len() && 0 <= k < groups@[g].members@.len()
                    ==> #[trigger] groups@[g].members@[k] < points@.len(),
            forall|g: int| 0 <= g < groups@.len() ==> (#[trigger] groups@[g]).members@.len() > 0,
            forall|i: int|
                0 <= i < g ==> is_series_of(
                    #[trigger] out@[i],
                    points@[newest(points@, views[i].1)],
                ),
        decreases groups@.len() - g,
    {
        assert(groups@[g as int].members@.len() > 0);
        let at: usize = pick_newest(points, &groups[g].members);
        assert(views[g as int] == groups@[g as int]@);
        out.push(point_to_series(&points[at]));
        g = g + 1;
    }
    out
}

// ── Rates ───────────────────────────────────────────────────────────

/// What a series' rate is computed from: the bits of its first and its last
/// sample and the whole seconds between them.
#[derive(Debug)]
pub struct RateSeries {
    pub metric: String,
    pub labels: Labels,
    pub first: u64,
    pub last: u64,
    pub elapsed_seconds: i64,
    pub timestamp: Timestamp,
}

/// Whether the samples at some positions give a rate: at least two of them,
/// and at least a second from the first to the last.
pub open spec fn has_rate(points: Seq<MetricPoint>, members: Seq<int>) -> bool {
    members.len() >= 2 && elapsed(
        points[oldest(points, members)].timestamp@,
        points[newest_last(points, members)].timestamp@,
    ) >= 1000000000
}

pub open spec fn is_rate_of(s: RateSeries, points: Seq<MetricPoint>, members: Seq<int>) -> bool {
    let first = points[oldest(points, members)];
    let last = points[newest_last(points, members)];
    &&& s.metric@ == "rate("@ + last.name@ + ")"@
    &&& s.labels@ == series_labels_of(last)
    &&& s.first == first.value
    &&& s.last == last.value
    &&& s.elapsed_seconds == elapsed(first.timestamp@, last.timestamp@) / 1000000000
    &&& s.elapsed_seconds > 0
    &&& s.timestamp == last.timestamp
}

/// The positions of the groups that give a rate, in order.
pub open spec fn rated(points: Seq<MetricPoint>, groups: Seq<(Seq<char>, Seq<int>)>) -> Seq<
    (Seq<char>, Seq<int>),
> {
    groups.filter(|g: (Seq<char>, Seq<int>)| has_rate(points, g.1))
}

/// One result per series that gives a rate, in the order of the series' keys.
pub fn eval_rate(points: &Vec<MetricPoint>) -> (r: Vec<RateSeries>)
    ensures
        r@.len() == rated(points@, series_groups(points@)).len(),
        forall|g: int|
            0 <= g < r@.len() ==> is_rate_of(
                #[trigger] r@[g],
                points@,
                rated(points@, series_groups(points@))[g].1,
            ),
{
    let groups = group_series(points);
    let ghost views = group_views(groups@);
    let ghost pred = |g: (Seq<char>, Seq<int>)| has_rate(points@, g.1);
    let mut out: Vec<RateSeries> = Vec::new();
    let mut g: usize = 0;
    assert(views.take(0).filter(pred) =~= Seq::<(Seq<char>, Seq<int>)>::empty()) by {
        reveal(Seq::filter);
    }
    while g < groups.len()
        invariant
            g <= groups@.len(),
            views == group_views(groups@),
            pred == (|g: (Seq<char>, Seq<int>)| has_rate(points@, g.1)),
            forall|g: int, k: int|
                0 <= g < groups@.len() && 0 <= k < groups@[g].members@.len()
                    ==> #[trigger] groups@[g].members@[k] < points@.len(),
            forall|g: int| 0 <= g < groups@.len() ==> (#[trigger] groups@[g]).members@.len() > 0,
            out@.len() == views.take(g as int).filter(pred).len(),
            forall|i: int|
                0 <= i < out@.len() ==> is_rate_of(
                    #[trigger] out@[i],
                    points@,
                    views.take(g as int).filter(pred)[i].1,
                ),
        decreases groups@.len() - g,
    {
        let ghost here = views[g as int];
        assert(here == groups@[g as int]@);
        assert(groups@[g as int].members@.len() > 0);
        proof {
            reveal(Seq::filter);
            assert(views.take(g as int + 1).drop_last() =~= views.take(g as int));
            assert(views.take(g as int + 1).last() == here);
        }
        let (first, last) = pick_ends(points, &groups[g].members);
        let nanos: i128 = points[last].timestamp.nanos_since(&points[first].timestamp);
        if groups[g].members.len() >= 2 && nanos >= 1000000000 {
            let mut metric = "rate(".to_owned();
            metric.append(points[last].name.as_str());
            metric.append(")");
            let seconds: i128 = nanos / 1000000000;
            out.push(
                RateSeries {
                    metric,
                    labels: series_labels(&points[last]),
                    first: points[first].value,
                    last: points[last].value,
                    elapsed_seconds: seconds as i64,
                    timestamp: points[last].timestamp,
                },
            );
        }
        g = g + 1;
    }
    proof {
        assert(views.take(views.len() as int) =~= views);
    }
    out
}

// ── Aggregates ──────────────────────────────────────────────────────

/// What an aggregate's value is computed from: the bits of the values of its
/// group, in order.
#[derive(Debug)]
pub struct AggregateSeries {
    pub metric: String,
    pub labels: Labels,
    pub values: Vec<u64>,
    pub timestamp: Timestamp,
}

/// The labels that a `by` clause keeps.
pub open spec fn kept_labels(labels: Map<Seq<char>, Seq<char>>, by: Seq<Seq<char>>) -> Map<
    Seq<char>,
    Seq<char>,
> {
    Map::new(|n: Seq<char>| by.contains(n) && labels.dom().contains(n), |n: Seq<char>| labels[n])
}

fn keep_labels(labels: &Labels, by: &Vec<String>) -> (r: Labels)
    ensures
        r@ == kept_labels(labels@, texts(by@)),
{
    let mut out = Labels::new();
    let ghost names = texts(by@);
    let mut i: usize = 0;
    assert(out@ =~= kept_labels(labels@, names.take(0)));
    while i < by.len()
        invariant
            i <= by@.len(),
            names == texts(by@),
            out@ == kept_labels(labels@, names.take(i as int)),
        decreases by@.len() - i,
    {
        if let Some(v) = labels.get(by[i].as_str()) {
            out.insert(by[i].clone(), v.clone());
        }
        proof {
            let t = names.take(i as int + 1);
            assert(t =~= names.take(i as int).push(names[i as int]));
            assert forall|n: Seq<char>| #[trigger] t.contains(n) == (names.take(i as int).contains(n)
                || n == names[i as int]) by {
                if names.take(i as int).contains(n) {
                    let k = choose|k: int| 0 <= k < i && names.take(i as int)[k] == n;
                    assert(t[k] == n);
                }
                if n == names[i as int] {
                    assert(t[i as int] == n);
                }
            }
            assert(out@ =~= kept_labels(labels@, t));
        }
        i = i + 1;
    }
    assert(names.take(by@.len() as int) =~= names);
    out
}

/// The texts that tell the groups of a `by` clause apart.
pub open spec fn aggregate_keys(input: Seq<Series>, by: Seq<Seq<char>>) -> Seq<Seq<char>> {
    input.map_values(|s: Series| labels_key_of(kept_labels(s.labels@, by)))
}

pub open spec fn latest(input: Seq<Series>, members: Seq<int>) -> Instant
    decreases members.len(),
{
    if members.len() <= 1 {
        input[members[0]].timestamp@
    } else {
        let before = latest(input, members.drop_last());
        let here = input[members.last()].timestamp@;
        if earlier(before, here) {
            here
        } else {
            before
        }
    }
}

pub open spec fn is_aggregate_of(
    r: AggregateSeries,
    input: Seq<Series>,
    op: AggOp,
    by: Seq<Seq<char>>,
    members: Seq<int>,
) -> bool {
    &&& r.metric@ == agg_name(op)
    &&& r.labels@ == kept_labels(input[members[0]].labels@, by)
    &&& r.values@ == members.map_values(|i: int| input[i].value)
    &&& r.timestamp@ == latest(input, members)
}

/// One result per group of series that agree on the labels of the `by`
/// clause, in the order of the groups' keys. Without a clause all series are
/// one group.
pub fn aggregate(input: &Vec<Series>, op: AggOp, by: &Vec<String>) -> (r: Vec<AggregateSeries>)
    ensures
        r@.len() == grouping(aggregate_keys(input@, texts(by@))).len(),
        forall|g: int|
            0 <= g < r@.len() ==> is_aggregate_of(
                #[trigger] r@[g],
                input@,
                op,
                texts(by@),
                grouping(aggregate_keys(input@, texts(by@)))[g].1,
            ),
{
    let ghost names = texts(by@);
    let ghost wanted = aggregate_keys(input@, names);
    let mut keys: Vec<String> = Vec::new();
    let mut i: usize = 0;
    while i < input.len()
        invariant
            i <= input@.len(),
            names == texts(by@),
            wanted == aggregate_keys(input@, names),
            texts(keys@) == wanted.take(i as int),
        decreases input@.len() - i,
    {
        let ghost before = keys@;
        let labels = keep_labels(&input[i].labels, by);
        let key = labels_key(&labels);
        keys.push(key);
        assert(texts(keys@) =~= texts(before).push(key@));
        i = i + 1;
        assert(texts(keys@) =~= wanted.take(i as int));
    }
    assert(wanted.take(input@.len() as int) =~= wanted);
    assert(keys@.len() == texts(keys@).len());
    let groups = group_by(&keys);
    let ghost views = group_views(groups@);
    let mut out: Vec<AggregateSeries> = Vec::new();
    let mut g: usize = 0;
    while g < groups.len()
        invariant
            g <= groups@.len(),
            names == texts(by@),
            views == group_views(groups@),
            out@.len() == g,
            forall|g: int, k: int|
                0 <= g < groups@.len() && 0 <= k < groups@[g].members@.len()
                    ==> #[trigger] groups@[g].members@[k] < input@.len(),
            forall|g: int| 0 <= g < groups@.len() ==> (#[trigger] groups@[g]).members@.len() > 0,
            forall|i: int|
                0 <= i < g ==> is_aggregate_of(
                    #[trigger] out@[i],
                    input@,
                    op,
                    names,
                    views[i].1,
                ),
        decreases groups@.len() - g,
    {
        let members = &groups[g].members;
        let ghost all = views[g as int].1;
        assert(views[g as int] == groups@[g as int]@);
        assert(all == members@.map_values(|i: usize| i as int));
        assert(groups@[g as int].members@.len() > 0);
        let first: usize = members[0];
        let mut timestamp: Timestamp = input[first].timestamp;
        let mut values: Vec<u64> = Vec::new();
        values.push(input[first].value);
        let mut k: usize = 1;
        assert(all.take(1)[0] == first);
        assert(values@ =~= all.take(1).map_values(|i: int| input@[i].value));
        while k < members.len()
            invariant
                1 <= k <= members@.len(),
                all == members@.map_values(|i: usize| i as int),
                forall|k: int| 0 <= k < members@.len() ==> #[trigger] members@[k] < input@.len(),
                values@ == all.take(k as int).map_values(|i: int| input@[i].value),
                timestamp@ == latest(input@, all.take(k as int)),
            decreases members@.len() - k,
        {
            let at: usize = members[k];
            assert(all.take(k as int + 1).drop_last() =~= all.take(k as int));
            assert(all.take(k as int + 1).last() == at);
            values.push(input[at].value);
            if timestamp.before(&input[at].timestamp) {
                timestamp = input[at].timestamp;
            }
            k = k + 1;
            assert(values@ =~= all.take(k as int).map_values(|i: int| input@[i].value));
        }
        assert(all.take(members@.len() as int) =~= all);
        let labels = keep_labels(&input[first].labels, by);
        out.push(AggregateSeries { metric: op_name(op).to_owned(), labels, values, timestamp });
        g = g + 1;
    }
    out
}

/// Two series are added up together exactly when they agree on the labels of
/// the `by` clause.
pub proof fn groups_are_kept_labels(input: Seq<Series>, by: Seq<Seq<char>>, i: int, j: int)
    requires
        0 <= i < input.len(),
        0 <= j < input.len(),
    ensures
        (exists|g: int|
            0 <= g < grouping(aggregate_keys(input, by)).len() && (#[trigger] grouping(
                aggregate_keys(input, by),
            )[g]).1.contains(i) && grouping(aggregate_keys(input, by))[g].1.contains(j))
            <==> kept_labels(input[i].labels@, by) == kept_labels(input[j].labels@, by),
{
    let a = kept_labels(input[i].labels@, by);
    let b = kept_labels(input[j].labels@, by);
    labels_are_finite(input[i].labels);
    labels_are_finite(input[j].labels);
    assert(a.dom().subset_of(input[i].labels@.dom()));
    assert(b.dom().subset_of(input[j].labels@.dom()));
    vstd::set_lib::lemma_len_subset(a.dom(), input[i].labels@.dom());
    vstd::set_lib::lemma_len_subset(b.dom(), input[j].labels@.dom());
    label_keys_tell_labels_apart(a, b);
    together_where_keys_agree(aggregate_keys(input, by), i, j);
}

// ── Histogram quantiles ─────────────────────────────────────────────

/// What a quantile is computed from: for each series of a group the positions
/// of the points whose buckets add up to it.
#[derive(Debug)]
pub struct HistogramGroup {
    pub metric: String,
    pub labels: Labels,
    pub series: Vec<Vec<usize>>,
    pub timestamp: Timestamp,
}

/// The points of a series that add up to its distribution, and its instant.
pub struct Collapsed {
    pub parts: Seq<int>,
    pub instant: Instant,
}

pub open spec fn is_delta(p: MetricPoint) -> bool {
    p.histogram matches Some(h) && h.temporality == Temporality::Delta
}

/// Delta histograms add up over the window. A cumulative one already holds
/// every earlier observation, so a newer one takes the place of what was
/// there.
pub open spec fn collapse(points: Seq<MetricPoint>, members: Seq<int>) -> Collapsed
    decreases members.len(),
{
    if members.len() <= 1 {
        Collapsed { parts: seq![members[0]], instant: points[members[0]].timestamp@ }
    } else {
        let acc = collapse(points, members.drop_last());
        let at = members.last();
        let here = points[at].timestamp@;
        if is_delta(points[at]) {
            Collapsed {
                parts: acc.parts.push(at),
                instant: if earlier(acc.instant, here) {
                    here
                } else {
                    acc.instant
                },
            }
        } else if earlier(acc.instant, here) {
            Collapsed { parts: seq![at], instant: here }
        } else {
            acc
        }
    }
}

fn delta(p: &MetricPoint) -> (r: bool)
    ensures
        r == is_delta(*p),
{
    match &p.histogram {
        Some(h) => match h.temporality {
            Temporality::Delta => true,
            Temporality::Cumulative => false,
        },
        None => false,
    }
}

fn collapse_series(points: &Vec<MetricPoint>, members: &Vec<usize>) -> (r: (Vec<usize>, Timestamp))
    requires
        members@.len() > 0,
        forall|k: int| 0 <= k < members@.len() ==> #[trigger] members@[k] < points@.len(),
    ensures
        r.0@.map_values(|i: usize| i as int) == collapse(
            points@,
            members@.map_values(|i: usize| i as int),
        ).parts,
        r.1@ == collapse(points@, members@.map_values(|i: usize| i as int)).instant,
        r.0@.len() > 0,
        forall|k: int| 0 <= k < r.0@.len() ==> #[trigger] r.0@[k] < points@.len(),
{
    let ghost all = members@.map_values(|i: usize| i as int);
    let first: usize = members[0];
    let mut parts: Vec<usize> = Vec::new();
    parts.push(first);
    let mut timestamp: Timestamp = points[first].timestamp;
    let mut k: usize = 1;
    assert(all.take(1)[0] == first);
    assert(parts@.map_values(|i: usize| i as int) =~= seq![first as int]);
    while k < members.len()
        invariant
            1 <= k <= members@.len(),
            all == members@.map_values(|i: usize| i as int),
            forall|k: int| 0 <= k < members@.len() ==> #[trigger] members@[k] < points@.len(),
            parts@.len() > 0,
            forall|k: int| 0 <= k < parts@.len() ==> #[trigger] parts@[k] < points@.len(),
            parts@.map_values(|i: usize| i as int) == collapse(
                points@,
                all.take(k as int),
            ).parts,
            timestamp@ == collapse(points@, all.take(k as int)).instant,
        decreases members@.len() - k,
    {
        let at: usize = members[k];
        let ghost before = parts@.map_values(|i: usize| i as int);
        assert(all.take(k as int + 1).drop_last() =~= all.take(k as int));
        assert(all.take(k as int + 1).last() == at);
        if delta(&points[at]) {
            parts.push(at);
            assert(parts@.map_values(|i: usize| i as int) =~= before.push(at as int));
            if timestamp.before(&points[at].timestamp) {
                timestamp = points[at].timestamp;
            }
        } else if timestamp.before(&points[at].timestamp) {
            parts = Vec::new();
            parts.push(at);
            assert(parts@.map_values(|i: usize| i as int) =~= seq![at as int]);
            timestamp = points[at].timestamp;
        }
        k = k + 1;
    }
    assert(all.take(members@.len() as int) =~= all);
    (parts, timestamp)
}

/// The label subset a point contributes to a `by (...)` grouping. With no
/// grouping labels, the point's full label set is preserved.
pub open spec fn group_labels_of(p: MetricPoint, by: Seq<Seq<char>>) -> Map<Seq<char>, Seq<char>> {
    if by.len() == 0 {
        series_labels_of(p)
    } else {
        Map::new(
            |n: Seq<char>| by.contains(n) && label_of(p, n) is Some,
            |n: Seq<char>| label_of(p, n)->0,
        )
    }
}

pub fn group_labels(point: &MetricPoint, by: &Vec<String>) -> (r: Labels)
    ensures
        r@ == group_labels_of(*point, texts(by@)),
{
    if by.len() == 0 {
        return series_labels(point);
    }
    let mut out = Labels::new();
    let ghost names = texts(by@);
    let mut i: usize = 0;
    let ghost upto = |k: int|
        Map::<Seq<char>, Seq<char>>::new(
            |n: Seq<char>| names.take(k).contains(n) && label_of(*point, n) is Some,
            |n: Seq<char>| label_of(*point, n)->0,
        );
    assert(out@ =~= upto(0));
    while i < by.len()
        invariant
            i <= by@.len(),
            names == texts(by@),
            upto == (|k: int|
                Map::<Seq<char>, Seq<char>>::new(
                    |n: Seq<char>| names.take(k).contains(n) && label_of(*point, n) is Some,
                    |n: Seq<char>| label_of(*point, n)->0,
                )),
            out@ == upto(i as int),
        decreases by@.len() - i,
    {
        if let Some(v) = label_value(point, by[i].as_str()) {
            out.insert(by[i].clone(), v.clone());
        }
        proof {
            let t = names.take(i as int + 1);
            assert(t =~= names.take(i as int).push(names[i as int]));
            assert forall|n: Seq<char>| #[trigger] t.contains(n) == (names.take(i as int).contains(n)
                || n == names[i as int]) by {
                if names.take(i as int).contains(n) {
                    let k = choose|k: int| 0 <= k < i && names.take(i as int)[k] == n;
                    assert(t[k] == n);
                }
                if n == names[i as int] {
                    assert(t[i as int] == n);
                }
            }
            assert(out@ =~= upto(i as int + 1));
        }
        i = i + 1;
    }
    assert(names.take(by@.len() as int) =~= names);
    out
}

/// The series of some points, each collapsed to one distribution, in the
/// order of their keys.
pub open spec fn collapsed(points: Seq<MetricPoint>) -> Seq<Collapsed> {
    series_groups(points).map_values(|g: (Seq<char>, Seq<int>)| collapse(points, g.1))
}

/// The texts that tell the groups of a quantile apart: the series themselves,
/// or the labels of the `by` clause.
pub open spec fn histogram_keys(points: Seq<MetricPoint>, by: Seq<Seq<char>>) -> Seq<Seq<char>> {
    if by.len() == 0 {
        series_groups(points).map_values(|g: (Seq<char>, Seq<int>)| g.0)
    } else {
        collapsed(points).map_values(
            |c: Collapsed| labels_key_of(group_labels_of(points[c.parts[0]], by)),
        )
    }
}

/// A group's labels and instant are those of its first series.
pub open spec fn is_histogram_group(
    r: HistogramGroup,
    points: Seq<MetricPoint>,
    by: Seq<Seq<char>>,
    members: Seq<int>,
) -> bool {
    let first = collapsed(points)[members[0]];
    let base = points[first.parts[0]];
    &&& r.metric@ == base.name@
    &&& r.labels@ == group_labels_of(base, by)
    &&& r.timestamp@ == first.instant
    &&& r.series@.len() == members.len()
    &&& forall|k: int|
        0 <= k < members.len() ==> (#[trigger] r.series@[k])@.map_values(|i: usize| i as int)
            == collapsed(points)[members[k]].parts
}

pub open spec fn has_histogram(p: MetricPoint) -> bool {
    p.histogram is Some
}

/// The points that carry a bucket layout, in order. A metric that has none
/// has no quantile.
fn keep_histograms(raw: Vec<MetricPoint>) -> (r: Vec<MetricPoint>)
    ensures
        r@ == raw@.filter(|p: MetricPoint| has_histogram(p)),
{
    let ghost keep = |p: MetricPoint| has_histogram(p);
    let ghost all = raw@;
    let mut out: Vec<MetricPoint> = Vec::new();
    proof {
        reveal(Seq::filter);
    }
    for p in it: raw
        invariant
            it.seq() == all,
            keep == (|p: MetricPoint| has_histogram(p)),
            out@ == all.take(it.index()).filter(keep),
    {
        proof {
            reveal(Seq::filter);
            assert(all.take(it.index() + 1).drop_last() =~= all.take(it.index()));
        }
        if p.histogram.is_some() {
            out.push(p);
        }
    }
    assert(all.take(all.len() as int) =~= all);
    out
}

fn group_histograms(points: &Vec<MetricPoint>, by: &Vec<String>) -> (r: Vec<HistogramGroup>)
    ensures
        r@.len() == grouping(histogram_keys(points@, texts(by@))).len(),
        forall|g: int|
            0 <= g < r@.len() ==> is_histogram_group(
                #[trigger] r@[g],
                points@,
                texts(by@),
                grouping(histogram_keys(points@, texts(by@)))[g].1,
            ),
{
    let ghost names = texts(by@);
    let groups = group_series(points);
    let ghost views = group_views(groups@);
    let ghost wanted = histogram_keys(points@, names);
    let mut keys: Vec<String> = Vec::new();
    let mut parts: Vec<Vec<usize>> = Vec::new();
    let mut instants: Vec<Timestamp> = Vec::new();
    let mut i: usize = 0;
    while i < groups.len()
        invariant
            i <= groups@.len(),
            names == texts(by@),
            by@.len() == names.len(),
            views == group_views(groups@),
            views == series_groups(points@),
            wanted == histogram_keys(points@, names),
            forall|g: int, k: int|
                0 <= g < groups@.len() && 0 <= k < groups@[g].members@.len()
                    ==> #[trigger] groups@[g].members@[k] < points@.len(),
            forall|g: int| 0 <= g < groups@.len() ==> (#[trigger] groups@[g]).members@.len() > 0,
            texts(keys@) == wanted.take(i as int),
            parts@.len() == i,
            instants@.len() == i,
            forall|k: int|
                0 <= k < i ==> (#[trigger] parts@[k])@.map_values(|i: usize| i as int) == collapsed(
                    points@,
                )[k].parts && parts@[k]@.len() > 0 && parts@[k]@[0] < points@.len(),
            forall|k: int|
                0 <= k < i ==> (#[trigger] instants@[k])@ == collapsed(points@)[k].instant,
        decreases groups@.len() - i,
    {
        let ghost before = keys@;
        assert(views[i as int] == groups@[i as int]@);
        assert(groups@[i as int].members@.len() > 0);
        let (these, instant) = collapse_series(points, &groups[i].members);
        assert(these@.map_values(|i: usize| i as int) == collapsed(points@)[i as int].parts);
        let key: String = if by.len() == 0 {
            groups[i].key.clone()
        } else {
            let base: usize = these[0];
            assert(collapsed(points@)[i as int].parts[0] == base);
            let labels = group_labels(&points[base], by);
            labels_key(&labels)
        };
        keys.push(key);
        parts.push(these);
        instants.push(instant);
        assert(texts(keys@) =~= texts(before).push(key@));
        assert(key@ == wanted[i as int]);
        i = i + 1;
        assert(texts(keys@) =~= wanted.take(i as int));
    }
    assert(wanted.take(groups@.len() as int) =~= wanted);
    assert(keys@.len() == texts(keys@).len());
    let outer = group_by(&keys);
    let ghost outer_views = group_views(outer@);
    let mut out: Vec<HistogramGroup> = Vec::new();
    let mut g: usize = 0;
    while g < outer.len()
        invariant
            g <= outer@.len(),
            names == texts(by@),
            outer_views == group_views(outer@),
            outer_views == grouping(histogram_keys(points@, names)),
            parts@.len() == keys@.len(),
            instants@.len() == keys@.len(),
            forall|g: int, k: int|
                0 <= g < outer@.len() && 0 <= k < outer@[g].members@.len()
                    ==> #[trigger] outer@[g].members@[k] < keys@.len(),
            forall|g: int| 0 <= g < outer@.len() ==> (#[trigger] outer@[g]).members@.len() > 0,
            forall|k: int|
                0 <= k < parts@.len() ==> (#[trigger] parts@[k])@.map_values(|i: usize| i as int)
                    == collapsed(points@)[k].parts && parts@[k]@.len() > 0 && parts@[k]@[0]
                    < points@.len(),
            forall|k: int|
                0 <= k < instants@.len() ==> (#[trigger] instants@[k])@ == collapsed(
                    points@,
                )[k].instant,
            out@.len() == g,
            forall|i: int|
                0 <= i < g ==> is_histogram_group(
                    #[trigger] out@[i],
                    points@,
                    names,
                    outer_views[i].1,
                ),
        decreases outer@.len() - g,
    {
        let members = &outer[g].members;
        let ghost all = outer_views[g as int].1;
        assert(outer_views[g as int] == outer@[g as int]@);
        assert(outer@[g as int].members@.len() > 0);
        let first: usize = members[0];
        assert(outer@[g as int].members@[0] < keys@.len());
        let base: usize = parts[first][0];
        assert(collapsed(points@)[all[0]].parts[0] == base) by {
            assert(parts@[first as int]@.map_values(|i: usize| i as int)[0] == base);
        }
        let labels = group_labels(&points[base], by);
        let mut series: Vec<Vec<usize>> = Vec::new();
        let mut k: usize = 0;
        while k < members.len()
            invariant
                k <= members@.len(),
                all == members@.map_values(|i: usize| i as int),
                forall|k: int| 0 <= k < members@.len() ==> #[trigger] members@[k] < parts@.len(),
                forall|k: int|
                    0 <= k < parts@.len() ==> (#[trigger] parts@[k])@.map_values(
                        |i: usize| i as int,
                    ) == collapsed(points@)[k].parts,
                series@.len() == k,
                forall|j: int|
                    0 <= j < k ==> (#[trigger] series@[j])@.map_values(|i: usize| i as int)
                        == collapsed(points@)[all[j]].parts,
            decreases members@.len() - k,
        {
            let at: usize = members[k];
            let copy = copy_indices(&parts[at]);
            series.push(copy);
            k = k + 1;
        }
        out.push(
            HistogramGroup {
                metric: points[base].name.clone(),
                labels,
                series,
                timestamp: instants[first],
            },
        );
        g = g + 1;
    }
    out
}

fn copy_indices(v: &Vec<usize>) -> (r: Vec<usize>)
    ensures
        r@ == v@,
{
    let mut out: Vec<usize> = Vec::new();
    let mut i: usize = 0;
    while i < v.len()
        invariant
            i <= v@.len(),
            out@ == v@.take(i as int),
        decreases v@.len() - i,
    {
        out.push(v[i]);
        i = i + 1;
        assert(out@ =~= v@.take(i as int));
    }
    assert(out@ =~= v@);
    out
}

/// The points that carry a bucket layout, and how they fall into the groups
/// of a histogram quantile, in the order of the groups' keys.
///
/// Points combine according to their temporality: delta histograms are summed
/// across the window, while cumulative ones already carry every prior
/// observation so only the newest point per series is used.
pub fn eval_histogram_quantile(raw: Vec<MetricPoint>, by: &Vec<String>) -> (r: (
    Vec<MetricPoint>,
    Vec<HistogramGroup>,
))
    ensures
        r.0@ == raw@.filter(|p: MetricPoint| has_histogram(p)),
        r.1@.len() == grouping(histogram_keys(r.0@, texts(by@))).len(),
        forall|g: int|
            0 <= g < r.1@.len() ==> is_histogram_group(
                #[trigger] r.1@[g],
                r.0@,
                texts(by@),
                grouping(histogram_keys(r.0@, texts(by@)))[g].1,
            ),
{
    let points = keep_histograms(raw);
    let groups = group_histograms(&points, by);
    (points, groups)
}

// ── The query of an expression ──────────────────────────────────────

/// The selector at the heart of an expression. There is exactly one.
pub open spec fn selector_of(e: Expr) -> Selector
    decreases e,
{
    match e {
        Expr::Selector(s) => s,
        Expr::Rate { selector, .. } => selector,
        Expr::Aggregate { inner, .. } => selector_of(*inner),
        Expr::HistogramQuantile { selector, .. } => selector,
        Expr::Compare { inner, .. } => selector_of(*inner),
    }
}

/// How far back an expression looks: over its range where it has one, and over
/// the lookback otherwise.
pub open spec fn window_of(e: Expr, lookback_seconds: i64) -> i64
    decreases e,
{
    match e {
        Expr::Rate { range_seconds, .. } => range_seconds,
        Expr::Aggregate { inner, .. } => window_of(*inner, lookback_seconds),
        Expr::Compare { inner, .. } => window_of(*inner, lookback_seconds),
        _ => lookback_seconds,
    }
}

/// The one query that an expression needs, and the selector that its points
/// have to satisfy.
pub fn source(expr: &Expr, lookback_seconds: i64) -> (r: (MetricQuery, &Selector))
    ensures
        *r.1 == selector_of(*expr),
        r.0.name matches Some(n) && n@ == selector_of(*expr).metric@,
        r.0.last_seconds == Some(window_of(*expr, lookback_seconds)),
        r.0.limit == Some(10000u32),
        r.0.service is None,
        r.0.metric_type is None,
        r.0.tenant is None,
    decreases expr,
{
    match expr {
        Expr::Selector(s) => (fetch_query(s, lookback_seconds), s),
        Expr::Rate { selector, range_seconds } => (
            fetch_query(selector, *range_seconds),
            selector,
        ),
        Expr::Aggregate { inner, .. } => source(inner, lookback_seconds),
        Expr::HistogramQuantile { selector, .. } => (
            fetch_query(selector, lookback_seconds),
            selector,
        ),
        Expr::Compare { inner, .. } => source(inner, lookback_seconds),
    }
}

// ── Comparisons ─────────────────────────────────────────────────────

/// How far a value is from a threshold: by less than the gap between one and
/// the next double, by that much or more, or not at all to be said.
#[derive(Debug, Clone, Copy, PartialEq, Eq, Structural)]
pub enum Distance {
    Near,
    Far,
    Undefined,
}

/// Whether one double is more than another.
pub open spec fn is_more(a: u64, b: u64) -> bool {
    is_at_least(a, b) && !is_at_least(b, a)
}

impl CompareOp {
    /// Whether a comparison holds of a value and a threshold, both the bits of
    /// doubles, given how far apart they are. Equality is nearness; a NaN
    /// satisfies nothing.
    pub open spec fn holds(self, value: u64, threshold: u64, distance: Distance) -> bool {
        match self {
            CompareOp::Gt => is_more(value, threshold),
            CompareOp::Gte => is_at_least(value, threshold),
            CompareOp::Lt => is_more(threshold, value),
            CompareOp::Lte => is_at_least(threshold, value),
            CompareOp::Eq => distance == Distance::Near,
            CompareOp::NotEq => distance == Distance::Far,
        }
    }

    pub fn test(self, value: u64, threshold: u64, distance: Distance) -> (r: bool)
        ensures
            r == self.holds(value, threshold, distance),
    {
        match self {
            CompareOp::Gt => at_least(value, threshold) && !at_least(threshold, value),
            CompareOp::Gte => at_least(value, threshold),
            CompareOp::Lt => at_least(threshold, value) && !at_least(value, threshold),
            CompareOp::Lte => at_least(threshold, value),
            CompareOp::Eq => distance == Distance::Near,
            CompareOp::NotEq => distance == Distance::Far,
        }
    }
}

/// The series that satisfy a comparison, in order.
pub open spec fn compared(
    input: Seq<Series>,
    op: CompareOp,
    threshold: u64,
    distances: Seq<Distance>,
) -> Seq<Series>
    decreases input.len(),
{
    if input.len() == 0 {
        Seq::empty()
    } else {
        let before = compared(input.drop_last(), op, threshold, distances);
        if op.holds(input.last().value, threshold, distances[input.len() - 1]) {
            before.push(input.last())
        } else {
            before
        }
    }
}

/// Keep the series that satisfy a comparison, given how far each is from the
/// threshold.
pub fn compare(
    input: Vec<Series>,
    op: CompareOp,
    threshold: u64,
    distances: &Vec<Distance>,
) -> (r: Vec<Series>)
    requires
        input@.len() == distances@.len(),
    ensures
        r@ == compared(input@, op, threshold, distances@),
{
    let ghost all = input@;
    let n: usize = distances.len();
    let mut out: Vec<Series> = Vec::new();
    let mut i: usize = 0;
    assert(all.take(0) =~= Seq::<Series>::empty());
    for s in it: input
        invariant
            it.seq() == all,
            i == it.index(),
            all.len() == distances@.len() == n,
            out@ == compared(all.take(it.index()), op, threshold, distances@),
    {
        proof {
            assert(all.take(i + 1).drop_last() =~= all.take(i as int));
            assert(all.take(i + 1).last() == s);
        }
        if op.test(s.value, threshold, distances[i]) {
            out.push(s);
        }
        i = i + 1;
    }
    assert(all.take(n as int) =~= all);
    out
}

// ── Aggregation ─────────────────────────────────────────────────────

/// The bits of a NaN, of infinity, and of its negative.
pub const NAN_BITS: u64 = 0x7ff8_0000_0000_0000;

pub const INFINITY_BITS: u64 = 0x7ff0_0000_0000_0000;

pub const NEGATIVE_INFINITY_BITS: u64 = 0xfff0_0000_0000_0000;

/// The least of some doubles; infinity where none of them is a number.
pub open spec fn least_of(values: Seq<u64>) -> u64
    decreases values.len(),
{
    if values.len() == 0 {
        INFINITY_BITS
    } else {
        lesser_of(least_of(values.drop_last()), values.last())
    }
}

/// The greatest of some doubles; negative infinity where none of them is a
/// number.
pub open spec fn greatest_of(values: Seq<u64>) -> u64
    decreases values.len(),
{
    if values.len() == 0 {
        NEGATIVE_INFINITY_BITS
    } else {
        greater_of(greatest_of(values.drop_last()), values.last())
    }
}

impl AggOp {
    /// What an aggregator makes of some values, given their sum and their mean.
    pub open spec fn applied(self, values: Seq<u64>, sum: u64, mean: u64) -> u64 {
        if values.len() == 0 {
            NAN_BITS
        } else {
            match self {
                AggOp::Sum => sum,
                AggOp::Avg => mean,
                AggOp::Min => least_of(values),
                AggOp::Max => greatest_of(values),
                AggOp::Count => magnitude_bits(values.len()) as u64,
            }
        }
    }

    pub fn apply(self, values: &Vec<u64>, sum: u64, mean: u64) -> (r: u64)
        ensures
            r == self.applied(values@, sum, mean),
    {
        if values.len() == 0 {
            return NAN_BITS;
        }
        match self {
            AggOp::Sum => sum,
            AggOp::Avg => mean,
            AggOp::Min => {
                let mut least: u64 = INFINITY_BITS;
                let mut i: usize = 0;
                assert(values@.take(0) =~= Seq::<u64>::empty());
                while i < values.len()
                    invariant
                        i <= values@.len(),
                        least == least_of(values@.take(i as int)),
                    decreases values@.len() - i,
                {
                    assert(values@.take(i + 1).drop_last() =~= values@.take(i as int));
                    least = lesser(least, values[i]);
                    i = i + 1;
                }
                assert(values@.take(values@.len() as int) =~= values@);
                least
            },
            AggOp::Max => {
                let mut greatest: u64 = NEGATIVE_INFINITY_BITS;
                let mut i: usize = 0;
                assert(values@.take(0) =~= Seq::<u64>::empty());
                while i < values.len()
                    invariant
                        i <= values@.len(),
                        greatest == greatest_of(values@.take(i as int)),
                    decreases values@.len() - i,
                {
                    assert(values@.take(i + 1).drop_last() =~= values@.take(i as int));
                    greatest = greater(greatest, values[i]);
                    i = i + 1;
                }
                assert(values@.take(values@.len() as int) =~= values@);
                greatest
            },
            AggOp::Count => nearest_double(values.len() as u64),
        }
    }
}

// ── Laws ────────────────────────────────────────────────────────────

/// A cumulative series comes down to a single point, none of whose fellows is
/// newer.
pub proof fn cumulative_uses_only_the_newest(points: Seq<MetricPoint>, members: Seq<int>)
    requires
        members.len() > 0,
        forall|k: int| 0 <= k < members.len() ==> !is_delta(points[#[trigger] members[k]]),
    ensures
        collapse(points, members).parts == seq![newest(points, members)],
        collapse(points, members).instant == points[newest(points, members)].timestamp@,
        forall|k: int|
            0 <= k < members.len() ==> !earlier(
                points[newest(points, members)].timestamp@,
                points[#[trigger] members[k]].timestamp@,
            ),
    decreases members.len(),
{
    if members.len() > 1 {
        let init = members.drop_last();
        assert forall|k: int| 0 <= k < init.len() implies !is_delta(points[#[trigger] init[k]]) by {
            assert(init[k] == members[k]);
        }
        cumulative_uses_only_the_newest(points, init);
        assert forall|k: int| 0 <= k < members.len() implies !earlier(
            points[newest(points, members)].timestamp@,
            points[#[trigger] members[k]].timestamp@,
        ) by {
            if k < members.len() - 1 {
                assert(init[k] == members[k]);
            }
        }
    }
}

/// A delta series adds up every one of its points, in order.
pub proof fn delta_accumulates(points: Seq<MetricPoint>, members: Seq<int>)
    requires
        members.len() > 0,
        forall|k: int| 0 <= k < members.len() ==> is_delta(points[#[trigger] members[k]]),
    ensures
        collapse(points, members).parts == members,
    decreases members.len(),
{
    if members.len() > 1 {
        let init = members.drop_last();
        assert forall|k: int| 0 <= k < init.len() implies is_delta(points[#[trigger] init[k]]) by {
            assert(init[k] == members[k]);
        }
        delta_accumulates(points, init);
        assert(members =~= init.push(members.last()));
    } else {
        assert(members =~= seq![members[0]]);
    }
}

/// Between two numbers `>=` is the contrary of `<` and `<=` that of `>`, and
/// nothing is both more and less.
pub proof fn order_is_total(value: u64, threshold: u64, distance: Distance)
    requires
        !crate::doubles::is_nan_bits(value),
        !crate::doubles::is_nan_bits(threshold),
    ensures
        CompareOp::Gte.holds(value, threshold, distance) == !CompareOp::Lt.holds(
            value,
            threshold,
            distance,
        ),
        CompareOp::Lte.holds(value, threshold, distance) == !CompareOp::Gt.holds(
            value,
            threshold,
            distance,
        ),
        !(CompareOp::Gt.holds(value, threshold, distance) && CompareOp::Lt.holds(
            value,
            threshold,
            distance,
        )),
{
}

/// A matcher looks at the label of its name: the service, the metric's own name,
/// or an attribute; a label that is missing counts as empty. `!=` holds exactly
/// where `=` does not.
pub proof fn matchers_compare_the_label(p: MetricPoint, eq: LabelMatcher, not_eq: LabelMatcher)
    requires
        eq.name@ == not_eq.name@,
        eq.value@ == not_eq.value@,
        eq.op == MatchOp::Eq,
        not_eq.op == MatchOp::NotEq,
    ensures
        matcher_holds(p, eq) <==> !matcher_holds(p, not_eq),
        eq.name@ == "service"@ ==> (matcher_holds(p, eq) <==> p.service@ == eq.value@),
        eq.name@ == "__name__"@ ==> (matcher_holds(p, eq) <==> p.name@ == eq.value@),
        eq.name@ != "service"@ && eq.name@ != "__name__"@ && p.attributes@.dom().contains(eq.name@)
            ==> (matcher_holds(p, eq) <==> p.attributes@[eq.name@] == eq.value@),
        eq.name@ != "service"@ && eq.name@ != "__name__"@ && !p.attributes@.dom().contains(
            eq.name@,
        ) ==> (matcher_holds(p, eq) <==> eq.value@.len() == 0),
{
    reveal_strlit("service");
    reveal_strlit("__name__");
    assert("service"@.len() == 7 && "__name__"@.len() == 8);
    if eq.value@.len() == 0 {
        assert(eq.value@ =~= Seq::<char>::empty());
    }
}

/// A point is kept only where each matcher holds: no matcher keeps every point,
/// and one matcher more keeps what both it and the others keep.
pub proof fn each_matcher_narrows(p: MetricPoint, matchers: Seq<LabelMatcher>, m: LabelMatcher)
    ensures
        all_hold(p, Seq::empty()),
        all_hold(p, matchers.push(m)) <==> all_hold(p, matchers) && matcher_holds(p, m),
{
    let more = matchers.push(m);
    if all_hold(p, more) {
        assert(matcher_holds(p, more[matchers.len() as int]));
        assert forall|i: int| 0 <= i < matchers.len() implies matcher_holds(
            p,
            #[trigger] matchers[i],
        ) by {
            assert(more[i] == matchers[i]);
        }
    }
}

/// A rate looks back over its own range, however it is aggregated or compared;
/// anything else looks back as far as the caller says. What is asked for is the
/// selector within.
pub proof fn windows_are_those_of_the_rate(
    selector: Selector,
    range_seconds: i64,
    inner: Expr,
    op: AggOp,
    by: Vec<String>,
    compare: CompareOp,
    number: String,
    lookback: i64,
)
    ensures
        window_of(Expr::Rate { selector, range_seconds }, lookback) == range_seconds,
        window_of(Expr::Selector(selector), lookback) == lookback,
        window_of(Expr::HistogramQuantile { phi: number, selector, by }, lookback) == lookback,
        window_of(Expr::Aggregate { op, by, inner: Box::new(inner) }, lookback) == window_of(
            inner,
            lookback,
        ),
        window_of(
            Expr::Compare { inner: Box::new(inner), op: compare, threshold: number },
            lookback,
        ) == window_of(inner, lookback),
        selector_of(Expr::Rate { selector, range_seconds }) == selector,
        selector_of(Expr::Selector(selector)) == selector,
        selector_of(Expr::HistogramQuantile { phi: number, selector, by }) == selector,
        selector_of(Expr::Aggregate { op, by, inner: Box::new(inner) }) == selector_of(inner),
        selector_of(Expr::Compare { inner: Box::new(inner), op: compare, threshold: number })
            == selector_of(inner),
{
}

/// Whether no point is later than the `n`th, and those before it are earlier.
pub open spec fn is_newest_at(points: Seq<MetricPoint>, members: Seq<int>, n: int) -> bool {
    &&& 0 <= n < members.len()
    &&& forall|k: int|
        0 <= k < members.len() ==> !earlier(
            points[members[n]].timestamp@,
            points[#[trigger] members[k]].timestamp@,
        )
    &&& forall|k: int|
        0 <= k < n ==> earlier(
            points[#[trigger] members[k]].timestamp@,
            points[members[n]].timestamp@,
        )
}

/// The newest point of a series is one of its points, and none is later; of
/// several that are as late, the first one found is taken.
pub proof fn newest_is_not_outlived(points: Seq<MetricPoint>, members: Seq<int>)
    requires
        members.len() > 0,
    ensures
        exists|n: int| #[trigger]
            is_newest_at(points, members, n) && members[n] == newest(points, members),
    decreases members.len(),
{
    if members.len() > 1 {
        let init = members.drop_last();
        newest_is_not_outlived(points, init);
        let n = choose|n: int| #[trigger]
            is_newest_at(points, init, n) && init[n] == newest(points, init);
        let m = if earlier(points[init[n]].timestamp@, points[members.last()].timestamp@) {
            members.len() - 1
        } else {
            n
        };
        assert(is_newest_at(points, members, m)) by {
            assert forall|k: int| 0 <= k < members.len() implies !earlier(
                points[members[m]].timestamp@,
                points[#[trigger] members[k]].timestamp@,
            ) by {
                if k < init.len() {
                    assert(init[k] == members[k]);
                }
            }
            assert forall|k: int| 0 <= k < m implies earlier(
                points[#[trigger] members[k]].timestamp@,
                points[members[m]].timestamp@,
            ) by {
                assert(init[k] == members[k]);
            }
        }
        assert(members[m] == newest(points, members));
    } else {
        assert(is_newest_at(points, members, 0));
    }
}

/// A rate is taken from a point that none precedes to a point that none follows.
pub proof fn rates_span_the_series(points: Seq<MetricPoint>, members: Seq<int>)
    requires
        members.len() > 0,
    ensures
        members.contains(oldest(points, members)),
        members.contains(newest_last(points, members)),
        forall|k: int|
            0 <= k < members.len() ==> !earlier(
                points[#[trigger] members[k]].timestamp@,
                points[oldest(points, members)].timestamp@,
            ) && !earlier(
                points[newest_last(points, members)].timestamp@,
                points[members[k]].timestamp@,
            ),
    decreases members.len(),
{
    if members.len() > 1 {
        let init = members.drop_last();
        rates_span_the_series(points, init);
        assert forall|k: int| 0 <= k < init.len() implies init[k] == #[trigger] members[k] by {}
        assert(members.contains(members[members.len() - 1]));
        let (o, n) = (oldest(points, init), newest_last(points, init));
        let (i, j) = (choose|i: int| 0 <= i < init.len() && init[i] == o, choose|j: int|
            0 <= j < init.len() && init[j] == n);
        assert(members[i] == o && members[j] == n);
        assert forall|k: int| 0 <= k < members.len() implies !earlier(
            points[#[trigger] members[k]].timestamp@,
            points[oldest(points, members)].timestamp@,
        ) && !earlier(
            points[newest_last(points, members)].timestamp@,
            points[members[k]].timestamp@,
        ) by {
            if k < init.len() {
                assert(init[k] == members[k]);
            }
        }
    } else {
        assert(members.contains(members[0]));
    }
}

/// A rate carries what its last point carries, the values at both ends, and the
/// whole seconds between them, at least one; a single point has no rate.
pub proof fn rates_carry_both_ends(s: RateSeries, points: Seq<MetricPoint>, members: Seq<int>)
    requires
        members.len() > 0,
        is_rate_of(s, points, members),
    ensures
        exists|i: int, j: int|
            #![trigger members.contains(i), members.contains(j)]
            members.contains(i) && members.contains(j) && s.first == points[i].value && s.last
                == points[j].value && s.timestamp == points[j].timestamp && s.metric@ == "rate("@
                + points[j].name@ + ")"@ && s.labels@ == points[j].attributes@.insert(
                "service"@,
                points[j].service@,
            ) && 0 <= elapsed(points[i].timestamp@, points[j].timestamp@) - s.elapsed_seconds
                * 1000000000 < 1000000000 && (forall|k: int|
                0 <= k < members.len() ==> !earlier(
                    points[#[trigger] members[k]].timestamp@,
                    points[i].timestamp@,
                ) && !earlier(points[j].timestamp@, points[members[k]].timestamp@)),
        s.elapsed_seconds >= 1,
        members.len() == 1 ==> !has_rate(points, members),
        members.len() >= 2 && has_rate(points, members) ==> elapsed(
            points[oldest(points, members)].timestamp@,
            points[newest_last(points, members)].timestamp@,
        ) >= 1000000000,
{
    rates_span_the_series(points, members);
    let (i, j) = (oldest(points, members), newest_last(points, members));
    assert(members.contains(i) && members.contains(j));
}

/// A result carries what its point carries: name, value and instant, and as
/// labels its attributes and its service.
pub proof fn results_carry_their_point(s: Series, p: MetricPoint)
    requires
        is_series_of(s, p),
    ensures
        s.metric@ == p.name@,
        s.value == p.value,
        s.timestamp == p.timestamp,
        s.labels@.dom().contains("service"@) && s.labels@["service"@] == p.service@,
        forall|n: Seq<char>|
            n != "service"@ ==> (#[trigger] s.labels@.dom().contains(n)
                <==> p.attributes@.dom().contains(n)) && (p.attributes@.dom().contains(n)
                ==> s.labels@[n] == p.attributes@[n]),
{
}

/// Grouping keeps the labels that it is asked for, where a series has them, and
/// no others.
pub proof fn kept_labels_are_those_named(
    labels: Map<Seq<char>, Seq<char>>,
    by: Seq<Seq<char>>,
    n: Seq<char>,
)
    ensures
        kept_labels(labels, by).dom().contains(n) <==> by.contains(n) && labels.dom().contains(n),
        by.contains(n) && labels.dom().contains(n) ==> kept_labels(labels, by)[n] == labels[n],
        by.len() == 0 ==> kept_labels(labels, by) == Map::<Seq<char>, Seq<char>>::empty(),
{
    if by.len() == 0 {
        assert(kept_labels(labels, by) =~= Map::<Seq<char>, Seq<char>>::empty());
    }
}

/// An aggregate carries the name of its function, the labels it was grouped by,
/// the values of its members in order, and the latest of their instants.
pub proof fn aggregates_carry_their_members(
    r: AggregateSeries,
    input: Seq<Series>,
    op: AggOp,
    by: Seq<Seq<char>>,
    members: Seq<int>,
)
    requires
        members.len() > 0,
        is_aggregate_of(r, input, op, by, members),
    ensures
        crate::promql::agg_op(r.metric@) == Some(op),
        r.values@.len() == members.len(),
        forall|k: int|
            0 <= k < members.len() ==> #[trigger] r.values@[k] == input[members[k]].value,
        exists|k: int|
            0 <= k < members.len() && input[#[trigger] members[k]].timestamp@ == r.timestamp@,
        forall|k: int|
            0 <= k < members.len() ==> !earlier(
                r.timestamp@,
                input[#[trigger] members[k]].timestamp@,
            ),
        forall|n: Seq<char>| #[trigger]
            r.labels@.dom().contains(n) ==> by.contains(n) && r.labels@[n]
                == input[members[0]].labels@[n],
        forall|n: Seq<char>|
            #![trigger by.contains(n)]
            by.contains(n) && input[members[0]].labels@.dom().contains(n)
                ==> r.labels@.dom().contains(n),
{
    crate::promql_laws::aggregators_read_back(op);
    latest_is_latest(input, members);
}

proof fn latest_is_latest(input: Seq<Series>, members: Seq<int>)
    requires
        members.len() > 0,
    ensures
        exists|k: int|
            0 <= k < members.len() && input[#[trigger] members[k]].timestamp@ == latest(
                input,
                members,
            ),
        forall|k: int|
            0 <= k < members.len() ==> !earlier(
                latest(input, members),
                input[#[trigger] members[k]].timestamp@,
            ),
    decreases members.len(),
{
    if members.len() > 1 {
        let init = members.drop_last();
        latest_is_latest(input, init);
        let k = choose|k: int|
            0 <= k < init.len() && input[#[trigger] init[k]].timestamp@ == latest(input, init);
        assert(members[k] == init[k]);
        assert(members[members.len() - 1] == members.last());
        assert forall|k: int| 0 <= k < members.len() implies !earlier(
            latest(input, members),
            input[#[trigger] members[k]].timestamp@,
        ) by {
            if k < init.len() {
                assert(init[k] == members[k]);
            }
        }
    } else {
        assert(input[members[0]].timestamp@ == latest(input, members));
    }
}

/// Points of delta temporality add up: all of them are parts of the result.
/// Of cumulative ones, only a point that none outlives is.
pub proof fn temporality_decides_what_counts(points: Seq<MetricPoint>, members: Seq<int>)
    requires
        members.len() > 0,
    ensures
        (forall|k: int|
            0 <= k < members.len() ==> points[#[trigger] members[k]].histogram is Some
                && points[members[k]].histogram->0.temporality == Temporality::Delta) ==> collapse(
            points,
            members,
        ).parts == members,
        (forall|k: int|
            0 <= k < members.len() ==> points[#[trigger] members[k]].histogram is Some
                && points[members[k]].histogram->0.temporality == Temporality::Cumulative)
            ==> collapse(points, members).parts.len() == 1 && members.contains(
            collapse(points, members).parts[0],
        ) && forall|k: int|
            0 <= k < members.len() ==> !earlier(
                points[collapse(points, members).parts[0]].timestamp@,
                points[#[trigger] members[k]].timestamp@,
            ),
{
    if forall|k: int|
        0 <= k < members.len() ==> points[#[trigger] members[k]].histogram is Some
            && points[members[k]].histogram->0.temporality == Temporality::Delta {
        delta_accumulates(points, members);
    }
    if forall|k: int|
        0 <= k < members.len() ==> points[#[trigger] members[k]].histogram is Some
            && points[members[k]].histogram->0.temporality == Temporality::Cumulative {
        cumulative_uses_only_the_newest(points, members);
        newest_is_not_outlived(points, members);
        let n = choose|n: int| #[trigger]
            is_newest_at(points, members, n) && members[n] == newest(points, members);
        assert(members.contains(members[n]));
    }
}

/// A histogram grouped by nothing keeps all its labels; grouped by names, those
/// of them that it has, its service and its own name among them.
pub proof fn histograms_keep_the_labels_named(p: MetricPoint, by: Seq<Seq<char>>, n: Seq<char>)
    ensures
        by.len() == 0 ==> group_labels_of(p, by) == p.attributes@.insert("service"@, p.service@),
        by.len() > 0 ==> (group_labels_of(p, by).dom().contains(n) ==> by.contains(n)),
        by.contains(n) && n == "service"@ ==> group_labels_of(p, by).dom().contains(n)
            && group_labels_of(p, by)[n] == p.service@,
        by.contains(n) && n == "__name__"@ ==> group_labels_of(p, by).dom().contains(n)
            && group_labels_of(p, by)[n] == p.name@,
        by.contains(n) && n != "service"@ && n != "__name__"@ ==> (group_labels_of(
            p,
            by,
        ).dom().contains(n) <==> p.attributes@.dom().contains(n)),
        by.contains(n) && n != "service"@ && n != "__name__"@ && p.attributes@.dom().contains(n)
            ==> group_labels_of(p, by)[n] == p.attributes@[n],
{
    reveal_strlit("service");
    reveal_strlit("__name__");
    assert("service"@.len() == 7 && "__name__"@.len() == 8);
}

/// A comparison means what its symbol says; nothing compares with what is no
/// number.
pub proof fn comparisons_mean_their_symbol(
    op: CompareOp,
    value: u64,
    threshold: u64,
    distance: Distance,
)
    ensures
        !is_nan_bits(value) && !is_nan_bits(threshold) ==> {
            &&& op.symbol() == ">"@ ==> (op.holds(value, threshold, distance) <==> !is_at_least(
                threshold,
                value,
            ))
            &&& op.symbol() == ">="@ ==> (op.holds(value, threshold, distance) <==> is_at_least(
                value,
                threshold,
            ))
            &&& op.symbol() == "<"@ ==> (op.holds(value, threshold, distance) <==> !is_at_least(
                value,
                threshold,
            ))
            &&& op.symbol() == "<="@ ==> (op.holds(value, threshold, distance) <==> is_at_least(
                threshold,
                value,
            ))
        },
        op.symbol() == "=="@ ==> (op.holds(value, threshold, distance) <==> distance
            == Distance::Near),
        op.symbol() == "!="@ ==> (op.holds(value, threshold, distance) <==> distance
            == Distance::Far),
        (is_nan_bits(value) || is_nan_bits(threshold)) && op.symbol() != "=="@ && op.symbol()
            != "!="@ ==> !op.holds(value, threshold, distance),
{
    reveal_strlit(">=");
    reveal_strlit("<=");
    reveal_strlit("==");
    reveal_strlit("!=");
    reveal_strlit(">");
    reveal_strlit("<");
    assert(">="@[0] == '>' && "<="@[0] == '<' && "=="@[0] == '=' && "!="@[0] == '!' && ">"@[0]
        == '>' && "<"@[0] == '<');
    assert(">="@.len() == 2 && "<="@.len() == 2 && ">"@.len() == 1 && "<"@.len() == 1 && "=="@.len()
        == 2 && "!="@.len() == 2);
}

/// What a comparison keeps: the series where it holds, each unchanged and in
/// their order.
pub proof fn comparisons_keep_what_holds(
    input: Seq<Series>,
    op: CompareOp,
    threshold: u64,
    distances: Seq<Distance>,
)
    ensures
        exists|at: Seq<int>| #[trigger]
            kept_at(at, input, op, threshold, distances) && compared(
                input,
                op,
                threshold,
                distances,
            ) == at.map_values(|i: int| input[i]),
    decreases input.len(),
{
    if input.len() == 0 {
        let at = Seq::<int>::empty();
        assert(kept_at(at, input, op, threshold, distances));
        assert(compared(input, op, threshold, distances) =~= at.map_values(|i: int| input[i]));
    } else {
        let init = input.drop_last();
        let n = init.len() as int;
        comparisons_keep_what_holds(init, op, threshold, distances);
        let before = choose|at: Seq<int>| #[trigger]
            kept_at(at, init, op, threshold, distances) && compared(init, op, threshold, distances)
                == at.map_values(|i: int| init[i]);
        let holds = op.holds(input.last().value, threshold, distances[n]);
        let at = if holds {
            before.push(n)
        } else {
            before
        };
        assert forall|i: int| 0 <= i < input.len() implies (#[trigger] op.holds(
            input[i].value,
            threshold,
            distances[i],
        ) <==> at.contains(i)) by {
            if i < n {
                assert(init[i] == input[i]);
                assert(op.holds(init[i].value, threshold, distances[i]) <==> before.contains(i));
                if before.contains(i) {
                    let k = choose|k: int| 0 <= k < before.len() && before[k] == i;
                    assert(at[k] == i);
                }
                if at.contains(i) {
                    let k = choose|k: int| 0 <= k < at.len() && at[k] == i;
                    assert(before[k] == i);
                }
            } else if holds {
                assert(at[before.len() as int] == n);
            }
        }
        assert(kept_at(at, input, op, threshold, distances));
        assert forall|k: int| 0 <= k < before.len() implies init[#[trigger] before[k]]
            == input[before[k]] by {}
        assert(compared(input, op, threshold, distances) =~= at.map_values(|i: int| input[i]));
    }
}

/// The places, in order, of the series where a comparison holds.
pub open spec fn kept_at(
    at: Seq<int>,
    input: Seq<Series>,
    op: CompareOp,
    threshold: u64,
    distances: Seq<Distance>,
) -> bool {
    &&& forall|k: int| 0 <= k < at.len() ==> 0 <= #[trigger] at[k] < input.len()
    &&& forall|j: int, k: int| 0 <= j < k < at.len() ==> #[trigger] at[j] < #[trigger] at[k]
    &&& forall|i: int|
        0 <= i < input.len() ==> (#[trigger] op.holds(input[i].value, threshold, distances[i])
            <==> at.contains(i))
}

/// Each aggregator computes what it is called: the greatest and the least value
/// are among the values, the count is their number.
pub proof fn aggregators_compute_what_they_are_called(values: Seq<u64>, sum: u64, mean: u64)
    requires
        0 < values.len() < 0x20_0000_0000_0000,
        forall|i: int| 0 <= i < values.len() ==> !is_nan_bits(#[trigger] values[i]),
    ensures
        crate::promql::agg_op("max"@) matches Some(op) && values.contains(
            op.applied(values, sum, mean),
        ) && forall|i: int|
            0 <= i < values.len() ==> is_at_least(
                op.applied(values, sum, mean),
                #[trigger] values[i],
            ),
        crate::promql::agg_op("min"@) matches Some(op) && values.contains(
            op.applied(values, sum, mean),
        ) && forall|i: int|
            0 <= i < values.len() ==> is_at_least(
                #[trigger] values[i],
                op.applied(values, sum, mean),
            ),
        crate::promql::agg_op("sum"@) matches Some(op) && op.applied(values, sum, mean) == sum,
        crate::promql::agg_op("avg"@) matches Some(op) && op.applied(values, sum, mean) == mean,
        crate::promql::agg_op("count"@) matches Some(op) && op.applied(values, sum, mean)
            == crate::doubles::double_of(values.len() as i64) as u64,
{
    reveal_strlit("sum");
    reveal_strlit("avg");
    reveal_strlit("min");
    reveal_strlit("max");
    reveal_strlit("count");
    assert("sum"@[0] == 's' && "avg"@[0] == 'a' && "min"@[1] == 'i' && "max"@[1] == 'a'
        && "min"@[0] == 'm' && "max"@[0] == 'm' && "count"@[0] == 'c');
    extremes_of_many(values);
}

proof fn extremes_of_many(values: Seq<u64>)
    requires
        forall|i: int| 0 <= i < values.len() ==> !is_nan_bits(#[trigger] values[i]),
    ensures
        values.len() > 0 ==> values.contains(greatest_of(values)) && values.contains(
            least_of(values),
        ),
        !is_nan_bits(greatest_of(values)) && !is_nan_bits(least_of(values)),
        forall|i: int|
            0 <= i < values.len() ==> is_at_least(greatest_of(values), #[trigger] values[i])
                && is_at_least(values[i], least_of(values)),
    decreases values.len(),
{
    if values.len() > 0 {
        let init = values.drop_last();
        let last = values.last();
        assert(values[values.len() - 1] == last);
        assert forall|i: int| 0 <= i < init.len() implies !is_nan_bits(#[trigger] init[i]) by {
            assert(init[i] == values[i]);
        }
        extremes_of_many(init);
        if init.len() > 0 {
            let (g, l) = (greatest_of(init), least_of(init));
            let (i, j) = (choose|i: int| 0 <= i < init.len() && init[i] == g, choose|j: int|
                0 <= j < init.len() && init[j] == l);
            assert(values[i] == g && values[j] == l);
        }
        assert forall|i: int| 0 <= i < values.len() implies is_at_least(
            greatest_of(values),
            #[trigger] values[i],
        ) && is_at_least(values[i], least_of(values)) by {
            if i < init.len() {
                assert(init[i] == values[i]);
            }
        }
    }
}

/// Whether a series has the newest point of its kind.
pub open spec fn answers_for(s: Series, points: Seq<MetricPoint>, i: int) -> bool {
    &&& exists|n: int|
        0 <= n < points.len() && (#[trigger] points[n]).name@ == points[i].name@
            && points[n].service@ == points[i].service@ && points[n].attributes@
            == points[i].attributes@ && s.value == points[n].value && s.timestamp
            == points[n].timestamp && s.metric@ == points[n].name@
    &&& !earlier(s.timestamp@, points[i].timestamp@)
}

/// Every point has its series among the results of an instant query, and the value
/// there is that of a point of the same name, service and attributes that is not
/// older.
pub proof fn every_point_is_answered_for(r: Seq<Series>, points: Seq<MetricPoint>, i: int)
    requires
        0 <= i < points.len(),
        r.len() == series_groups(points).len(),
        forall|g: int|
            0 <= g < r.len() ==> is_series_of(
                #[trigger] r[g],
                points[newest(points, series_groups(points)[g].1)],
            ),
    ensures
        exists|g: int| 0 <= g < r.len() && #[trigger] answers_for(r[g], points, i),
{
    let keys = series_keys(points);
    crate::grouping::grouping_exists(keys);
    let key = keys[i];
    let g = choose|g: int| 0 <= g < grouping(keys).len() && (#[trigger] grouping(keys)[g]).0 == key;
    let members = series_groups(points)[g].1;
    crate::grouping::groups_gather_their_key(keys, g, g, i);
    newest_is_not_outlived(points, members);
    let n = choose|n: int| #[trigger]
        is_newest_at(points, members, n) && members[n] == newest(points, members);
    let at = members[n];
    assert(members.contains(at));
    crate::grouping::groups_gather_their_key(keys, g, g, at);
    series_keys_tell_series_apart(points[at], points[i]);
    let k = choose|k: int| 0 <= k < members.len() && members[k] == i;
    assert(!earlier(points[members[n]].timestamp@, points[members[k]].timestamp@));
    assert(is_series_of(r[g], points[at]));
    assert(answers_for(r[g], points, i));
}

/// A group of histograms is named and labelled as its first, and holds the parts of
/// each of its series.
pub proof fn histogram_groups_carry_their_series(
    r: HistogramGroup,
    points: Seq<MetricPoint>,
    by: Seq<Seq<char>>,
    members: Seq<int>,
    k: int,
)
    requires
        is_histogram_group(r, points, by, members),
        0 <= k < members.len(),
    ensures
        r.series@.len() == members.len(),
        r.metric@ == points[collapsed(points)[members[0]].parts[0]].name@,
        r.timestamp@ == collapsed(points)[members[0]].instant,
        by.len() == 0 ==> r.labels@.dom().contains("service"@) && r.labels@["service"@]
            == points[collapsed(points)[members[0]].parts[0]].service@,
        r.series@[k]@.len() == collapsed(points)[members[k]].parts.len(),
        forall|j: int|
            0 <= j < r.series@[k]@.len() ==> (#[trigger] r.series@[k]@[j]) as int
                == collapsed(points)[members[k]].parts[j],
{
    let parts = r.series@[k]@.map_values(|i: usize| i as int);
    assert(parts == collapsed(points)[members[k]].parts);
    assert forall|j: int| 0 <= j < r.series@[k]@.len() implies (#[trigger] r.series@[k]@[j]) as int
        == collapsed(points)[members[k]].parts[j] by {
        assert(parts[j] == r.series@[k]@[j] as int);
    }
}

/// Only points with buckets have quantiles.
pub proof fn quantiles_need_buckets(p: MetricPoint)
    ensures
        has_histogram(p) <==> p.histogram is Some,
{
}

} // verus!
