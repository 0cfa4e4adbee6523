//! OTLP metric intake: what the data points of an export request become.

use crate::ingest::otlp::{attribute_map, kv_to_map, AnyValue, KeyValue};
use crate::metrics::{copy_numbers, opt_histogram, point_views, HistogramBuckets, HistogramModel, MetricPoint, MetricType, PointModel, Temporality};
use crate::doubles::{bits_are_finite, double_bits, double_of, is_finite_bits};
use crate::text::same;
use crate::time::{at, Timestamp};
use vstd::prelude::*;

verus! {

// ── Requests ────────────────────────────────────────────────────────

/// A measured number: the bits of a double, or an integer.
#[derive(Debug, Clone, Copy, PartialEq, Eq, Structural)]
pub enum NumberValue {
    Double(u64),
    Integer(i64),
}

/// The bits of a measured number as a double.
pub open spec fn number_bits(v: NumberValue) -> nat {
    match v {
        NumberValue::Double(bits) => bits as nat,
        NumberValue::Integer(n) => double_of(n),
    }
}

pub fn bits_of(v: NumberValue) -> (r: u64)
    ensures
        r == number_bits(v),
{
    match v {
        NumberValue::Double(bits) => bits,
        NumberValue::Integer(n) => double_bits(n),
    }
}

/// A point of a gauge or a sum.
#[derive(Debug)]
pub struct NumberPoint {
    pub time_unix_nano: u64,
    pub value: Option<NumberValue>,
    pub attributes: Vec<KeyValue>,
}

/// A point of a histogram with explicit bounds. OTLP sends N ascending upper
/// bounds and N+1 counts, the last one open-ended.
#[derive(Debug)]
pub struct HistogramPoint {
    pub time_unix_nano: u64,
    pub count: u64,
    pub sum: Option<u64>,
    pub bucket_counts: Vec<u64>,
    pub explicit_bounds: Vec<u64>,
    pub min: Option<u64>,
    pub max: Option<u64>,
    pub attributes: Vec<KeyValue>,
}

#[derive(Debug)]
pub struct SummaryPoint {
    pub time_unix_nano: u64,
    pub sum: u64,
    pub attributes: Vec<KeyValue>,
}

/// The positive buckets of an exponential histogram: bucket `i` covers the
/// powers from `offset + i` up to `offset + i + 1` of a base. `uppers` holds
/// the upper bounds, as the bits of doubles.
#[derive(Debug)]
pub struct PositiveBuckets {
    pub offset: i32,
    pub counts: Vec<u64>,
    pub uppers: Vec<u64>,
}

#[derive(Debug)]
pub struct ExponentialPoint {
    pub time_unix_nano: u64,
    pub count: u64,
    pub sum: Option<u64>,
    pub scale: i32,
    pub zero_count: u64,
    pub positive: Option<PositiveBuckets>,
    pub negative_counts: Vec<u64>,
    pub min: Option<u64>,
    pub max: Option<u64>,
    pub attributes: Vec<KeyValue>,
}

/// `temporality` is the protocol's number.
#[derive(Debug)]
pub enum MetricData {
    Gauge(Vec<NumberPoint>),
    Sum(Vec<NumberPoint>),
    Histogram { temporality: i32, points: Vec<HistogramPoint> },
    Summary(Vec<SummaryPoint>),
    Exponential { temporality: i32, points: Vec<ExponentialPoint> },
}

#[derive(Debug)]
pub struct OtelMetric {
    pub name: String,
    pub unit: String,
    pub data: Option<MetricData>,
}

#[derive(Debug)]
pub struct ScopeMetrics {
    pub metrics: Vec<OtelMetric>,
}

#[derive(Debug)]
pub struct ResourceMetrics {
    pub resource: Option<Vec<KeyValue>>,
    pub scope_metrics: Vec<ScopeMetrics>,
}

// ── Services ────────────────────────────────────────────────────────

/// The first `service.name` that is a text, from a position on.
pub open spec fn service_text_from(kvs: Seq<KeyValue>, from: int) -> Option<Seq<char>>
    decreases kvs.len() - from,
{
    if from < 0 || from >= kvs.len() {
        None
    } else {
        match kvs[from].value {
            Some(AnyValue::Text(s)) => if kvs[from].key@ == "service.name"@ {
                Some(s@)
            } else {
                service_text_from(kvs, from + 1)
            },
            _ => service_text_from(kvs, from + 1),
        }
    }
}

/// The service of a resource, `unknown` where it names none.
pub open spec fn metric_service_of(resource: Option<Vec<KeyValue>>) -> Seq<char> {
    match resource {
        Some(kvs) => match service_text_from(kvs@, 0) {
            Some(s) => s,
            None => "unknown"@,
        },
        None => "unknown"@,
    }
}

pub fn metric_service_name(resource: &Option<Vec<KeyValue>>) -> (r: String)
    ensures
        r@ == metric_service_of(*resource),
{
    if let Some(kvs) = resource {
        let mut i: usize = 0;
        while i < kvs.len()
            invariant
                i <= kvs@.len(),
                *resource == Some(*kvs),
                service_text_from(kvs@, 0) == service_text_from(kvs@, i as int),
            decreases kvs@.len() - i,
        {
            if let Some(AnyValue::Text(s)) = &kvs[i].value {
                if same(kvs[i].key.as_str(), "service.name") {
                    return s.clone();
                }
            }
            i = i + 1;
        }
    }
    "unknown".to_owned()
}

// ── Buckets ─────────────────────────────────────────────────────────

/// The stored temporality. Anything but delta counts as cumulative.
pub open spec fn temporality_named(raw: i32) -> Temporality {
    if raw == 1 {
        Temporality::Delta
    } else {
        Temporality::Cumulative
    }
}

/// Map the protocol's aggregation temporality onto the stored form.
pub fn temporality_of(raw: i32) -> (r: Temporality)
    ensures
        r == temporality_named(raw),
{
    if raw == 1 {
        Temporality::Delta
    } else {
        Temporality::Cumulative
    }
}

pub open spec fn or_zero(v: Option<u64>) -> u64 {
    match v {
        Some(n) => n,
        None => 0,
    }
}

/// The buckets of an explicit-bounds histogram. A producer that omits the
/// counts, or sends a mismatched pair, yields none: a wrong bucket layout would
/// silently produce wrong quantiles.
pub open spec fn explicit_of(dp: HistogramPoint, temporality: Temporality) -> Option<
    HistogramModel,
> {
    if dp.bucket_counts@.len() == 0 || dp.bucket_counts@.len() != dp.explicit_bounds@.len() + 1 {
        None
    } else {
        Some(
            HistogramModel {
                bounds: dp.explicit_bounds@,
                counts: dp.bucket_counts@,
                count: dp.count,
                sum: or_zero(dp.sum),
                min: dp.min,
                max: dp.max,
                temporality,
            },
        )
    }
}

fn value_or_zero(v: Option<u64>) -> (r: u64)
    ensures
        r == or_zero(v),
{
    match v {
        Some(n) => n,
        None => 0,
    }
}

/// Capture an explicit-bounds histogram data point's buckets.
pub fn explicit_buckets(dp: &HistogramPoint, temporality: Temporality) -> (r: Option<
    HistogramBuckets,
>)
    ensures
        opt_histogram(r) == explicit_of(*dp, temporality),
{
    let n: usize = dp.bucket_counts.len();
    if n == 0 || n - 1 != dp.explicit_bounds.len() {
        return None;
    }
    Some(
        HistogramBuckets {
            bounds: copy_numbers(&dp.explicit_bounds),
            counts: copy_numbers(&dp.bucket_counts),
            count: dp.count,
            sum: value_or_zero(dp.sum),
            min: dp.min,
            max: dp.max,
            temporality,
        },
    )
}

/// The powers whose values bound the positive buckets: one above `offset` for
/// the first, and so on.
pub open spec fn exponents_of(offset: i32, n: nat) -> Seq<i64> {
    Seq::new(n, |i: int| (offset + i + 1) as i64)
}

/// The powers whose values bound the positive buckets of a point.
pub fn exponents(offset: i32, n: usize) -> (r: Vec<i64>)
    requires
        n <= 0x7fff_ffff_0000_0000,
    ensures
        r@ == exponents_of(offset, n as nat),
{
    let mut out: Vec<i64> = Vec::new();
    let mut i: usize = 0;
    while i < n
        invariant
            i <= n <= 0x7fff_ffff_0000_0000,
            out@ == exponents_of(offset, i as nat),
        decreases n - i,
    {
        out.push(offset as i64 + i as i64 + 1);
        i = i + 1;
        assert(out@ =~= exponents_of(offset, i as nat));
    }
    out
}

/// An exponential histogram in explicit bounds: the zero bucket, whose upper
/// bound is 0, then the positive buckets, then an empty open-ended one.
///
/// A point that carries negative observations is left without buckets, as is
/// one whose bounds are not all finite.
pub open spec fn exponential_of(dp: ExponentialPoint, temporality: Temporality) -> Option<
    HistogramModel,
> {
    match dp.positive {
        None => None,
        Some(p) => if p.counts@.len() == 0 || p.uppers@.len() != p.counts@.len() {
            None
        } else if exists|i: int|
            0 <= i < dp.negative_counts@.len() && #[trigger] dp.negative_counts@[i] > 0 {
            None
        } else if exists|i: int|
            0 <= i < p.uppers@.len() && !is_finite_bits(#[trigger] p.uppers@[i]) {
            None
        } else {
            Some(
                HistogramModel {
                    bounds: seq![0u64] + p.uppers@,
                    counts: (seq![dp.zero_count] + p.counts@).push(0),
                    count: dp.count,
                    sum: or_zero(dp.sum),
                    min: dp.min,
                    max: dp.max,
                    temporality,
                },
            )
        },
    }
}

/// Convert an exponential histogram to explicit bounds, so that there is one
/// histogram shape to reason about.
pub fn exponential_buckets(dp: &ExponentialPoint, temporality: Temporality) -> (r: Option<
    HistogramBuckets,
>)
    ensures
        opt_histogram(r) == exponential_of(*dp, temporality),
{
    let p = match &dp.positive {
        Some(p) => p,
        None => return None,
    };
    if p.counts.len() == 0 || p.uppers.len() != p.counts.len() {
        return None;
    }
    let mut i: usize = 0;
    while i < dp.negative_counts.len()
        invariant
            i <= dp.negative_counts@.len(),
            dp.positive == Some(*p),
            p.counts@.len() > 0,
            p.uppers@.len() == p.counts@.len(),
            forall|j: int| 0 <= j < i ==> #[trigger] dp.negative_counts@[j] == 0,
        decreases dp.negative_counts@.len() - i,
    {
        if dp.negative_counts[i] > 0 {
            assert(dp.negative_counts@[i as int] > 0);
            return None;
        }
        i = i + 1;
    }
    let mut bounds: Vec<u64> = Vec::new();
    let mut counts: Vec<u64> = Vec::new();
    bounds.push(0);
    counts.push(dp.zero_count);
    let mut k: usize = 0;
    assert(bounds@ =~= seq![0u64] + p.uppers@.take(0));
    assert(counts@ =~= seq![dp.zero_count] + p.counts@.take(0));
    while k < p.uppers.len()
        invariant
            k <= p.uppers@.len(),
            dp.positive == Some(*p),
            p.counts@.len() > 0,
            p.uppers@.len() == p.counts@.len(),
            forall|j: int|
                0 <= j < dp.negative_counts@.len() ==> #[trigger] dp.negative_counts@[j] == 0,
            forall|j: int| 0 <= j < k ==> is_finite_bits(#[trigger] p.uppers@[j]),
            bounds@ == seq![0u64] + p.uppers@.take(k as int),
            counts@ == seq![dp.zero_count] + p.counts@.take(k as int),
        decreases p.uppers@.len() - k,
    {
        let upper: u64 = p.uppers[k];
        if !bits_are_finite(upper) {
            assert(!is_finite_bits(p.uppers@[k as int]));
            return None;
        }
        bounds.push(upper);
        counts.push(p.counts[k]);
        k = k + 1;
        assert(bounds@ =~= seq![0u64] + p.uppers@.take(k as int));
        assert(counts@ =~= seq![dp.zero_count] + p.counts@.take(k as int));
    }
    assert(p.uppers@.take(k as int) =~= p.uppers@);
    assert(p.counts@.take(k as int) =~= p.counts@);
    counts.push(0);
    Some(
        HistogramBuckets {
            bounds,
            counts,
            count: dp.count,
            sum: value_or_zero(dp.sum),
            min: dp.min,
            max: dp.max,
            temporality,
        },
    )
}

// ── Points ──────────────────────────────────────────────────────────

/// The parts of a point that do not depend on its kind.
pub open spec fn point_at(
    service: Seq<char>,
    m: OtelMetric,
    time_unix_nano: u64,
    attributes: Seq<KeyValue>,
    metric_type: MetricType,
    value: u64,
    histogram: Option<HistogramModel>,
) -> PointModel {
    PointModel {
        instant: at(time_unix_nano as int),
        service,
        name: m.name@,
        metric_type,
        value,
        unit: m.unit@,
        attributes: attribute_map(attributes),
        histogram,
    }
}

/// The points of a gauge or a sum; one without a value is left out.
pub open spec fn number_points(
    service: Seq<char>,
    m: OtelMetric,
    points: Seq<NumberPoint>,
    metric_type: MetricType,
) -> Seq<PointModel>
    decreases points.len(),
{
    if points.len() == 0 {
        Seq::empty()
    } else {
        let before = number_points(service, m, points.drop_last(), metric_type);
        let dp = points.last();
        match dp.value {
            Some(v) => before.push(
                point_at(
                    service,
                    m,
                    dp.time_unix_nano,
                    dp.attributes@,
                    metric_type,
                    number_bits(v) as u64,
                    None,
                ),
            ),
            None => before,
        }
    }
}

pub open spec fn histogram_points(
    service: Seq<char>,
    m: OtelMetric,
    points: Seq<HistogramPoint>,
    temporality: i32,
) -> Seq<PointModel> {
    points.map_values(
        |dp: HistogramPoint|
            point_at(
                service,
                m,
                dp.time_unix_nano,
                dp.attributes@,
                MetricType::Histogram,
                or_zero(dp.sum),
                explicit_of(dp, temporality_named(temporality)),
            ),
    )
}

pub open spec fn exponential_points(
    service: Seq<char>,
    m: OtelMetric,
    points: Seq<ExponentialPoint>,
    temporality: i32,
) -> Seq<PointModel> {
    points.map_values(
        |dp: ExponentialPoint|
            point_at(
                service,
                m,
                dp.time_unix_nano,
                dp.attributes@,
                MetricType::Histogram,
                or_zero(dp.sum),
                exponential_of(dp, temporality_named(temporality)),
            ),
    )
}

/// Summaries carry precomputed quantiles, not buckets.
pub open spec fn summary_points(
    service: Seq<char>,
    m: OtelMetric,
    points: Seq<SummaryPoint>,
) -> Seq<PointModel> {
    points.map_values(
        |dp: SummaryPoint|
            point_at(
                service,
                m,
                dp.time_unix_nano,
                dp.attributes@,
                MetricType::Summary,
                dp.sum,
                None,
            ),
    )
}

pub open spec fn metric_points(service: Seq<char>, m: OtelMetric) -> Seq<PointModel> {
    match m.data {
        None => Seq::empty(),
        Some(MetricData::Gauge(points)) => number_points(service, m, points@, MetricType::Gauge),
        Some(MetricData::Sum(points)) => number_points(service, m, points@, MetricType::Sum),
        Some(MetricData::Histogram { temporality, points }) => histogram_points(
            service,
            m,
            points@,
            temporality,
        ),
        Some(MetricData::Summary(points)) => summary_points(service, m, points@),
        Some(MetricData::Exponential { temporality, points }) => exponential_points(
            service,
            m,
            points@,
            temporality,
        ),
    }
}

pub open spec fn scope_points(service: Seq<char>, metrics: Seq<OtelMetric>) -> Seq<PointModel>
    decreases metrics.len(),
{
    if metrics.len() == 0 {
        Seq::empty()
    } else {
        scope_points(service, metrics.drop_last()) + metric_points(service, metrics.last())
    }
}

pub open spec fn resource_points(service: Seq<char>, scopes: Seq<ScopeMetrics>) -> Seq<PointModel>
    decreases scopes.len(),
{
    if scopes.len() == 0 {
        Seq::empty()
    } else {
        resource_points(service, scopes.drop_last()) + scope_points(
            service,
            scopes.last().metrics@,
        )
    }
}

/// The points of a request, in order.
pub open spec fn request_points(resources: Seq<ResourceMetrics>) -> Seq<PointModel>
    decreases resources.len(),
{
    if resources.len() == 0 {
        Seq::empty()
    } else {
        let last = resources.last();
        request_points(resources.drop_last()) + resource_points(
            metric_service_of(last.resource),
            last.scope_metrics@,
        )
    }
}

fn make_point(
    service: &str,
    m: &OtelMetric,
    time_unix_nano: u64,
    attributes: &Vec<KeyValue>,
    metric_type: MetricType,
    value: u64,
    histogram: Option<HistogramBuckets>,
) -> (r: MetricPoint)
    ensures
        r@ == point_at(
            service@,
            *m,
            time_unix_nano,
            attributes@,
            metric_type,
            value,
            opt_histogram(histogram),
        ),
{
    MetricPoint {
        timestamp: Timestamp::from_unix_nanos(time_unix_nano),
        service: service.to_owned(),
        name: m.name.clone(),
        metric_type,
        value,
        unit: m.unit.clone(),
        attributes: kv_to_map(attributes),
        histogram,
    }
}

fn push_point(out: &mut Vec<MetricPoint>, p: MetricPoint)
    ensures
        point_views(final(out)@) == point_views(old(out)@).push(p@),
{
    out.push(p);
    assert(point_views(out@) =~= point_views(old(out)@).push(p@));
}

fn push_numbers(
    service: &str,
    m: &OtelMetric,
    points: &Vec<NumberPoint>,
    metric_type: MetricType,
    out: &mut Vec<MetricPoint>,
)
    ensures
        point_views(final(out)@) == point_views(old(out)@) + number_points(
            service@,
            *m,
            points@,
            metric_type,
        ),
{
    let ghost start = point_views(out@);
    let mut i: usize = 0;
    assert(points@.take(0) =~= Seq::<NumberPoint>::empty());
    assert(start + number_points(service@, *m, points@.take(0), metric_type) =~= start);
    while i < points.len()
        invariant
            i <= points@.len(),
            point_views(out@) == start + number_points(
                service@,
                *m,
                points@.take(i as int),
                metric_type,
            ),
        decreases points@.len() - i,
    {
        let dp = &points[i];
        let ghost t = points@.take(i as int + 1);
        assert(t.drop_last() =~= points@.take(i as int));
        assert(t.last() == *dp);
        if let Some(v) = dp.value {
            let p = make_point(
                service,
                m,
                dp.time_unix_nano,
                &dp.attributes,
                metric_type,
                bits_of(v),
                None,
            );
            push_point(out, p);
            assert(point_views(out@) =~= start + number_points(service@, *m, t, metric_type));
        }
        i = i + 1;
    }
    assert(points@.take(points@.len() as int) =~= points@);
}

fn push_histograms(
    service: &str,
    m: &OtelMetric,
    points: &Vec<HistogramPoint>,
    temporality: i32,
    out: &mut Vec<MetricPoint>,
)
    ensures
        point_views(final(out)@) == point_views(old(out)@) + histogram_points(
            service@,
            *m,
            points@,
            temporality,
        ),
{
    let ghost start = point_views(out@);
    let ghost added = histogram_points(service@, *m, points@, temporality);
    let mut i: usize = 0;
    assert(start + added.take(0) =~= start);
    while i < points.len()
        invariant
            i <= points@.len(),
            added == histogram_points(service@, *m, points@, temporality),
            point_views(out@) == start + added.take(i as int),
        decreases points@.len() - i,
    {
        let dp = &points[i];
        let p = make_point(
            service,
            m,
            dp.time_unix_nano,
            &dp.attributes,
            MetricType::Histogram,
            value_or_zero(dp.sum),
            explicit_buckets(dp, temporality_of(temporality)),
        );
        assert(p@ == added[i as int]);
        push_point(out, p);
        i = i + 1;
        assert(point_views(out@) =~= start + added.take(i as int));
    }
    assert(added.take(points@.len() as int) =~= added);
}

fn push_exponentials(
    service: &str,
    m: &OtelMetric,
    points: &Vec<ExponentialPoint>,
    temporality: i32,
    out: &mut Vec<MetricPoint>,
)
    ensures
        point_views(final(out)@) == point_views(old(out)@) + exponential_points(
            service@,
            *m,
            points@,
            temporality,
        ),
{
    let ghost start = point_views(out@);
    let ghost added = exponential_points(service@, *m, points@, temporality);
    let mut i: usize = 0;
    assert(start + added.take(0) =~= start);
    while i < points.len()
        invariant
            i <= points@.len(),
            added == exponential_points(service@, *m, points@, temporality),
            point_views(out@) == start + added.take(i as int),
        decreases points@.len() - i,
    {
        let dp = &points[i];
        let p = make_point(
            service,
            m,
            dp.time_unix_nano,
            &dp.attributes,
            MetricType::Histogram,
            value_or_zero(dp.sum),
            exponential_buckets(dp, temporality_of(temporality)),
        );
        assert(p@ == added[i as int]);
        push_point(out, p);
        i = i + 1;
        assert(point_views(out@) =~= start + added.take(i as int));
    }
    assert(added.take(points@.len() as int) =~= added);
}

fn push_summaries(
    service: &str,
    m: &OtelMetric,
    points: &Vec<SummaryPoint>,
    out: &mut Vec<MetricPoint>,
)
    ensures
        point_views(final(out)@) == point_views(old(out)@) + summary_points(
            service@,
            *m,
            points@,
        ),
{
    let ghost start = point_views(out@);
    let ghost added = summary_points(service@, *m, points@);
    let mut i: usize = 0;
    assert(start + added.take(0) =~= start);
    while i < points.len()
        invariant
            i <= points@.len(),
            added == summary_points(service@, *m, points@),
            point_views(out@) == start + added.take(i as int),
        decreases points@.len() - i,
    {
        let dp = &points[i];
        let p = make_point(
            service,
            m,
            dp.time_unix_nano,
            &dp.attributes,
            MetricType::Summary,
            dp.sum,
            None,
        );
        assert(p@ == added[i as int]);
        push_point(out, p);
        i = i + 1;
        assert(point_views(out@) =~= start + added.take(i as int));
    }
    assert(added.take(points@.len() as int) =~= added);
}

fn push_metric(service: &str, m: &OtelMetric, out: &mut Vec<MetricPoint>)
    ensures
        point_views(final(out)@) == point_views(old(out)@) + metric_points(service@, *m),
{
    let ghost start = point_views(out@);
    match &m.data {
        None => {
            assert(start + Seq::<PointModel>::empty() =~= start);
        },
        Some(MetricData::Gauge(points)) => {
            push_numbers(service, m, points, MetricType::Gauge, out);
        },
        Some(MetricData::Sum(points)) => {
            push_numbers(service, m, points, MetricType::Sum, out);
        },
        Some(MetricData::Histogram { temporality, points }) => {
            push_histograms(service, m, points, *temporality, out);
        },
        Some(MetricData::Summary(points)) => {
            push_summaries(service, m, points, out);
        },
        Some(MetricData::Exponential { temporality, points }) => {
            push_exponentials(service, m, points, *temporality, out);
        },
    }
}

fn push_scope(service: &str, scope: &ScopeMetrics, out: &mut Vec<MetricPoint>)
    ensures
        point_views(final(out)@) == point_views(old(out)@) + scope_points(
            service@,
            scope.metrics@,
        ),
{
    let ghost start = point_views(out@);
    let mut i: usize = 0;
    assert(scope.metrics@.take(0) =~= Seq::<OtelMetric>::empty());
    assert(start + scope_points(service@, scope.metrics@.take(0)) =~= start);
    while i < scope.metrics.len()
        invariant
            i <= scope.metrics@.len(),
            point_views(out@) == start + scope_points(service@, scope.metrics@.take(i as int)),
        decreases scope.metrics@.len() - i,
    {
        push_metric(service, &scope.metrics[i], out);
        proof {
            let t = scope.metrics@.take(i as int + 1);
            assert(t.drop_last() =~= scope.metrics@.take(i as int));
            assert(t.last() == scope.metrics@[i as int]);
            assert(point_views(out@) =~= start + scope_points(service@, t));
        }
        i = i + 1;
    }
    assert(scope.metrics@.take(scope.metrics@.len() as int) =~= scope.metrics@);
}

/// Convert the data points of an export request, in order.
pub fn convert_request(resources: &Vec<ResourceMetrics>) -> (r: Vec<MetricPoint>)
    ensures
        point_views(r@) == request_points(resources@),
{
    let mut out: Vec<MetricPoint> = Vec::new();
    let mut i: usize = 0;
    assert(resources@.take(0) =~= Seq::<ResourceMetrics>::empty());
    assert(point_views(out@) =~= Seq::<PointModel>::empty());
    while i < resources.len()
        invariant
            i <= resources@.len(),
            point_views(out@) == request_points(resources@.take(i as int)),
        decreases resources@.len() - i,
    {
        let ghost before = request_points(resources@.take(i as int));
        let rm = &resources[i];
        let service = metric_service_name(&rm.resource);
        proof {
            assert(resources@.take(i as int + 1).drop_last() =~= resources@.take(i as int));
            assert(resources@.take(i as int + 1).last() == *rm);
        }
        let mut j: usize = 0;
        assert(rm.scope_metrics@.take(0) =~= Seq::<ScopeMetrics>::empty());
        assert(before + resource_points(service@, rm.scope_metrics@.take(0)) =~= before);
        while j < rm.scope_metrics.len()
            invariant
                j <= rm.scope_metrics@.len(),
                point_views(out@) == before + resource_points(
                    service@,
                    rm.scope_metrics@.take(j as int),
                ),
            decreases rm.scope_metrics@.len() - j,
        {
            push_scope(service.as_str(), &rm.scope_metrics[j], &mut out);
            proof {
                let t = rm.scope_metrics@.take(j as int + 1);
                assert(t.drop_last() =~= rm.scope_metrics@.take(j as int));
                assert(t.last() == rm.scope_metrics@[j as int]);
                assert(point_views(out@) =~= before + resource_points(service@, t));
            }
            j = j + 1;
        }
        assert(rm.scope_metrics@.take(rm.scope_metrics@.len() as int) =~= rm.scope_metrics@);
        i = i + 1;
    }
    assert(resources@.take(resources@.len() as int) =~= resources@);
    out
}

// ── Laws ────────────────────────────────────────────────────────────

/// Whatever buckets are stored have one more count than bounds.
pub proof fn stored_buckets_have_one_more_count(
    h: HistogramPoint,
    e: ExponentialPoint,
    temporality: Temporality,
)
    ensures
        explicit_of(h, temporality) matches Some(b) ==> b.counts.len() == b.bounds.len() + 1,
        exponential_of(e, temporality) matches Some(b) ==> b.counts.len() == b.bounds.len() + 1,
{
}

/// A sample of a gauge or a sum is stored with its value, unless it has none: a
/// double as it is, an integer as a double, at its time and under its metric.
pub proof fn samples_keep_what_was_sent(
    service: Seq<char>,
    m: OtelMetric,
    points: Seq<NumberPoint>,
    metric_type: MetricType,
    i: int,
)
    ensures
        number_points(service, m, points, metric_type).len() == points.filter(
            |p: NumberPoint| p.value is Some,
        ).len(),
        0 <= i < number_points(service, m, points, metric_type).len() ==> {
            let r = number_points(service, m, points, metric_type)[i];
            let p = points.filter(|p: NumberPoint| p.value is Some)[i];
            &&& r.service == service && r.name == m.name@ && r.unit == m.unit@
            &&& r.metric_type == metric_type && r.histogram is None
            &&& r.instant == at(p.time_unix_nano as int)
            &&& r.attributes == attribute_map(p.attributes@)
            &&& p.value matches Some(NumberValue::Double(d)) ==> r.value == d
            &&& p.value matches Some(NumberValue::Integer(n)) ==> r.value == double_of(n) as u64
        },
    decreases points.len(),
{
    reveal(Seq::filter);
    if points.len() > 0 {
        let init = points.drop_last();
        samples_keep_what_was_sent(service, m, init, metric_type, i);
        let before = number_points(service, m, init, metric_type);
        let kept = init.filter(|p: NumberPoint| p.value is Some);
        if 0 <= i < before.len() {
            assert(number_points(service, m, points, metric_type)[i] == before[i]);
            assert(points.filter(|p: NumberPoint| p.value is Some)[i] == kept[i]);
        }
    }
}

/// A metric is stored as what it is: gauges and sums by their samples, histograms
/// by their sum, buckets and temporality, summaries by their sum.
pub proof fn metrics_are_stored_as_what_they_are(service: Seq<char>, m: OtelMetric, i: int)
    ensures
        m.data is None ==> metric_points(service, m).len() == 0,
        m.data matches Some(MetricData::Gauge(points)) ==> metric_points(service, m)
            == number_points(service, m, points@, MetricType::Gauge),
        m.data matches Some(MetricData::Sum(points)) ==> metric_points(service, m) == number_points(
            service,
            m,
            points@,
            MetricType::Sum,
        ),
        m.data matches Some(MetricData::Summary(points)) ==> metric_points(service, m).len()
            == points@.len() && (0 <= i < points@.len() ==> {
            let r = metric_points(service, m)[i];
            &&& r.metric_type == MetricType::Summary && r.value == points@[i].sum
                && r.histogram is None
            &&& r.instant == at(points@[i].time_unix_nano as int) && r.service == service && r.name
                == m.name@ && r.unit == m.unit@
            &&& r.attributes == attribute_map(points@[i].attributes@)
        }),
        m.data matches Some(MetricData::Histogram { temporality, points }) ==> metric_points(
            service,
            m,
        ).len() == points@.len() && (0 <= i < points@.len() ==> {
            let r = metric_points(service, m)[i];
            let p = points@[i];
            &&& r.metric_type == MetricType::Histogram && r.service == service && r.name == m.name@
                && r.unit == m.unit@
            &&& r.instant == at(p.time_unix_nano as int) && r.attributes == attribute_map(
                p.attributes@,
            )
            &&& p.sum matches Some(s) ==> r.value == s
            &&& p.sum is None ==> r.value == 0
            &&& r.histogram is Some <==> p.bucket_counts@.len() == p.explicit_bounds@.len() + 1
            &&& r.histogram matches Some(h) ==> h.bounds == p.explicit_bounds@ && h.counts
                == p.bucket_counts@ && h.count == p.count && h.sum == r.value && h.min == p.min
                && h.max == p.max && (h.temporality == Temporality::Delta <==> temporality == 1)
        }),
        m.data matches Some(MetricData::Exponential { temporality, points }) ==> metric_points(
            service,
            m,
        ).len() == points@.len() && (0 <= i < points@.len() ==> {
            let r = metric_points(service, m)[i];
            let p = points@[i];
            &&& r.metric_type == MetricType::Histogram && r.service == service && r.name == m.name@
                && r.unit == m.unit@
            &&& r.instant == at(p.time_unix_nano as int) && r.attributes == attribute_map(
                p.attributes@,
            )
            &&& p.sum matches Some(s) ==> r.value == s
            &&& p.sum is None ==> r.value == 0
            &&& r.histogram matches Some(h) ==> h.count == p.count && h.sum == r.value && h.min
                == p.min && h.max == p.max && (h.temporality == Temporality::Delta <==> temporality
                == 1)
        }),
{
}

/// The buckets of an exponential histogram are the zero bucket, each positive
/// bucket below its upper bound, and an empty one above them all. None are stored
/// where a negative bucket counts anything or a bound is no finite number.
pub proof fn exponential_buckets_lie_below_their_bounds(
    p: ExponentialPoint,
    temporality: Temporality,
    k: int,
)
    ensures
        exponential_of(p, temporality) matches Some(h) ==> p.positive is Some && h.bounds.len()
            == p.positive->0.counts@.len() + 1 && h.bounds[0] == 0 && h.counts[0] == p.zero_count
            && h.counts.last() == 0 && (0 <= k < p.positive->0.counts@.len() ==> h.counts[k + 1]
            == p.positive->0.counts@[k] && h.bounds[k + 1] == p.positive->0.uppers@[k]
            && is_finite_bits(h.bounds[k + 1])),
        0 <= k < p.negative_counts@.len() && p.negative_counts@[k] > 0 ==> exponential_of(
            p,
            temporality,
        ) is None,
        p.positive is None ==> exponential_of(p, temporality) is None,
        p.positive matches Some(b) ==> (b.counts@.len() > 0 && b.counts@.len() == b.uppers@.len()
            && (forall|i: int|
            0 <= i < p.negative_counts@.len() ==> #[trigger] p.negative_counts@[i] == 0) && (forall|
            i: int,
        |
            0 <= i < b.uppers@.len() ==> is_finite_bits(#[trigger] b.uppers@[i]))
            ==> exponential_of(p, temporality) is Some),
{
    if let Some(h) = exponential_of(p, temporality) {
        let b = p.positive->0;
        if 0 <= k < b.counts@.len() {
            assert(h.bounds[k + 1] == b.uppers@[k]);
            assert(is_finite_bits(b.uppers@[k]));
        }
    }
}

/// The exponents of the bucket bounds count up from behind the offset.
pub proof fn exponents_count_up(offset: i32, n: nat, i: int)
    requires
        0 <= i < n,
        n <= 0x7fff_ffff,
    ensures
        exponents_of(offset, n).len() == n,
        exponents_of(offset, n)[0] == offset + 1,
        i > 0 ==> exponents_of(offset, n)[i] == exponents_of(offset, n)[i - 1] + 1,
{
}

/// Every sample of a request is converted, under the service of its resource.
pub proof fn no_point_is_lost(resources: Seq<ResourceMetrics>, r: int, s: int, k: int, p: PointModel)
    requires
        0 <= r < resources.len(),
        0 <= s < resources[r].scope_metrics@.len(),
        0 <= k < resources[r].scope_metrics@[s].metrics@.len(),
        metric_points(
            metric_service_of(resources[r].resource),
            resources[r].scope_metrics@[s].metrics@[k],
        ).contains(p),
    ensures
        request_points(resources).contains(p),
    decreases resources.len(),
{
    let last = resources.last();
    let (head, tail) = (
        request_points(resources.drop_last()),
        resource_points(metric_service_of(last.resource), last.scope_metrics@),
    );
    if r == resources.len() - 1 {
        no_point_of_a_resource_is_lost(
            metric_service_of(last.resource),
            last.scope_metrics@,
            s,
            k,
            p,
        );
        let i = choose|i: int| 0 <= i < tail.len() && tail[i] == p;
        assert((head + tail)[head.len() + i] == p);
    } else {
        no_point_is_lost(resources.drop_last(), r, s, k, p);
        let i = choose|i: int| 0 <= i < head.len() && head[i] == p;
        assert((head + tail)[i] == p);
    }
}

proof fn no_point_of_a_resource_is_lost(
    service: Seq<char>,
    scopes: Seq<ScopeMetrics>,
    s: int,
    k: int,
    p: PointModel,
)
    requires
        0 <= s < scopes.len(),
        0 <= k < scopes[s].metrics@.len(),
        metric_points(service, scopes[s].metrics@[k]).contains(p),
    ensures
        resource_points(service, scopes).contains(p),
    decreases scopes.len(),
{
    let (head, tail) = (
        resource_points(service, scopes.drop_last()),
        scope_points(service, scopes.last().metrics@),
    );
    if s == scopes.len() - 1 {
        no_point_of_a_scope_is_lost(service, scopes.last().metrics@, k, p);
        let i = choose|i: int| 0 <= i < tail.len() && tail[i] == p;
        assert((head + tail)[head.len() + i] == p);
    } else {
        no_point_of_a_resource_is_lost(service, scopes.drop_last(), s, k, p);
        let i = choose|i: int| 0 <= i < head.len() && head[i] == p;
        assert((head + tail)[i] == p);
    }
}

proof fn no_point_of_a_scope_is_lost(
    service: Seq<char>,
    metrics: Seq<OtelMetric>,
    k: int,
    p: PointModel,
)
    requires
        0 <= k < metrics.len(),
        metric_points(service, metrics[k]).contains(p),
    ensures
        scope_points(service, metrics).contains(p),
    decreases metrics.len(),
{
    let (head, tail) = (
        scope_points(service, metrics.drop_last()),
        metric_points(service, metrics.last()),
    );
    if k == metrics.len() - 1 {
        let i = choose|i: int| 0 <= i < tail.len() && tail[i] == p;
        assert((head + tail)[head.len() + i] == p);
    } else {
        no_point_of_a_scope_is_lost(service, metrics.drop_last(), k, p);
        let i = choose|i: int| 0 <= i < head.len() && head[i] == p;
        assert((head + tail)[i] == p);
    }
}

/// The service of a resource is the first text under `service.name`.
pub proof fn metrics_are_named_by_their_resource(kvs: Vec<KeyValue>, i: int)
    ensures
        metric_service_of(None) == "unknown"@,
        (forall|j: int| 0 <= j < kvs@.len() ==> (#[trigger] kvs@[j]).key@ != "service.name"@)
            ==> metric_service_of(Some(kvs)) == "unknown"@,
        0 <= i < kvs@.len() && kvs@[i].key@ == "service.name"@ && (forall|j: int|
            0 <= j < i ==> (#[trigger] kvs@[j]).key@ != "service.name"@) ==> (
        kvs@[i].value matches Some(AnyValue::Text(s)) ==> metric_service_of(Some(kvs)) == s@),
{
    service_text_is_first(kvs@, 0, i);
}

proof fn service_text_is_first(kvs: Seq<KeyValue>, from: int, i: int)
    requires
        0 <= from,
    ensures
        (forall|j: int| from <= j < kvs.len() ==> (#[trigger] kvs[j]).key@ != "service.name"@)
            ==> service_text_from(kvs, from) is None,
        from <= i < kvs.len() && kvs[i].key@ == "service.name"@ && (forall|j: int|
            from <= j < i ==> (#[trigger] kvs[j]).key@ != "service.name"@) ==> (
        kvs[i].value matches Some(AnyValue::Text(s)) ==> service_text_from(kvs, from) == Some(s@)),
    decreases kvs.len() - from,
{
    if from < kvs.len() {
        service_text_is_first(kvs, from + 1, i);
        assert(kvs[from] == kvs[from]);
    }
}

} // verus!
