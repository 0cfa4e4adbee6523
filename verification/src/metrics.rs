//! Stored metric points.
//!
//! A measured number is held as the 64 bits of its IEEE 754 double.

use crate::labels::Labels;
use crate::time::{Instant, Timestamp};
use vstd::prelude::*;

verus! {

#[derive(Debug, Clone, Copy, PartialEq, Eq, Structural)]
pub enum MetricType {
    Gauge,
    Sum,
    Histogram,
    Summary,
    Unknown,
}

#[derive(Debug, Clone, Copy, PartialEq, Eq, Structural)]
pub enum Temporality {
    Delta,
    Cumulative,
}

/// A data point's whole bucket layout.
#[derive(Debug, Clone)]
pub struct HistogramBuckets {
    pub bounds: Vec<u64>,
    pub counts: Vec<u64>,
    pub count: u64,
    pub sum: u64,
    pub min: Option<u64>,
    pub max: Option<u64>,
    pub temporality: Temporality,
}

#[derive(Debug, Clone)]
pub struct MetricPoint {
    pub timestamp: Timestamp,
    pub service: String,
    pub name: String,
    pub metric_type: MetricType,
    pub value: u64,
    pub unit: String,
    pub attributes: Labels,
    pub histogram: Option<HistogramBuckets>,
}

// ── Models ──────────────────────────────────────────────────────────

pub struct HistogramModel {
    pub bounds: Seq<u64>,
    pub counts: Seq<u64>,
    pub count: u64,
    pub sum: u64,
    pub min: Option<u64>,
    pub max: Option<u64>,
    pub temporality: Temporality,
}

pub struct PointModel {
    pub instant: Instant,
    pub service: Seq<char>,
    pub name: Seq<char>,
    pub metric_type: MetricType,
    pub value: u64,
    pub unit: Seq<char>,
    pub attributes: Map<Seq<char>, Seq<char>>,
    pub histogram: Option<HistogramModel>,
}

impl View for HistogramBuckets {
    type V = HistogramModel;

    open spec fn view(&self) -> HistogramModel {
        HistogramModel {
            bounds: self.bounds@,
            counts: self.counts@,
            count: self.count,
            sum: self.sum,
            min: self.min,
            max: self.max,
            temporality: self.temporality,
        }
    }
}

pub open spec fn opt_histogram(h: Option<HistogramBuckets>) -> Option<HistogramModel> {
    match h {
        Some(b) => Some(b@),
        None => None,
    }
}

impl View for MetricPoint {
    type V = PointModel;

    open spec fn view(&self) -> PointModel {
        PointModel {
            instant: self.timestamp@,
            service: self.service@,
            name: self.name@,
            metric_type: self.metric_type,
            value: self.value,
            unit: self.unit@,
            attributes: self.attributes@,
            histogram: opt_histogram(self.histogram),
        }
    }
}

pub open spec fn point_views(v: Seq<MetricPoint>) -> Seq<PointModel> {
    v.map_values(|p: MetricPoint| p@)
}

/// A copy of some numbers.
pub fn copy_numbers(v: &Vec<u64>) -> (r: Vec<u64>)
    ensures
        r@ == v@,
{
    let mut out: Vec<u64> = Vec::new();
    let mut i: usize = 0;
    while i < v.len()
        invariant
            i <= v@.len(),
            out@ == v@.take(i as int),
        decreases v@.len() - i,
    {
        out.push(v[i]);
        i = i + 1;
        assert(out@ =~= v@.take(i as int));
    }
    assert(out@ =~= v@);
    out
}

/// Points with a stamp on the attributes of each, in the same order.
pub open spec fn stamped_points(
    points: Seq<PointModel>,
    stamp: Option<crate::spans::TenantStamp>,
) -> Seq<PointModel> {
    points.map_values(
        |p: PointModel|
            PointModel { attributes: crate::spans::stamped(p.attributes, stamp), ..p },
    )
}

/// Stamps the writer's tenant on every point.
pub fn stamp_points(
    points: Vec<MetricPoint>,
    stamp: &Option<crate::spans::TenantStamp>,
) -> (r: Vec<MetricPoint>)
    ensures
        point_views(r@) == stamped_points(point_views(points@), *stamp),
{
    let ghost all = points@;
    let ghost wanted = stamped_points(point_views(all), *stamp);
    let mut out: Vec<MetricPoint> = Vec::new();
    for p in it: points
        invariant
            it.seq() == all,
            wanted == stamped_points(point_views(all), *stamp),
            point_views(out@) == wanted.take(it.index()),
    {
        let ghost before = out@;
        let mut p = p;
        let mut attributes = p.attributes;
        crate::spans::stamp_attributes(&mut attributes, stamp);
        p.attributes = attributes;
        assert(p@ == wanted[it.index()]);
        out.push(p);
        assert(point_views(out@) =~= point_views(before).push(p@));
        assert(point_views(out@) =~= wanted.take(it.index() + 1));
    }
    assert(wanted.take(all.len() as int) =~= wanted);
    out
}

/// A stamp is put on every point and changes nothing else of it; without one the
/// points stay as they are.
pub proof fn stamps_are_put_on_every_point(
    points: Seq<PointModel>,
    stamp: crate::spans::TenantStamp,
    i: int,
)
    requires
        0 <= i < points.len(),
    ensures
        ({
            let r = stamped_points(points, Some(stamp));
            &&& r.len() == points.len()
            &&& r[i].attributes == points[i].attributes.insert(stamp.attribute@, stamp.tenant@)
            &&& r[i].value == points[i].value && r[i].name == points[i].name && r[i].service
                == points[i].service && r[i].instant == points[i].instant && r[i].histogram
                == points[i].histogram && r[i].unit == points[i].unit && r[i].metric_type
                == points[i].metric_type
        }),
        stamped_points(points, None)[i] == points[i],
{
}

} // verus!
