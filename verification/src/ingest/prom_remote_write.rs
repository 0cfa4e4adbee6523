//! Prometheus remote-write intake.

use crate::doubles::{bits_are_nan, is_nan_bits};
use crate::labels::Labels;
use crate::metrics::{point_views, MetricPoint, MetricType, PointModel};
use crate::text::same;
use crate::time::{at, in_range, Instant, Timestamp};
use vstd::prelude::*;

verus! {

#[derive(Debug)]
pub struct WriteRequest {
    pub timeseries: Vec<TimeSeries>,
}

#[derive(Debug)]
pub struct TimeSeries {
    pub labels: Vec<Label>,
    pub samples: Vec<Sample>,
}

#[derive(Debug)]
pub struct Label {
    pub name: String,
    pub value: String,
}

/// A sample; its value as the bits of a double.
#[derive(Debug, Clone, Copy, PartialEq, Eq, Structural)]
pub struct Sample {
    pub value: u64,
    /// Milliseconds since Unix epoch.
    pub timestamp: i64,
}

// ── Bodies ──────────────────────────────────────────────────────────

/// What the snap crate's raw decoder makes of a compressed body; nothing where
/// it is malformed.
pub uninterp spec fn snappy(body: Seq<u8>) -> Option<Seq<u8>>;

/// Calls `decompress_vec` of snap's raw decoder. Claims that the outcome is a
/// function of the body.
#[verifier::external_body]
fn snap_decompress(body: &Vec<u8>) -> (r: Option<Vec<u8>>)
    ensures
        match r {
            Some(v) => snappy(body@) == Some(v@),
            None => snappy(body@) is None,
        },
{
    snap::raw::Decoder::new().decompress_vec(body).ok()
}

/// The protobuf message in a compressed body, or `None` where the body is
/// malformed.
pub fn decompress_body(body: &Vec<u8>) -> (r: Option<Vec<u8>>)
    ensures
        match r {
            Some(v) => snappy(body@) == Some(v@),
            None => snappy(body@) is None,
        },
{
    snap_decompress(body)
}

// ── Series ──────────────────────────────────────────────────────────

/// What the labels of a series come to.
pub struct Head {
    pub name: Seq<char>,
    pub service: Seq<char>,
    /// Whether a label gave the service.
    pub served: bool,
    pub attributes: Map<Seq<char>, Seq<char>>,
}

/// `__name__` is the metric's name. The OTel-style service name is preferred,
/// with `job` to fall back on; whatever is not used for either is an
/// attribute.
pub open spec fn head_of(labels: Seq<Label>) -> Head
    decreases labels.len(),
{
    if labels.len() == 0 {
        Head { name: Seq::empty(), service: "unknown"@, served: false, attributes: Map::empty() }
    } else {
        let before = head_of(labels.drop_last());
        let l = labels.last();
        if l.name@ == "__name__"@ {
            Head { name: l.value@, ..before }
        } else if l.name@ == "service.name"@ || l.name@ == "service_name"@ {
            Head { service: l.value@, served: true, ..before }
        } else if l.name@ == "job"@ && !before.served {
            Head { service: l.value@, served: true, ..before }
        } else {
            Head { attributes: before.attributes.insert(l.name@, l.value@), ..before }
        }
    }
}

fn read_head(labels: &Vec<Label>) -> (r: (String, String, Labels))
    ensures
        r.0@ == head_of(labels@).name,
        r.1@ == head_of(labels@).service,
        r.2@ == head_of(labels@).attributes,
{
    let mut name = String::new();
    let mut service = "unknown".to_owned();
    let mut served = false;
    let mut attributes = Labels::new();
    let mut i: usize = 0;
    assert(labels@.take(0) =~= Seq::<Label>::empty());
    assert(name@ =~= Seq::<char>::empty());
    while i < labels.len()
        invariant
            i <= labels@.len(),
            name@ == head_of(labels@.take(i as int)).name,
            service@ == head_of(labels@.take(i as int)).service,
            served == head_of(labels@.take(i as int)).served,
            attributes@ == head_of(labels@.take(i as int)).attributes,
        decreases labels@.len() - i,
    {
        let l = &labels[i];
        assert(labels@.take(i as int + 1).drop_last() =~= labels@.take(i as int));
        assert(labels@.take(i as int + 1).last() == *l);
        if same(l.name.as_str(), "__name__") {
            name = l.value.clone();
        } else if same(l.name.as_str(), "service.name") || same(l.name.as_str(), "service_name") {
            service = l.value.clone();
            served = true;
        } else if !served && same(l.name.as_str(), "job") {
            service = l.value.clone();
            served = true;
        } else {
            attributes.insert(l.name.clone(), l.value.clone());
        }
        i = i + 1;
    }
    assert(labels@.take(labels@.len() as int) =~= labels@);
    (name, service, attributes)
}

/// The instant of a sample; the epoch where it is out of range.
pub open spec fn sample_instant(millis: i64) -> Instant {
    at(
        if in_range(millis * 1000000) {
            millis * 1000000
        } else {
            0
        },
    )
}

/// The points of the samples of a series, in order. A NaN marks a stale series
/// and is skipped.
pub open spec fn sample_points(head: Head, samples: Seq<Sample>) -> Seq<PointModel>
    decreases samples.len(),
{
    if samples.len() == 0 {
        Seq::empty()
    } else {
        let before = sample_points(head, samples.drop_last());
        let s = samples.last();
        if is_nan_bits(s.value) {
            before
        } else {
            before.push(
                PointModel {
                    instant: sample_instant(s.timestamp),
                    service: head.service,
                    name: head.name,
                    metric_type: MetricType::Unknown,
                    value: s.value,
                    unit: Seq::empty(),
                    attributes: head.attributes,
                    histogram: None,
                },
            )
        }
    }
}

/// The points of a series; one without a name has none.
pub open spec fn series_points(ts: TimeSeries) -> Seq<PointModel> {
    let head = head_of(ts.labels@);
    if head.name.len() == 0 {
        Seq::empty()
    } else {
        sample_points(head, ts.samples@)
    }
}

/// The points of a request, in order.
pub open spec fn written_points(series: Seq<TimeSeries>) -> Seq<PointModel>
    decreases series.len(),
{
    if series.len() == 0 {
        Seq::empty()
    } else {
        written_points(series.drop_last()) + series_points(series.last())
    }
}

fn millis_to_timestamp(millis: i64) -> (r: Timestamp)
    ensures
        r@ == sample_instant(millis),
{
    match Timestamp::from_millis(millis) {
        Some(t) => t,
        None => Timestamp::from_unix_nanos(0),
    }
}

fn push_series(ts: &TimeSeries, out: &mut Vec<MetricPoint>)
    ensures
        point_views(final(out)@) == point_views(old(out)@) + series_points(*ts),
{
    let ghost start = point_views(out@);
    let (name, service, attributes) = read_head(&ts.labels);
    let ghost head = head_of(ts.labels@);
    if name.as_str().is_empty() {
        assert(start + series_points(*ts) =~= start);
        return ;
    }
    let mut i: usize = 0;
    assert(ts.samples@.take(0) =~= Seq::<Sample>::empty());
    assert(start + sample_points(head, ts.samples@.take(0)) =~= start);
    while i < ts.samples.len()
        invariant
            i <= ts.samples@.len(),
            name@ == head.name,
            service@ == head.service,
            attributes@ == head.attributes,
            point_views(out@) == start + sample_points(head, ts.samples@.take(i as int)),
        decreases ts.samples@.len() - i,
    {
        let s = ts.samples[i];
        let ghost t = ts.samples@.take(i as int + 1);
        assert(t.drop_last() =~= ts.samples@.take(i as int));
        assert(t.last() == s);
        if !bits_are_nan(s.value) {
            let ghost before = out@;
            let unit = String::new();
            assert(unit@ =~= Seq::<char>::empty());
            let p = MetricPoint {
                timestamp: millis_to_timestamp(s.timestamp),
                service: service.clone(),
                name: name.clone(),
                metric_type: MetricType::Unknown,
                value: s.value,
                unit,
                attributes: attributes.clone(),
                histogram: None,
            };
            out.push(p);
            assert(point_views(out@) =~= point_views(before).push(p@));
            assert(point_views(out@) =~= start + sample_points(head, t));
        }
        i = i + 1;
    }
    assert(ts.samples@.take(ts.samples@.len() as int) =~= ts.samples@);
}

/// The points of a remote-write request, in order.
pub fn convert_request(req: &WriteRequest) -> (r: Vec<MetricPoint>)
    ensures
        point_views(r@) == written_points(req.timeseries@),
{
    let mut out: Vec<MetricPoint> = Vec::new();
    let mut i: usize = 0;
    assert(req.timeseries@.take(0) =~= Seq::<TimeSeries>::empty());
    assert(point_views(out@) =~= Seq::<PointModel>::empty());
    while i < req.timeseries.len()
        invariant
            i <= req.timeseries@.len(),
            point_views(out@) == written_points(req.timeseries@.take(i as int)),
        decreases req.timeseries@.len() - i,
    {
        push_series(&req.timeseries[i], &mut out);
        proof {
            let t = req.timeseries@.take(i as int + 1);
            assert(t.drop_last() =~= req.timeseries@.take(i as int));
            assert(t.last() == req.timeseries@[i as int]);
        }
        i = i + 1;
    }
    assert(req.timeseries@.take(req.timeseries@.len() as int) =~= req.timeseries@);
    out
}

// ── Answers ─────────────────────────────────────────────────────────

/// The HTTP status and the body that a write is answered with.
pub fn write_answer(written: &Result<(), String>) -> (r: (u16, String))
    ensures
        match *written {
            Ok(_) => r.0 == 204 && r.1@.len() == 0,
            Err(e) => r.0 == 400 && r.1@ == "remote-write error: "@ + e@,
        },
{
    match written {
        Ok(_) => (204, String::new()),
        Err(e) => {
            let mut body = "remote-write error: ".to_owned();
            body.append(e.as_str());
            (400, body)
        },
    }
}

/// A series is named by its `__name__` label and served by `service_name` or
/// `service.name`, else by the first `job`; every other label is an attribute of
/// it, the last of a name winning.
pub proof fn labels_say_what_a_series_is(labels: Seq<Label>, l: Label)
    ensures
        head_of(Seq::empty()).name.len() == 0,
        head_of(Seq::empty()).service == "unknown"@,
        ({
            let before = head_of(labels);
            let after = head_of(labels.push(l));
            &&& l.name@ == "__name__"@ ==> after.name == l.value@ && after.service == before.service
                && after.attributes == before.attributes
            &&& l.name@ == "service_name"@ || l.name@ == "service.name"@ ==> after.service
                == l.value@ && after.name == before.name && after.attributes == before.attributes
            &&& l.name@ == "job"@ && !before.served ==> after.service == l.value@ && after.name
                == before.name
            &&& l.name@ != "__name__"@ ==> after.name == before.name
            &&& l.name@ != "service_name"@ && l.name@ != "service.name"@ && l.name@ != "job"@
                ==> after.service == before.service
            &&& l.name@ != "__name__"@ && l.name@ != "service_name"@ && l.name@ != "service.name"@
                && l.name@ != "job"@ ==> after.attributes == before.attributes.insert(
                l.name@,
                l.value@,
            )
        }),
{
    reveal_strlit("__name__");
    reveal_strlit("service_name");
    reveal_strlit("service.name");
    reveal_strlit("job");
    assert("__name__"@.len() == 8 && "job"@.len() == 3 && "service_name"@.len() == 12
        && "service.name"@.len() == 12);
    assert(labels.push(l).drop_last() =~= labels);
}

/// Each sample that is a number is a point of its series, with its value, at its
/// millisecond; what is no number is left out.
pub proof fn samples_keep_what_was_sent(head: Head, samples: Seq<Sample>, i: int)
    ensures
        sample_points(head, samples).len() == samples.filter(
            |s: Sample| !is_nan_bits(s.value),
        ).len(),
        0 <= i < sample_points(head, samples).len() ==> {
            let p = sample_points(head, samples)[i];
            let s = samples.filter(|s: Sample| !is_nan_bits(s.value))[i];
            &&& p.name == head.name && p.service == head.service && p.attributes == head.attributes
            &&& p.value == s.value
            &&& in_range(s.timestamp * 1000000) ==> p.instant == at(s.timestamp * 1000000)
            &&& p.metric_type == MetricType::Unknown && p.unit.len() == 0 && p.histogram is None
        },
    decreases samples.len(),
{
    reveal(Seq::filter);
    if samples.len() > 0 {
        let init = samples.drop_last();
        samples_keep_what_was_sent(head, init, i);
        let before = sample_points(head, init);
        let kept = init.filter(|s: Sample| !is_nan_bits(s.value));
        if 0 <= i < before.len() {
            assert(sample_points(head, samples)[i] == before[i]);
            assert(samples.filter(|s: Sample| !is_nan_bits(s.value))[i] == kept[i]);
        }
    }
}

/// Every series with a name is written, one without is not.
pub proof fn named_series_are_written(series: Seq<TimeSeries>, i: int, p: PointModel)
    requires
        0 <= i < series.len(),
    ensures
        head_of(series[i].labels@).name.len() > 0 && sample_points(
            head_of(series[i].labels@),
            series[i].samples@,
        ).contains(p) ==> written_points(series).contains(p),
        head_of(series[i].labels@).name.len() == 0 ==> series_points(series[i]).len() == 0,
    decreases series.len(),
{
    let (head, tail) = (written_points(series.drop_last()), series_points(series.last()));
    if head_of(series[i].labels@).name.len() > 0 && sample_points(
        head_of(series[i].labels@),
        series[i].samples@,
    ).contains(p) {
        if i == series.len() - 1 {
            let k = choose|k: int| 0 <= k < tail.len() && tail[k] == p;
            assert((head + tail)[head.len() + k] == p);
        } else {
            named_series_are_written(series.drop_last(), i, p);
            let k = choose|k: int| 0 <= k < head.len() && head[k] == p;
            assert((head + tail)[k] == p);
        }
    }
}

} // verus!
