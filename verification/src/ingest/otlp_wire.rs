//! OTLP messages as they come over the wire.

use crate::ingest::otlp::{AnyValue, KeyValue, OtelEvent, OtelSpan, ResourceSpans, ScopeSpans};
use crate::ingest::otlp_logs::{OtelLog, ResourceLogs, ScopeLogs};
use crate::ingest::otlp_metrics::{ExponentialPoint, HistogramPoint, MetricData, NumberPoint, NumberValue, OtelMetric, PositiveBuckets, ResourceMetrics, ScopeMetrics, SummaryPoint};
use crate::ingest::otlp_models::{logs_models, metrics_models, trace_models, ResourceLogsModel, ResourceMetricsModel, ResourceSpansModel};
use opentelemetry_proto::tonic::collector::logs::v1::ExportLogsServiceRequest;
use opentelemetry_proto::tonic::collector::metrics::v1::ExportMetricsServiceRequest;
use opentelemetry_proto::tonic::collector::trace::v1::ExportTraceServiceRequest;
use opentelemetry_proto::tonic::common::v1::any_value;
use opentelemetry_proto::tonic::metrics::v1::metric;
use opentelemetry_proto::tonic::metrics::v1::number_data_point;
use opentelemetry_proto::tonic::common::v1::AnyValue as ProtoValue;
use opentelemetry_proto::tonic::common::v1::KeyValue as ProtoAttribute;
use opentelemetry_proto::tonic::trace::v1::Span as ProtoSpan;
use opentelemetry_proto::tonic::logs::v1::LogRecord as ProtoLog;
use opentelemetry_proto::tonic::metrics::v1::NumberDataPoint;
use opentelemetry_proto::tonic::metrics::v1::HistogramDataPoint;
use opentelemetry_proto::tonic::metrics::v1::ExponentialHistogramDataPoint;
use opentelemetry_proto::tonic::metrics::v1::Metric;
use opentelemetry_proto::tonic::metrics::v1::SummaryDataPoint;
use prost::Message;
use vstd::prelude::*;

verus! {

/// A trace export as the opentelemetry-proto crate holds it.
#[verifier::external_type_specification]
#[verifier::external_body]
pub struct ExTraceRequest(ExportTraceServiceRequest);

/// A log export as the opentelemetry-proto crate holds it.
#[verifier::external_type_specification]
#[verifier::external_body]
pub struct ExLogsRequest(ExportLogsServiceRequest);

/// A metric export as the opentelemetry-proto crate holds it.
#[verifier::external_type_specification]
#[verifier::external_body]
pub struct ExMetricsRequest(ExportMetricsServiceRequest);

/// The value of an attribute as the opentelemetry-proto crate holds it.
#[verifier::external_type_specification]
#[verifier::external_body]
pub struct ExAnyValue(ProtoValue);

/// An attribute as the opentelemetry-proto crate holds it.
#[verifier::external_type_specification]
#[verifier::external_body]
pub struct ExKeyValue(ProtoAttribute);

/// A span as the opentelemetry-proto crate holds it.
#[verifier::external_type_specification]
#[verifier::external_body]
pub struct ExSpan(ProtoSpan);

/// A log record as the opentelemetry-proto crate holds it.
#[verifier::external_type_specification]
#[verifier::external_body]
pub struct ExLogRecord(ProtoLog);

/// A point of a gauge or a sum as the opentelemetry-proto crate holds it.
#[verifier::external_type_specification]
#[verifier::external_body]
pub struct ExNumberPoint(NumberDataPoint);

/// A point of a histogram as the opentelemetry-proto crate holds it.
#[verifier::external_type_specification]
#[verifier::external_body]
pub struct ExHistogramPoint(HistogramDataPoint);

/// A point of an exponential histogram as the opentelemetry-proto crate holds it.
#[verifier::external_type_specification]
#[verifier::external_body]
pub struct ExExponentialPoint(ExponentialHistogramDataPoint);

/// A metric as the opentelemetry-proto crate holds it.
#[verifier::external_type_specification]
#[verifier::external_body]
pub struct ExMetric(Metric);

/// A point of a summary as the opentelemetry-proto crate holds it.
#[verifier::external_type_specification]
#[verifier::external_body]
pub struct ExSummaryPoint(SummaryDataPoint);

/// The points of a metric as the opentelemetry-proto crate holds it.
#[verifier::external_type_specification]
#[verifier::external_body]
pub struct ExData(metric::Data);

// ── What the messages hold ──────────────────────────────────────────

/// What a trace export holds.
pub uninterp spec fn traces_in(req: ExportTraceServiceRequest) -> Seq<ResourceSpansModel>;

/// What a log export holds.
pub uninterp spec fn logs_in(req: ExportLogsServiceRequest) -> Seq<ResourceLogsModel>;

/// What a metric export holds.
pub uninterp spec fn metrics_in(req: ExportMetricsServiceRequest) -> Seq<ResourceMetricsModel>;

/// Moves the fields of opentelemetry-proto's `AnyValue`. Bytes, arrays and lists
/// are not read any further; a double becomes its decimal text.
#[verifier::external_body]
fn wire_value(v: ProtoValue) -> (r: Option<AnyValue>) {
    match v.value {
        Some(any_value::Value::StringValue(s)) => Some(AnyValue::Text(s)),
        Some(any_value::Value::BoolValue(b)) => Some(AnyValue::Flag(b)),
        Some(any_value::Value::IntValue(i)) => Some(AnyValue::Integer(i)),
        Some(any_value::Value::DoubleValue(d)) => Some(AnyValue::Double(d.to_string())),
        Some(any_value::Value::ArrayValue(_)) => Some(AnyValue::Other),
        Some(any_value::Value::KvlistValue(_)) => Some(AnyValue::Other),
        Some(any_value::Value::BytesValue(_)) => Some(AnyValue::Other),
        Some(any_value::Value::StringValueStrindex(_)) => Some(AnyValue::Other),
        None => None,
    }
}

/// Moves the fields of opentelemetry-proto's `KeyValue`s.
#[verifier::external_body]
fn wire_attributes(v: Vec<ProtoAttribute>) -> (r: Vec<KeyValue>) {
    v.into_iter().map(
        |kv| KeyValue { key: kv.key, value: kv.value.and_then(wire_value) },
    ).collect()
}

/// Moves the fields of opentelemetry-proto's `Span`.
#[verifier::external_body]
fn wire_span(s: ProtoSpan) -> (r: OtelSpan) {
    OtelSpan {
        trace_id: s.trace_id,
        span_id: s.span_id,
        parent_span_id: s.parent_span_id,
        name: s.name,
        kind: s.kind,
        start_time_unix_nano: s.start_time_unix_nano,
        end_time_unix_nano: s.end_time_unix_nano,
        attributes: wire_attributes(s.attributes),
        events: s.events.into_iter().map(
            |e| OtelEvent { time_unix_nano: e.time_unix_nano, name: e.name, attributes: wire_attributes(e.attributes) },
        ).collect(),
        status: s.status.map(|t| t.code),
    }
}

/// Moves the fields of opentelemetry-proto's `ExportTraceServiceRequest`, span by
/// span. Claims that the result is
/// what the export holds.
#[verifier::external_body]
fn wire_traces(req: ExportTraceServiceRequest) -> (r: Vec<ResourceSpans>)
    ensures
        trace_models(r@) == traces_in(req),
{
    req.resource_spans.into_iter().map(
        |r| ResourceSpans {
            resource: r.resource.map(|x| wire_attributes(x.attributes)),
            scope_spans: r.scope_spans.into_iter().map(
                |s| ScopeSpans { spans: s.spans.into_iter().map(wire_span).collect() },
            ).collect(),
        },
    ).collect()
}

/// Moves the fields of opentelemetry-proto's `LogRecord`.
#[verifier::external_body]
fn wire_log(l: ProtoLog) -> (r: OtelLog) {
    OtelLog {
        time_unix_nano: l.time_unix_nano,
        observed_time_unix_nano: l.observed_time_unix_nano,
        severity_number: l.severity_number,
        severity_text: l.severity_text,
        body: l.body.and_then(wire_value),
        attributes: wire_attributes(l.attributes),
        trace_id: l.trace_id,
        span_id: l.span_id,
    }
}

/// Moves the fields of opentelemetry-proto's `ExportLogsServiceRequest`, record by
/// record. Claims that the result
/// is what the export holds.
#[verifier::external_body]
fn wire_logs(req: ExportLogsServiceRequest) -> (r: Vec<ResourceLogs>)
    ensures
        logs_models(r@) == logs_in(req),
{
    req.resource_logs.into_iter().map(
        |r| ResourceLogs {
            resource: r.resource.map(|x| wire_attributes(x.attributes)),
            scope_logs: r.scope_logs.into_iter().map(
                |s| ScopeLogs { log_records: s.log_records.into_iter().map(wire_log).collect() },
            ).collect(),
        },
    ).collect()
}

/// Moves the fields of opentelemetry-proto's `NumberDataPoint`; a double becomes its bits.
#[verifier::external_body]
fn wire_number(p: NumberDataPoint) -> (r: NumberPoint) {
    NumberPoint {
        time_unix_nano: p.time_unix_nano,
        value: p.value.map(
            |v| match v {
                number_data_point::Value::AsDouble(d) => NumberValue::Double(d.to_bits()),
                number_data_point::Value::AsInt(i) => NumberValue::Integer(i),
            },
        ),
        attributes: wire_attributes(p.attributes),
    }
}

/// Moves the fields of opentelemetry-proto's `HistogramDataPoint`; doubles become their bits.
#[verifier::external_body]
fn wire_histogram(p: HistogramDataPoint) -> (r:
    HistogramPoint) {
    HistogramPoint {
        time_unix_nano: p.time_unix_nano,
        count: p.count,
        sum: p.sum.map(|d| d.to_bits()),
        bucket_counts: p.bucket_counts,
        explicit_bounds: p.explicit_bounds.into_iter().map(|d| d.to_bits()).collect(),
        min: p.min.map(|d| d.to_bits()),
        max: p.max.map(|d| d.to_bits()),
        attributes: wire_attributes(p.attributes),
    }
}

/// Moves the fields of opentelemetry-proto's `ExponentialHistogramDataPoint`; doubles become their
/// bits. The message has no upper bounds of the buckets, which are powers of a
/// base in floating point: they are left empty, for the caller to fill in.
#[verifier::external_body]
fn wire_exponential(
    p: ExponentialHistogramDataPoint,
) -> (r: ExponentialPoint) {
    ExponentialPoint {
        time_unix_nano: p.time_unix_nano,
        count: p.count,
        sum: p.sum.map(|d| d.to_bits()),
        scale: p.scale,
        zero_count: p.zero_count,
        positive: p.positive.map(
            |b| PositiveBuckets { offset: b.offset, counts: b.bucket_counts, uppers: Vec::new() },
        ),
        negative_counts: p.negative.map_or(Vec::new(), |b| b.bucket_counts),
        min: p.min.map(|d| d.to_bits()),
        max: p.max.map(|d| d.to_bits()),
        attributes: wire_attributes(p.attributes),
    }
}

/// Moves the fields of opentelemetry-proto's `SummaryDataPoint`; its sum becomes its bits.
#[verifier::external_body]
fn wire_summary(p: SummaryDataPoint) -> (r: SummaryPoint) {
    SummaryPoint {
        time_unix_nano: p.time_unix_nano,
        sum: p.sum.to_bits(),
        attributes: wire_attributes(p.attributes),
    }
}

/// Moves the points of opentelemetry-proto's `metric::Data`, one by one.
#[verifier::external_body]
fn wire_data(d: metric::Data) -> (r: MetricData) {
    match d {
        metric::Data::Gauge(g) => MetricData::Gauge(g.data_points.into_iter().map(wire_number).collect()),
        metric::Data::Sum(s) => MetricData::Sum(s.data_points.into_iter().map(wire_number).collect()),
        metric::Data::Histogram(h) => MetricData::Histogram { temporality: h.aggregation_temporality, points: h.data_points.into_iter().map(wire_histogram).collect() },
        metric::Data::ExponentialHistogram(h) => MetricData::Exponential { temporality: h.aggregation_temporality, points: h.data_points.into_iter().map(wire_exponential).collect() },
        metric::Data::Summary(s) => MetricData::Summary(s.data_points.into_iter().map(wire_summary).collect()),
    }
}

/// Moves the fields of opentelemetry-proto's `Metric`.
#[verifier::external_body]
fn wire_metric(m: Metric) -> (r: OtelMetric) {
    OtelMetric { name: m.name, unit: m.unit, data: m.data.map(wire_data) }
}

/// Moves the fields of opentelemetry-proto's `ExportMetricsServiceRequest`, metric
/// by metric. Claims that the
/// result is what the export holds.
#[verifier::external_body]
fn wire_metrics(req: ExportMetricsServiceRequest) -> (r: Vec<ResourceMetrics>)
    ensures
        metrics_models(r@) == metrics_in(req),
{
    req.resource_metrics.into_iter().map(
        |r| ResourceMetrics {
            resource: r.resource.map(|x| wire_attributes(x.attributes)),
            scope_metrics: r.scope_metrics.into_iter().map(
                |s| ScopeMetrics { metrics: s.metrics.into_iter().map(wire_metric).collect() },
            ).collect(),
        },
    ).collect()
}

/// The spans of a trace export.
pub fn read_traces(req: ExportTraceServiceRequest) -> (r: Vec<ResourceSpans>)
    ensures
        trace_models(r@) == traces_in(req),
{
    wire_traces(req)
}

/// The records of a log export.
pub fn read_logs(req: ExportLogsServiceRequest) -> (r: Vec<ResourceLogs>)
    ensures
        logs_models(r@) == logs_in(req),
{
    wire_logs(req)
}

/// The metrics of a metric export.
pub fn read_metrics(req: ExportMetricsServiceRequest) -> (r: Vec<ResourceMetrics>)
    ensures
        metrics_models(r@) == metrics_in(req),
{
    wire_metrics(req)
}

// ── Decoding ────────────────────────────────────────────────────────

/// The trace export that prost decodes from some bytes, or what it says is
/// wrong with them.
pub uninterp spec fn trace_message(body: Seq<u8>) -> Result<Seq<ResourceSpansModel>, Seq<char>>;

/// The log export that prost decodes from some bytes, or what it says is wrong
/// with them.
pub uninterp spec fn logs_message(body: Seq<u8>) -> Result<Seq<ResourceLogsModel>, Seq<char>>;

/// The metric export that prost decodes from some bytes, or what it says is
/// wrong with them.
pub uninterp spec fn metrics_message(body: Seq<u8>) -> Result<Seq<ResourceMetricsModel>, Seq<char>>;

/// Calls prost's `decode` for a trace export. Claims that the outcome is a
/// function of the bytes.
#[verifier::external_body]
fn prost_traces(body: &Vec<u8>) -> (r: Result<ExportTraceServiceRequest, String>)
    ensures
        match r {
            Ok(req) => trace_message(body@) == Ok::<Seq<ResourceSpansModel>, Seq<char>>(traces_in(req)),
            Err(e) => trace_message(body@) == Err::<Seq<ResourceSpansModel>, Seq<char>>(e@),
        },
{
    ExportTraceServiceRequest::decode(body.as_slice()).map_err(|e| e.to_string())
}

/// Calls prost's `decode` for a log export. Claims that the outcome is a
/// function of the bytes.
#[verifier::external_body]
fn prost_logs(body: &Vec<u8>) -> (r: Result<ExportLogsServiceRequest, String>)
    ensures
        match r {
            Ok(req) => logs_message(body@) == Ok::<Seq<ResourceLogsModel>, Seq<char>>(logs_in(req)),
            Err(e) => logs_message(body@) == Err::<Seq<ResourceLogsModel>, Seq<char>>(e@),
        },
{
    ExportLogsServiceRequest::decode(body.as_slice()).map_err(|e| e.to_string())
}

/// Calls prost's `decode` for a metric export. Claims that the outcome is a
/// function of the bytes.
#[verifier::external_body]
fn prost_metrics(body: &Vec<u8>) -> (r: Result<ExportMetricsServiceRequest, String>)
    ensures
        match r {
            Ok(req) => metrics_message(body@) == Ok::<Seq<ResourceMetricsModel>, Seq<char>>(
                metrics_in(req),
            ),
            Err(e) => metrics_message(body@) == Err::<Seq<ResourceMetricsModel>, Seq<char>>(e@),
        },
{
    ExportMetricsServiceRequest::decode(body.as_slice()).map_err(|e| e.to_string())
}

/// Decode a trace export, or say what is wrong with it.
pub fn decode_traces(body: &Vec<u8>) -> (r: Result<ExportTraceServiceRequest, String>)
    ensures
        match r {
            Ok(req) => trace_message(body@) == Ok::<Seq<ResourceSpansModel>, Seq<char>>(traces_in(req)),
            Err(e) => trace_message(body@) == Err::<Seq<ResourceSpansModel>, Seq<char>>(e@),
        },
{
    prost_traces(body)
}

/// Decode a log export, or say what is wrong with it.
pub fn decode_logs(body: &Vec<u8>) -> (r: Result<ExportLogsServiceRequest, String>)
    ensures
        match r {
            Ok(req) => logs_message(body@) == Ok::<Seq<ResourceLogsModel>, Seq<char>>(logs_in(req)),
            Err(e) => logs_message(body@) == Err::<Seq<ResourceLogsModel>, Seq<char>>(e@),
        },
{
    prost_logs(body)
}

/// Decode a metric export, or say what is wrong with it.
pub fn decode_metrics(body: &Vec<u8>) -> (r: Result<ExportMetricsServiceRequest, String>)
    ensures
        match r {
            Ok(req) => metrics_message(body@) == Ok::<Seq<ResourceMetricsModel>, Seq<char>>(
                metrics_in(req),
            ),
            Err(e) => metrics_message(body@) == Err::<Seq<ResourceMetricsModel>, Seq<char>>(e@),
        },
{
    prost_metrics(body)
}

} // verus!
