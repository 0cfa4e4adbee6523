//! What OTLP messages hold, as values: texts and lists by their contents.

use crate::ingest::otlp::{AnyValue, KeyValue, OtelEvent, OtelSpan, ResourceSpans, ScopeSpans};
use crate::ingest::otlp_logs::{OtelLog, ResourceLogs, ScopeLogs};
use crate::ingest::otlp_metrics::{ExponentialPoint, HistogramPoint, MetricData, NumberPoint, NumberValue, OtelMetric, PositiveBuckets, ResourceMetrics, ScopeMetrics, SummaryPoint};
use vstd::prelude::*;

verus! {

// ── Attributes ──────────────────────────────────────────────────────

pub enum ValueModel {
    Text(Seq<char>),
    Flag(bool),
    Integer(i64),
    Double(Seq<char>),
    Other,
}

impl View for AnyValue {
    type V = ValueModel;

    open spec fn view(&self) -> ValueModel {
        match *self {
            AnyValue::Text(s) => ValueModel::Text(s@),
            AnyValue::Flag(b) => ValueModel::Flag(b),
            AnyValue::Integer(n) => ValueModel::Integer(n),
            AnyValue::Double(s) => ValueModel::Double(s@),
            AnyValue::Other => ValueModel::Other,
        }
    }
}

pub open spec fn opt_value(v: Option<AnyValue>) -> Option<ValueModel> {
    match v {
        Some(v) => Some(v@),
        None => None,
    }
}

pub struct AttributeModel {
    pub key: Seq<char>,
    pub value: Option<ValueModel>,
}

impl View for KeyValue {
    type V = AttributeModel;

    open spec fn view(&self) -> AttributeModel {
        AttributeModel { key: self.key@, value: opt_value(self.value) }
    }
}

pub open spec fn attribute_models(v: Seq<KeyValue>) -> Seq<AttributeModel> {
    v.map_values(|kv: KeyValue| kv@)
}

pub open spec fn resource_model(v: Option<Vec<KeyValue>>) -> Option<Seq<AttributeModel>> {
    match v {
        Some(v) => Some(attribute_models(v@)),
        None => None,
    }
}

// ── Traces ──────────────────────────────────────────────────────────

pub struct OtelEventModel {
    pub time_unix_nano: u64,
    pub name: Seq<char>,
    pub attributes: Seq<AttributeModel>,
}

impl View for OtelEvent {
    type V = OtelEventModel;

    open spec fn view(&self) -> OtelEventModel {
        OtelEventModel {
            time_unix_nano: self.time_unix_nano,
            name: self.name@,
            attributes: attribute_models(self.attributes@),
        }
    }
}

pub struct OtelSpanModel {
    pub trace_id: Seq<u8>,
    pub span_id: Seq<u8>,
    pub parent_span_id: Seq<u8>,
    pub name: Seq<char>,
    pub kind: i32,
    pub start_time_unix_nano: u64,
    pub end_time_unix_nano: u64,
    pub attributes: Seq<AttributeModel>,
    pub events: Seq<OtelEventModel>,
    pub status: Option<i32>,
}

impl View for OtelSpan {
    type V = OtelSpanModel;

    open spec fn view(&self) -> OtelSpanModel {
        OtelSpanModel {
            trace_id: self.trace_id@,
            span_id: self.span_id@,
            parent_span_id: self.parent_span_id@,
            name: self.name@,
            kind: self.kind,
            start_time_unix_nano: self.start_time_unix_nano,
            end_time_unix_nano: self.end_time_unix_nano,
            attributes: attribute_models(self.attributes@),
            events: self.events@.map_values(|e: OtelEvent| e@),
            status: self.status,
        }
    }
}

pub struct ResourceSpansModel {
    pub resource: Option<Seq<AttributeModel>>,
    pub scopes: Seq<Seq<OtelSpanModel>>,
}

impl View for ResourceSpans {
    type V = ResourceSpansModel;

    open spec fn view(&self) -> ResourceSpansModel {
        ResourceSpansModel {
            resource: resource_model(self.resource),
            scopes: self.scope_spans@.map_values(
                |s: ScopeSpans| s.spans@.map_values(|x: OtelSpan| x@),
            ),
        }
    }
}

pub open spec fn trace_models(v: Seq<ResourceSpans>) -> Seq<ResourceSpansModel> {
    v.map_values(|r: ResourceSpans| r@)
}

// ── Logs ────────────────────────────────────────────────────────────

pub struct OtelLogModel {
    pub time_unix_nano: u64,
    pub observed_time_unix_nano: u64,
    pub severity_number: i32,
    pub severity_text: Seq<char>,
    pub body: Option<ValueModel>,
    pub attributes: Seq<AttributeModel>,
    pub trace_id: Seq<u8>,
    pub span_id: Seq<u8>,
}

impl View for OtelLog {
    type V = OtelLogModel;

    open spec fn view(&self) -> OtelLogModel {
        OtelLogModel {
            time_unix_nano: self.time_unix_nano,
            observed_time_unix_nano: self.observed_time_unix_nano,
            severity_number: self.severity_number,
            severity_text: self.severity_text@,
            body: opt_value(self.body),
            attributes: attribute_models(self.attributes@),
            trace_id: self.trace_id@,
            span_id: self.span_id@,
        }
    }
}

pub struct ResourceLogsModel {
    pub resource: Option<Seq<AttributeModel>>,
    pub scopes: Seq<Seq<OtelLogModel>>,
}

impl View for ResourceLogs {
    type V = ResourceLogsModel;

    open spec fn view(&self) -> ResourceLogsModel {
        ResourceLogsModel {
            resource: resource_model(self.resource),
            scopes: self.scope_logs@.map_values(
                |s: ScopeLogs| s.log_records@.map_values(|x: OtelLog| x@),
            ),
        }
    }
}

pub open spec fn logs_models(v: Seq<ResourceLogs>) -> Seq<ResourceLogsModel> {
    v.map_values(|r: ResourceLogs| r@)
}

// ── Metrics ─────────────────────────────────────────────────────────

pub struct NumberPointModel {
    pub time_unix_nano: u64,
    pub value: Option<NumberValue>,
    pub attributes: Seq<AttributeModel>,
}

impl View for NumberPoint {
    type V = NumberPointModel;

    open spec fn view(&self) -> NumberPointModel {
        NumberPointModel {
            time_unix_nano: self.time_unix_nano,
            value: self.value,
            attributes: attribute_models(self.attributes@),
        }
    }
}

pub struct HistogramPointModel {
    pub time_unix_nano: u64,
    pub count: u64,
    pub sum: Option<u64>,
    pub bucket_counts: Seq<u64>,
    pub explicit_bounds: Seq<u64>,
    pub min: Option<u64>,
    pub max: Option<u64>,
    pub attributes: Seq<AttributeModel>,
}

impl View for HistogramPoint {
    type V = HistogramPointModel;

    open spec fn view(&self) -> HistogramPointModel {
        HistogramPointModel {
            time_unix_nano: self.time_unix_nano,
            count: self.count,
            sum: self.sum,
            bucket_counts: self.bucket_counts@,
            explicit_bounds: self.explicit_bounds@,
            min: self.min,
            max: self.max,
            attributes: attribute_models(self.attributes@),
        }
    }
}

pub struct SummaryPointModel {
    pub time_unix_nano: u64,
    pub sum: u64,
    pub attributes: Seq<AttributeModel>,
}

impl View for SummaryPoint {
    type V = SummaryPointModel;

    open spec fn view(&self) -> SummaryPointModel {
        SummaryPointModel {
            time_unix_nano: self.time_unix_nano,
            sum: self.sum,
            attributes: attribute_models(self.attributes@),
        }
    }
}

pub struct PositiveModel {
    pub offset: i32,
    pub counts: Seq<u64>,
    pub uppers: Seq<u64>,
}

impl View for PositiveBuckets {
    type V = PositiveModel;

    open spec fn view(&self) -> PositiveModel {
        PositiveModel { offset: self.offset, counts: self.counts@, uppers: self.uppers@ }
    }
}

pub struct ExponentialPointModel {
    pub time_unix_nano: u64,
    pub count: u64,
    pub sum: Option<u64>,
    pub scale: i32,
    pub zero_count: u64,
    pub positive: Option<PositiveModel>,
    pub negative_counts: Seq<u64>,
    pub min: Option<u64>,
    pub max: Option<u64>,
    pub attributes: Seq<AttributeModel>,
}

impl View for ExponentialPoint {
    type V = ExponentialPointModel;

    open spec fn view(&self) -> ExponentialPointModel {
        ExponentialPointModel {
            time_unix_nano: self.time_unix_nano,
            count: self.count,
            sum: self.sum,
            scale: self.scale,
            zero_count: self.zero_count,
            positive: match self.positive {
                Some(p) => Some(p@),
                None => None,
            },
            negative_counts: self.negative_counts@,
            min: self.min,
            max: self.max,
            attributes: attribute_models(self.attributes@),
        }
    }
}

pub enum DataModel {
    Gauge(Seq<NumberPointModel>),
    Sum(Seq<NumberPointModel>),
    Histogram { temporality: i32, points: Seq<HistogramPointModel> },
    Summary(Seq<SummaryPointModel>),
    Exponential { temporality: i32, points: Seq<ExponentialPointModel> },
}

impl View for MetricData {
    type V = DataModel;

    open spec fn view(&self) -> DataModel {
        match *self {
            MetricData::Gauge(points) => DataModel::Gauge(
                points@.map_values(|p: NumberPoint| p@),
            ),
            MetricData::Sum(points) => DataModel::Sum(points@.map_values(|p: NumberPoint| p@)),
            MetricData::Histogram { temporality, points } => DataModel::Histogram {
                temporality,
                points: points@.map_values(|p: HistogramPoint| p@),
            },
            MetricData::Summary(points) => DataModel::Summary(
                points@.map_values(|p: SummaryPoint| p@),
            ),
            MetricData::Exponential { temporality, points } => DataModel::Exponential {
                temporality,
                points: points@.map_values(|p: ExponentialPoint| p@),
            },
        }
    }
}

pub struct OtelMetricModel {
    pub name: Seq<char>,
    pub unit: Seq<char>,
    pub data: Option<DataModel>,
}

impl View for OtelMetric {
    type V = OtelMetricModel;

    open spec fn view(&self) -> OtelMetricModel {
        OtelMetricModel {
            name: self.name@,
            unit: self.unit@,
            data: match self.data {
                Some(d) => Some(d@),
                None => None,
            },
        }
    }
}

pub struct ResourceMetricsModel {
    pub resource: Option<Seq<AttributeModel>>,
    pub scopes: Seq<Seq<OtelMetricModel>>,
}

impl View for ResourceMetrics {
    type V = ResourceMetricsModel;

    open spec fn view(&self) -> ResourceMetricsModel {
        ResourceMetricsModel {
            resource: resource_model(self.resource),
            scopes: self.scope_metrics@.map_values(
                |s: ScopeMetrics| s.metrics@.map_values(|x: OtelMetric| x@),
            ),
        }
    }
}

pub open spec fn metrics_models(v: Seq<ResourceMetrics>) -> Seq<ResourceMetricsModel> {
    v.map_values(|r: ResourceMetrics| r@)
}

} // verus!
