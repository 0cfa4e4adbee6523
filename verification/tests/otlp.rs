use std::io::Write;

use opentelemetry_proto::tonic::collector::logs::v1::ExportLogsServiceRequest;
use opentelemetry_proto::tonic::collector::metrics::v1::ExportMetricsServiceRequest;
use opentelemetry_proto::tonic::collector::trace::v1::ExportTraceServiceRequest;
use opentelemetry_proto::tonic::common::v1::{any_value, AnyValue, KeyValue};
use opentelemetry_proto::tonic::logs::v1::{LogRecord, ResourceLogs, ScopeLogs};
use opentelemetry_proto::tonic::metrics::v1::{metric, number_data_point, ExponentialHistogram, ExponentialHistogramDataPoint, Gauge, Histogram, HistogramDataPoint, Metric, NumberDataPoint, ResourceMetrics, ScopeMetrics, Sum, Summary, SummaryDataPoint};
use opentelemetry_proto::tonic::metrics::v1::exponential_histogram_data_point::Buckets;
use opentelemetry_proto::tonic::resource::v1::Resource;
use opentelemetry_proto::tonic::trace::v1::{ResourceSpans, ScopeSpans, Span, Status};
use prost::Message;
use tael_server::ingest::otlp::{convert_request, map_span_kind, seal, search_text};
use tael_server::ingest::otlp_http::{encoding_of, export_failed, logs_request, metrics_request, read_body, trace_request, Encoding, ServiceCode};
use tael_server::ingest::otlp_logs;
use tael_server::ingest::otlp_metrics;
use tael_server::ingest::otlp_wire::{decode_traces, read_logs, read_metrics, read_traces};
use tael_server::ingest::prom_remote_write;
use tael_server::labels::Labels;
use tael_server::metrics::{MetricType, Temporality};
use tael_server::spans::{extract_llm_span, LlmOperation, SpanDuration, SpanKind, SpanStatus, TenantStamp};

fn attrs(pairs: &[(&str, &str)]) -> Labels {
    let mut l = Labels::new();
    for (k, v) in pairs {
        l.insert(k.to_string(), v.to_string());
    }
    l
}

fn kv(k: &str, v: &str) -> KeyValue {
    KeyValue {
        key: k.into(),
        value: Some(AnyValue {
            value: Some(any_value::Value::StringValue(v.into())),
        }),
        ..Default::default()
    }
}

fn export_request(extra: &[(&str, &str)]) -> ExportTraceServiceRequest {
    ExportTraceServiceRequest {
        resource_spans: vec![ResourceSpans {
            resource: Some(Resource {
                attributes: vec![kv("service.name", "api")],
                ..Default::default()
            }),
            scope_spans: vec![ScopeSpans {
                spans: vec![Span {
                    trace_id: vec![7u8; 16],
                    span_id: vec![8u8; 8],
                    name: "op".into(),
                    start_time_unix_nano: 1_700_000_000_000_000_000,
                    end_time_unix_nano: 1_700_000_000_001_000_000,
                    attributes: extra.iter().map(|(k, v)| kv(k, v)).collect(),
                    ..Default::default()
                }],
                ..Default::default()
            }],
            ..Default::default()
        }],
    }
}

#[test]
fn non_llm_span_has_no_extension() {
    let a = attrs(&[("http.method", "GET")]);
    assert!(extract_llm_span(&a).is_none());
}

#[test]
fn maps_genai_attributes_to_typed_fields() {
    let a = attrs(&[
        ("gen_ai.system", "anthropic"),
        ("gen_ai.request.model", "model-4-7"),
        ("gen_ai.operation.name", "chat"),
        ("gen_ai.usage.input_tokens", "1200"),
        ("gen_ai.usage.output_tokens", "340"),
        ("gen_ai.usage.cost", "0.0185"),
        ("gen_ai.request.temperature", "0.7"),
        ("gen_ai.response.finish_reasons", "end_turn"),
    ]);
    let llm = extract_llm_span(&a).expect("should detect LLM span");
    assert_eq!(llm.provider, "anthropic");
    assert_eq!(llm.model, "model-4-7");
    assert!(matches!(llm.operation, LlmOperation::Chat));
    assert_eq!(llm.input_tokens, Some(1200));
    assert_eq!(llm.output_tokens, Some(340));
    assert_eq!(llm.total_tokens, Some(1540));
    assert_eq!(llm.cost_usd.unwrap().parse::<f64>(), Ok(0.0185));
    assert_eq!(llm.temperature.unwrap().parse::<f64>(), Ok(0.7));
    assert_eq!(llm.finish_reason.as_deref(), Some("end_turn"));
}

#[test]
fn detects_llm_span_from_model_alone() {
    let a = attrs(&[("gen_ai.response.model", "gpt-4o")]);
    let llm = extract_llm_span(&a).expect("model alone is enough");
    assert_eq!(llm.model, "gpt-4o");
    assert!(llm.provider.is_empty());
}

#[test]
fn the_server_stamp_overrides_a_forged_client_tenant() {
    let attribute = "tael.tenant";
    let stamp = Some(TenantStamp {
        attribute: attribute.to_string(),
        tenant: "team-a".to_string(),
    });
    let resources = read_traces(export_request(&[(attribute, "team-b")]));
    let mut drafts = convert_request(&resources);
    assert_eq!(drafts.len(), 1);
    let span = seal(drafts.remove(0), None, None, &stamp);
    assert_eq!(
        span.attributes.get(attribute).map(String::as_str),
        Some("team-a"),
        "the writer's tenant must override the forged attribute"
    );

    let mut drafts = convert_request(&read_traces(export_request(&[])));
    let span = seal(drafts.remove(0), None, None, &None);
    assert!(span.attributes.get(attribute).is_none());
}

#[test]
fn a_span_is_read_and_converted() {
    let mut request = export_request(&[("k", "v")]);
    let span = &mut request.resource_spans[0].scope_spans[0].spans[0];
    span.kind = 2;
    span.status = Some(Status {
        code: 2,
        ..Default::default()
    });
    let drafts = convert_request(&read_traces(request));
    let span = &drafts[0].span;
    assert_eq!(span.trace_id, "07".repeat(16));
    assert_eq!(span.span_id, "08".repeat(8));
    assert_eq!(span.parent_span_id, None);
    assert_eq!(span.service, "api");
    assert_eq!(span.operation, "op");
    assert_eq!(span.kind, SpanKind::Server);
    assert_eq!(span.status, SpanStatus::Error);
    assert_eq!(span.start_time.seconds(), 1_700_000_000);
    assert_eq!(
        span.duration,
        SpanDuration::Between {
            start: 1_700_000_000_000_000_000,
            end: 1_700_000_000_001_000_000
        }
    );
    assert_eq!(span.attributes.get("k").map(String::as_str), Some("v"));
    assert_eq!(map_span_kind(3), SpanKind::Client);
    assert_eq!(map_span_kind(99), SpanKind::Internal);
}

#[test]
fn payloads_are_searched_for_by_their_text() {
    let drafts = convert_request(&read_traces(export_request(&[
        ("gen_ai.system", "openai"),
        ("gen_ai.prompt", "why"),
        ("gen_ai.completion", "because"),
    ])));
    assert_eq!(search_text(&drafts[0]).as_deref(), Some("why because"));
    assert!(drafts[0].span.attributes.get("gen_ai.prompt").is_none());
    let drafts = convert_request(&read_traces(export_request(&[])));
    assert_eq!(search_text(&drafts[0]), None);
}

#[test]
fn protobuf_traces_are_ingested_and_acked() {
    let body = export_request(&[]).encode_to_vec();
    let request = trace_request(&Some("application/x-protobuf".to_string()), &None, body).unwrap();
    assert_eq!(convert_request(&read_traces(request)).len(), 1);
}

fn gzip(data: &[u8]) -> Vec<u8> {
    let mut encoder = flate2::write::GzEncoder::new(Vec::new(), flate2::Compression::default());
    encoder.write_all(data).unwrap();
    encoder.finish().unwrap()
}

#[test]
fn gzip_encoded_bodies_are_decompressed() {
    let plain = export_request(&[]).encode_to_vec();
    let request = trace_request(
        &Some("application/x-protobuf".to_string()),
        &Some("gzip".to_string()),
        gzip(&plain),
    )
    .unwrap();
    assert_eq!(request.encode_to_vec(), plain);
}

#[test]
fn json_requests_report_the_supported_content_type() {
    let e = trace_request(&Some("application/json".to_string()), &None, b"{}".to_vec()).unwrap_err();
    assert_eq!(e.status, 415);
    assert!(
        e.message.contains("x-protobuf"),
        "error should name the supported content type: {}",
        e.message
    );
}

#[test]
fn malformed_protobuf_is_a_client_error() {
    let body = vec![0xff, 0xff, 0xff, 0xff];
    let ty = Some("application/x-protobuf".to_string());
    assert_eq!(metrics_request(&ty, &None, body.clone()).unwrap_err().status, 400);
    assert_eq!(logs_request(&ty, &None, body.clone()).unwrap_err().status, 400);
    assert_eq!(trace_request(&ty, &None, body.clone()).unwrap_err().status, 400);
    assert!(decode_traces(&body).is_err());
}

#[test]
fn bodies_that_do_not_unpack_are_client_errors() {
    let ty = Some("application/x-protobuf".to_string());
    let e = read_body(&ty, &Some("gzip".to_string()), b"not gzip".to_vec()).unwrap_err();
    assert_eq!(e.status, 400);
    let e = read_body(&ty, &Some("br".to_string()), b"x".to_vec()).unwrap_err();
    assert!(e.status >= 400);
    assert_eq!(read_body(&ty, &None, b"x".to_vec()).unwrap(), b"x".to_vec());
    assert!(matches!(encoding_of(&Some("gzip".to_string())), Encoding::Gzip));
    assert!(matches!(encoding_of(&None), Encoding::Identity));
    assert!(matches!(encoding_of(&Some("br".to_string())), Encoding::Unsupported));
}

#[test]
fn a_refused_export_has_a_status() {
    let e = export_failed(ServiceCode::ResourceExhausted, "full".to_string());
    assert_eq!((e.status, e.message.as_str()), (429, "full"));
    assert_eq!(export_failed(ServiceCode::Unavailable, String::new()).status, 503);
    let statuses: Vec<u16> = [
        ServiceCode::InvalidArgument,
        ServiceCode::Unauthenticated,
        ServiceCode::PermissionDenied,
        ServiceCode::Internal,
    ]
    .into_iter()
    .map(|c| export_failed(c, String::new()).status)
    .collect();
    assert_eq!(statuses[0], 400);
    assert!(statuses.iter().all(|s| *s >= 400));
}

fn log(body: &str, trace: &[u8]) -> LogRecord {
    LogRecord {
        time_unix_nano: 1_700_000_000_000_000_001,
        severity_number: 17,
        severity_text: "ERROR".into(),
        body: Some(AnyValue {
            value: Some(any_value::Value::StringValue(body.into())),
        }),
        trace_id: trace.to_vec(),
        ..Default::default()
    }
}

fn logs_export(records: Vec<LogRecord>) -> ExportLogsServiceRequest {
    ExportLogsServiceRequest {
        resource_logs: vec![ResourceLogs {
            resource: Some(Resource {
                attributes: vec![kv("service.name", "api")],
                ..Default::default()
            }),
            scope_logs: vec![ScopeLogs {
                log_records: records,
                ..Default::default()
            }],
            ..Default::default()
        }],
    }
}

#[test]
fn a_log_record_is_read_and_converted() {
    let resources = read_logs(logs_export(vec![log("boom", &[9u8; 16]), log("  ", &[])]));
    assert_eq!(resources[0].scope_logs[0].log_records[0].severity_number, 17);
    let logs = otlp_logs::convert_request(&resources);
    assert_eq!(logs.len(), 2);
    assert_eq!(logs[0].service, "api");
    assert_eq!(logs[0].body, "boom");
    assert_eq!((logs[0].severity.as_str(), logs[0].severity_text.as_str()), ("error", "ERROR"));
    let names: Vec<&str> = [0, 1, 8, 9, 16, 20, 24, 25]
        .into_iter()
        .map(otlp_logs::severity_name)
        .collect();
    assert_eq!(
        names,
        ["unspecified", "trace", "debug", "info", "warn", "error", "fatal", "unspecified"]
    );
    assert_eq!(logs[0].trace_id.as_deref(), Some("09".repeat(16).as_str()));
    assert_eq!(logs[1].trace_id, None);
    assert_eq!(logs[0].timestamp.subsec_nanos(), 1);
    let entries = otlp_logs::search_entries(&logs, &vec![(Some("t".to_string()), "big".to_string())]);
    assert_eq!(
        entries,
        vec![
            ("09".repeat(16), "boom".to_string()),
            ("t".to_string(), "big".to_string())
        ]
    );
}

#[test]
fn a_large_body_is_offloaded() {
    let big = "x".repeat(otlp_logs::LOG_BODY_BLOB_THRESHOLD + 1);
    assert!(otlp_logs::oversized(&big));
    assert!(!otlp_logs::oversized("small"));
    let mut logs = otlp_logs::convert_request(&read_logs(logs_export(vec![log(&big, &[9u8; 16])])));
    let (record, body) = otlp_logs::settle(logs.remove(0), Some("abc".to_string()));
    assert_eq!(record.body_sha256.as_deref(), Some("abc"));
    assert_eq!(body.as_deref(), Some(big.as_str()));
    assert!(record.body.len() < big.len());
    let stamp = Some(TenantStamp {
        attribute: "tael.tenant".to_string(),
        tenant: "team-a".to_string(),
    });
    let stamped = otlp_logs::stamp_logs(vec![record], &stamp);
    assert_eq!(
        stamped[0].attributes.get("tael.tenant").map(String::as_str),
        Some("team-a")
    );
}

fn metric_of(name: &str, data: metric::Data) -> Metric {
    Metric {
        name: name.into(),
        unit: "1".into(),
        data: Some(data),
        ..Default::default()
    }
}

fn metrics_export(metrics: Vec<Metric>) -> ExportMetricsServiceRequest {
    ExportMetricsServiceRequest {
        resource_metrics: vec![ResourceMetrics {
            resource: Some(Resource {
                attributes: vec![kv("service.name", "api")],
                ..Default::default()
            }),
            scope_metrics: vec![ScopeMetrics {
                metrics,
                ..Default::default()
            }],
            ..Default::default()
        }],
    }
}

#[test]
fn metric_points_are_read_and_converted() {
    let number = |v: number_data_point::Value| NumberDataPoint {
        time_unix_nano: 1_000_000_000,
        value: Some(v),
        attributes: vec![kv("k", "v")],
        ..Default::default()
    };
    let export = metrics_export(vec![
        metric_of(
            "g",
            metric::Data::Gauge(Gauge {
                data_points: vec![number(number_data_point::Value::AsDouble(1.5))],
            }),
        ),
        metric_of(
            "s",
            metric::Data::Sum(Sum {
                data_points: vec![number(number_data_point::Value::AsInt(-3))],
                ..Default::default()
            }),
        ),
        metric_of(
            "h",
            metric::Data::Histogram(Histogram {
                data_points: vec![HistogramDataPoint {
                    count: 3,
                    sum: Some(4.5),
                    bucket_counts: vec![1, 2],
                    explicit_bounds: vec![2.0],
                    ..Default::default()
                }],
                aggregation_temporality: 1,
            }),
        ),
        metric_of(
            "q",
            metric::Data::Summary(Summary {
                data_points: vec![SummaryDataPoint {
                    sum: 7.0,
                    ..Default::default()
                }],
            }),
        ),
    ]);
    let points = otlp_metrics::convert_request(&read_metrics(export));
    assert_eq!(points.len(), 4);
    assert_eq!(points[0].metric_type, MetricType::Gauge);
    assert_eq!(f64::from_bits(points[0].value), 1.5);
    assert_eq!(points[0].service, "api");
    assert_eq!(points[0].unit, "1");
    assert_eq!(points[0].attributes.get("k").map(String::as_str), Some("v"));
    assert_eq!(points[1].metric_type, MetricType::Sum);
    assert_eq!(f64::from_bits(points[1].value), -3.0);
    assert_eq!(points[2].metric_type, MetricType::Histogram);
    let h = points[2].histogram.as_ref().unwrap();
    assert_eq!(h.counts, vec![1, 2]);
    assert_eq!(h.bounds, vec![2.0f64.to_bits()]);
    assert_eq!(h.temporality, Temporality::Delta);
    assert_eq!(f64::from_bits(h.sum), 4.5);
    assert_eq!(points[3].metric_type, MetricType::Summary);
    assert_eq!(f64::from_bits(points[3].value), 7.0);
}

#[test]
fn exponential_buckets_become_explicit_ones() {
    let export = metrics_export(vec![metric_of(
        "e",
        metric::Data::ExponentialHistogram(ExponentialHistogram {
            data_points: vec![ExponentialHistogramDataPoint {
                count: 6,
                sum: Some(10.0),
                scale: 0,
                zero_count: 1,
                positive: Some(Buckets {
                    offset: 0,
                    bucket_counts: vec![2, 3],
                }),
                ..Default::default()
            }],
            aggregation_temporality: 2,
        }),
    )]);
    let mut resources = read_metrics(export);
    let data = resources[0].scope_metrics[0].metrics[0].data.as_mut().unwrap();
    if let otlp_metrics::MetricData::Exponential { points, .. } = data {
        let p = &mut points[0];
        let positive = p.positive.as_mut().unwrap();
        let base: f64 = 2f64.powf(2f64.powi(-p.scale));
        positive.uppers = otlp_metrics::exponents(positive.offset, positive.counts.len())
            .into_iter()
            .map(|e| base.powf(e as f64).to_bits())
            .collect();
    }
    let points = otlp_metrics::convert_request(&resources);
    let h = points[0].histogram.as_ref().unwrap();
    assert_eq!(h.counts, vec![1, 2, 3, 0]);
    assert_eq!(
        h.bounds,
        vec![0.0f64.to_bits(), 2.0f64.to_bits(), 4.0f64.to_bits()]
    );
    assert_eq!(h.temporality, Temporality::Cumulative);
}

#[test]
fn integers_become_doubles() {
    for n in [0i64, 1, -1, 7, 1 << 53, (1 << 53) + 1, i64::MAX, i64::MIN] {
        let bits = otlp_metrics::bits_of(otlp_metrics::NumberValue::Integer(n));
        assert_eq!(f64::from_bits(bits), n as f64, "{n}");
    }
}

#[test]
fn remote_write_series_become_points() {
    let label = |n: &str, v: &str| prom_remote_write::Label {
        name: n.to_string(),
        value: v.to_string(),
    };
    let sample = |v: f64| prom_remote_write::Sample {
        value: v.to_bits(),
        timestamp: 1_700_000_000_500,
    };
    let req = prom_remote_write::WriteRequest {
        timeseries: vec![
            prom_remote_write::TimeSeries {
                labels: vec![label("__name__", "up"), label("job", "api"), label("zone", "a")],
                samples: vec![sample(1.0), sample(f64::NAN), sample(0.0)],
            },
            prom_remote_write::TimeSeries {
                labels: vec![label("job", "nameless")],
                samples: vec![sample(1.0)],
            },
            prom_remote_write::TimeSeries {
                labels: vec![label("__name__", "up"), label("service.name", "unknown"), label("job", "api")],
                samples: vec![sample(1.0)],
            },
        ],
    };
    let points = prom_remote_write::convert_request(&req);
    assert_eq!(points.len(), 3);
    assert_eq!(points[2].service, "unknown");
    assert_eq!(points[2].attributes.get("job").map(String::as_str), Some("api"));
    assert_eq!(points[0].name, "up");
    assert_eq!(points[0].service, "api");
    assert_eq!(points[0].attributes.get("zone").map(String::as_str), Some("a"));
    assert!(points[0].attributes.get("job").is_none());
    assert_eq!(points[0].timestamp.millis(), 1_700_000_000_500);
    assert_eq!(f64::from_bits(points[1].value), 0.0);
}

#[test]
fn remote_write_bodies_are_snappy() {
    let packed = snap::raw::Encoder::new().compress_vec(b"hello hello hello").unwrap();
    assert_eq!(
        prom_remote_write::decompress_body(&packed).as_deref(),
        Some(&b"hello hello hello"[..])
    );
    assert_eq!(prom_remote_write::decompress_body(&vec![0xff; 8]), None);
}

#[test]
fn stored_names_are_read_back() {
    for status in [SpanStatus::Unset, SpanStatus::Okay, SpanStatus::Error] {
        assert_eq!(SpanStatus::named(status.as_str()), status);
    }
    for kind in [SpanKind::Internal, SpanKind::Server, SpanKind::Client, SpanKind::Producer, SpanKind::Consumer, SpanKind::Llm] {
        assert_eq!(SpanKind::named(kind.as_str()), kind);
    }
    assert_eq!((SpanStatus::Okay.as_str(), SpanKind::Llm.as_str()), ("ok", "llm"));
    assert_eq!((SpanStatus::named("fine"), SpanKind::named("other")), (SpanStatus::Unset, SpanKind::Internal));
}
