use opentelemetry_proto::tonic::collector::logs::v1::ExportLogsServiceRequest;
use opentelemetry_proto::tonic::collector::metrics::v1::ExportMetricsServiceRequest;
use opentelemetry_proto::tonic::collector::trace::v1::ExportTraceServiceRequest;
use opentelemetry_proto::tonic::common::v1::{any_value, AnyValue, KeyValue};
use opentelemetry_proto::tonic::trace::v1::{ResourceSpans, ScopeSpans, Span};
use opentelemetry_proto::tonic::logs::v1::{LogRecord, ResourceLogs, ScopeLogs};
use opentelemetry_proto::tonic::metrics::v1::{Metric, ResourceMetrics, ScopeMetrics};
use opentelemetry_proto::tonic::resource::v1::Resource;
use tael_server::ingest::forward::{forward_auth, judge_answer, log_keys, metric_keys, shard_index, span_keys, split, split_keys, ForwardAuth, IngestOnlyStore, OtlpForwarder};
use tael_server::ingest::otlp_http::ServiceCode;
use tael_server::ingest::otlp_wire::{read_logs, read_metrics, read_traces};

fn kv(k: &str, v: &str) -> KeyValue {
    KeyValue {
        key: k.into(),
        value: Some(AnyValue {
            value: Some(any_value::Value::StringValue(v.into())),
        }),
        ..Default::default()
    }
}

fn trace_export(traces: &[&[u8; 16]]) -> ExportTraceServiceRequest {
    ExportTraceServiceRequest {
        resource_spans: vec![ResourceSpans {
            resource: Some(Resource {
                attributes: vec![kv("service.name", "api")],
                ..Default::default()
            }),
            scope_spans: vec![ScopeSpans {
                spans: traces
                    .iter()
                    .enumerate()
                    .map(|(i, tid)| Span {
                        trace_id: tid.to_vec(),
                        span_id: vec![i as u8 + 1; 8],
                        name: format!("op-{i}"),
                        ..Default::default()
                    })
                    .collect(),
                ..Default::default()
            }],
            ..Default::default()
        }],
    }
}

#[test]
fn split_traces_keeps_whole_traces_on_one_shard_and_loses_none() {
    let mut ids: Vec<[u8; 16]> = Vec::new();
    for i in 0..32u8 {
        ids.push([i; 16]);
    }
    let doubled: Vec<&[u8; 16]> = ids.iter().flat_map(|t| [t, t]).collect();
    let keys = span_keys(&read_traces(trace_export(&doubled)));
    assert_eq!(keys[0].len(), 64);
    let slices = split_keys(&keys, 3);
    assert_eq!(slices.len(), 3);

    let mut total = 0usize;
    for (shard, slice) in slices.iter().enumerate() {
        for scope in slice {
            for item in &scope.items {
                total += 1;
                assert_eq!(
                    shard_index(&keys[scope.scope][*item], 3),
                    shard,
                    "span landed on a shard the query fan-out would not look at first"
                );
                assert_eq!(keys[0][*item], keys[0][*item ^ 1]);
            }
        }
    }
    assert_eq!(
        total, 64,
        "no span may be dropped or duplicated by the split"
    );
}

#[test]
fn split_logs_routes_by_trace_then_service() {
    let req = ExportLogsServiceRequest {
        resource_logs: vec![ResourceLogs {
            resource: Some(Resource {
                attributes: vec![kv("service.name", "api")],
                ..Default::default()
            }),
            scope_logs: vec![ScopeLogs {
                log_records: vec![
                    LogRecord {
                        trace_id: vec![9u8; 16],
                        ..Default::default()
                    },
                    LogRecord::default(),
                ],
                ..Default::default()
            }],
            ..Default::default()
        }],
    };
    let keys = log_keys(&read_logs(req));
    assert_eq!(keys, vec![vec!["09".repeat(16), "api".to_string()]]);
    let slices = split_keys(&keys, 4);
    let with_trace = shard_index(&"09".repeat(16), 4);
    let orphan = shard_index("api", 4);
    for (shard, slice) in slices.iter().enumerate() {
        let records: usize = slice.iter().map(|s| s.items.len()).sum();
        let expected = usize::from(shard == with_trace) + usize::from(shard == orphan);
        assert_eq!(records, expected, "shard {shard}");
    }
}

#[test]
fn split_metrics_keeps_a_series_on_one_shard() {
    let metric = |name: &str| Metric {
        name: name.into(),
        ..Default::default()
    };
    let req = ExportMetricsServiceRequest {
        resource_metrics: vec![ResourceMetrics {
            scope_metrics: vec![ScopeMetrics {
                metrics: vec![metric("cpu"), metric("mem"), metric("cpu")],
                ..Default::default()
            }],
            ..Default::default()
        }],
    };
    let keys = metric_keys(&read_metrics(req));
    assert_eq!(keys[0].len(), 3);
    let slices = split_keys(&keys, 5);
    let cpu_shard = shard_index("cpu", 5);
    let cpu_count = slices[cpu_shard]
        .iter()
        .flat_map(|s| &s.items)
        .filter(|i| keys[0][**i] == "cpu")
        .count();
    assert_eq!(cpu_count, 2, "both cpu points must land on cpu's shard");
}

#[test]
fn a_scope_without_items_for_a_shard_is_left_out() {
    let slices = split(&vec![vec![0, 1], vec![], vec![1]], 3);
    assert_eq!(slices[0].len(), 1);
    assert_eq!(slices[1].len(), 2);
    assert_eq!((slices[1][1].scope, slices[1][1].items.clone()), (2, vec![0]));
    assert!(slices[2].is_empty());
}

#[test]
fn a_forwarder_needs_a_shard() {
    let err = OtlpForwarder::new(&vec![], &None).unwrap_err();
    assert!(err.message().contains("at least one shard"));
    let f = OtlpForwarder::new(&vec!["http://a/".to_string(), "http://b".to_string()], &Some(" k ".to_string()))
        .unwrap();
    assert_eq!(f.shard_count(), 2);
    assert_eq!(f.url(0, "/v1/traces"), "http://a/v1/traces");
    assert_eq!(f.auth(&None).as_deref(), Some("Bearer k"));
    assert_eq!(f.auth(&Some("Bearer own".to_string())).as_deref(), Some("Bearer own"));
    let kept = Some(ForwardAuth("Bearer http".to_string()));
    assert_eq!(forward_auth(&kept, &Some("x".to_string())).as_deref(), Some("Bearer http"));
    assert_eq!(forward_auth(&None, &Some("x".to_string())).as_deref(), Some("x"));
}

#[test]
fn a_shards_answer_is_judged_by_its_status() {
    assert!(judge_answer(200, "200 OK", "u", "").is_ok());
    assert!(judge_answer(299, "", "u", "").is_ok());
    let r = judge_answer(503, "503 Service Unavailable", "u", "full").unwrap_err();
    assert!(matches!(r.code, ServiceCode::ResourceExhausted));
    assert_eq!(r.message, "shard u at capacity: full; retry");
    let r = judge_answer(401, "", "u", "no").unwrap_err();
    assert!(matches!(r.code, ServiceCode::Unauthenticated));
    assert_eq!(r.message, "shard u: no");
    let r = judge_answer(500, "500 Oops", "u", "x").unwrap_err();
    assert_eq!(r.message, "shard u returned 500 Oops: x");
}

#[test]
fn an_ingest_only_node_is_ready_while_a_shard_is() {
    let store = IngestOnlyStore::new(vec!["a".to_string(), "b".to_string()]);
    assert!(store.message.contains("ingest-only"));
    assert!(store.health(&vec![false, true]).is_ok());
    assert_eq!(
        store.health(&vec![false, false]).unwrap_err(),
        "no reachable ingest shards (2 configured)"
    );
    assert!(IngestOnlyStore::with_message(vec![], "m".to_string()).health(&vec![]).is_ok());
}

#[test]
fn a_key_has_one_shard() {
    assert_eq!(shard_index("", 7), (0xcbf2_9ce4_8422_2325u64 % 7) as usize);
    assert_eq!(shard_index("a", 1 << 16), 0xaf63_dc4c_8601_ec8cusize % (1 << 16));
    assert!((0..50).all(|i| shard_index(&format!("trace-{i}"), 3) < 3));
}
