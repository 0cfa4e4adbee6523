use tael_server::alerts::{sink_env, AlertRule, AlertState, AlertStore, Sink};
use tael_server::api::params::AttributeFilters;
use tael_server::api::requests::{log_query, metric_query, trace_query, LogQueryParams, MetricQueryParams, TraceQueryParams};
use tael_server::api::wal::answer_status;
use tael_server::ingest::backpressure::{in_flight, Gate};
use tael_server::ingest::cardinality::SeriesGuard;
use tael_server::ingest::datadog::{traces_answer, TracesOutcome};
use tael_server::ingest::export::{close_batch, metric_batch, needs_commit, open_batch, seal_batch, settle_batch, Indexed, PayloadHashes};
use tael_server::ingest::otlp::{blob_value, convert_request, AnyValue, KeyValue, OtelSpan, ResourceSpans, ScopeSpans};
use tael_server::ingest::otlp_http::ServiceCode;
use tael_server::ingest::otlp_logs::LOG_BODY_BLOB_THRESHOLD;
use tael_server::ingest::otlp_metrics::{MetricData, NumberPoint, NumberValue, OtelMetric, ResourceMetrics, ScopeMetrics};
use tael_server::ingest::prom_remote_write::write_answer;
use tael_server::ingest::stats::{Pipeline, Stats};
use tael_server::labels::Labels;
use tael_server::promql::{parse, AggOp, CompareOp};
use tael_server::promql_eval::{compare, source, Distance, Series};
use tael_server::spans::{LogRecord, TenantStamp};
use tael_server::time::Timestamp;

fn at(secs: i64) -> Timestamp {
    Timestamp::new(secs, 0).unwrap()
}

fn stamp() -> Option<TenantStamp> {
    Some(TenantStamp {
        attribute: "tael.tenant".into(),
        tenant: "team-a".into(),
    })
}

#[test]
fn a_full_server_sheds_and_counts_it() {
    let mut gate = Gate::new(Some("1"));
    let mut stats = Stats::new();
    assert!(open_batch(&mut gate, &mut stats, Pipeline::OtlpSpans).is_ok());
    let refusal = open_batch(&mut gate, &mut stats, Pipeline::OtlpSpans).unwrap_err();
    assert!(matches!(refusal.code, ServiceCode::ResourceExhausted));
    assert_eq!(refusal.message, "ingest at capacity; retry with backoff");
    assert_eq!(in_flight(&gate), 1);
    let spans = &stats.snapshot()[0];
    assert_eq!((spans.batches, spans.errors, spans.shed), (0, 0, 1));
}

#[test]
fn a_batch_is_accepted_or_failed() {
    let mut stats = Stats::new();
    assert!(close_batch(&mut stats, Pipeline::OtlpLogs, 4, &Ok(())).is_ok());
    let refusal = close_batch(&mut stats, Pipeline::OtlpLogs, 4, &Err("disk full".into())).unwrap_err();
    assert!(matches!(refusal.code, ServiceCode::Internal));
    assert_eq!(refusal.message, "storage error: disk full");
    let logs = &stats.snapshot()[1];
    assert_eq!((logs.batches, logs.records, logs.errors, logs.shed), (1, 4, 1, 0));
}

fn attribute(k: &str, v: &str) -> KeyValue {
    KeyValue {
        key: k.into(),
        value: Some(AnyValue::Text(v.into())),
    }
}

#[test]
fn sealed_spans_carry_hashes_and_the_tenant() {
    let span = |attributes: Vec<KeyValue>| OtelSpan {
        trace_id: vec![1; 16],
        span_id: vec![2; 8],
        parent_span_id: vec![],
        name: "op".into(),
        kind: 1,
        start_time_unix_nano: 0,
        end_time_unix_nano: 1,
        attributes,
        events: vec![],
        status: None,
    };
    let drafts = convert_request(&vec![ResourceSpans {
        resource: None,
        scope_spans: vec![ScopeSpans {
            spans: vec![
                span(vec![attribute("gen_ai.system", "x"), attribute("gen_ai.prompt", "p")]),
                span(vec![attribute("tael.tenant", "team-b")]),
            ],
        }],
    }]);
    assert_eq!(blob_value(&drafts[0].prompt).map(String::as_str), Some("p"));
    assert_eq!(blob_value(&Some(String::new())), None);
    let hashes = vec![
        PayloadHashes {
            prompt: Some("abc".into()),
            completion: None,
        },
        PayloadHashes {
            prompt: None,
            completion: None,
        },
    ];
    let spans = seal_batch(drafts, &hashes, &stamp());
    assert_eq!(spans.len(), 2);
    assert_eq!(spans[0].service, "unknown");
    let llm = spans[0].llm.as_ref().unwrap();
    assert_eq!(llm.prompt_sha256.as_deref(), Some("abc"));
    for s in &spans {
        assert_eq!(s.attributes.get("tael.tenant").map(String::as_str), Some("team-a"));
    }
}

#[test]
fn an_index_is_committed_once_it_took_something_in() {
    let outcome = |payload, attributes, has_attributes| Indexed {
        payload,
        attributes,
        has_attributes,
    };
    assert!(!needs_commit(&vec![]));
    assert!(!needs_commit(&vec![outcome(None, true, false), outcome(Some(false), false, true)]));
    assert!(needs_commit(&vec![outcome(None, false, true), outcome(Some(true), false, true)]));
    assert!(needs_commit(&vec![outcome(None, true, true)]));
}

#[test]
fn large_bodies_leave_their_records() {
    let record = |body: String| LogRecord {
        timestamp: at(0),
        observed_timestamp: at(0),
        trace_id: Some("t".into()),
        span_id: None,
        severity: "info".into(),
        severity_text: "INFO".into(),
        body,
        service: "svc".into(),
        attributes: Labels::new(),
        body_sha256: None,
    };
    let big = "x".repeat(LOG_BODY_BLOB_THRESHOLD + 1);
    let (kept, bodies) = settle_batch(
        vec![record("small".into()), record(big.clone()), record(big.clone())],
        &vec![None, Some("h".into()), None],
    );
    assert_eq!(kept[0].body, "small");
    assert_eq!((kept[1].body.as_str(), kept[1].body_sha256.as_deref()), ("", Some("h")));
    assert_eq!(kept[2].body, big);
    assert_eq!(bodies, vec![(Some("t".to_string()), big)]);
}

#[test]
fn metric_points_are_capped_and_stamped() {
    let point = |k: &str| NumberPoint {
        time_unix_nano: 5,
        value: Some(NumberValue::Integer(1)),
        attributes: vec![attribute("k", k)],
    };
    let resources = vec![ResourceMetrics {
        resource: Some(vec![attribute("service.name", "api")]),
        scope_metrics: vec![ScopeMetrics {
            metrics: vec![OtelMetric {
                name: "m".into(),
                unit: "1".into(),
                data: Some(MetricData::Gauge(vec![point("a"), point("b"), point("a")])),
            }],
        }],
    }];
    let mut guard = SeriesGuard::new(Some("1"));
    let points = metric_batch(&resources, &mut guard, &stamp());
    assert_eq!(points.len(), 2);
    for p in &points {
        assert_eq!(p.attributes.get("k").map(String::as_str), Some("a"));
        assert_eq!(p.attributes.get("tael.tenant").map(String::as_str), Some("team-a"));
    }
}

#[test]
fn handlers_answer_with_a_status() {
    assert_eq!(traces_answer(&TracesOutcome::Empty).0, 200);
    let (status, body) = traces_answer(&TracesOutcome::Stored);
    assert_eq!(status, 200);
    let ack: serde_json::Value = serde_json::from_str(&body).unwrap();
    assert_eq!(ack["rate_by_service"]["service:,env:"], 1.0);
    assert_eq!(
        traces_answer(&TracesOutcome::Undecodable("bad".into())),
        (400, "trace decode error: bad".to_string())
    );
    assert_eq!(
        traces_answer(&TracesOutcome::NotStored("full".into())),
        (500, "storage error: full".to_string())
    );
    assert_eq!(write_answer(&Ok(())), (204, String::new()));
    assert_eq!(write_answer(&Err("x".into())), (400, "remote-write error: x".to_string()));
    assert_eq!(answer_status(true, false), 409);
    assert_eq!(answer_status(false, true), 202);
    assert_eq!(answer_status(false, false), 422);
}

#[test]
fn requests_become_queries() {
    let q = trace_query(
        TraceQueryParams {
            service: Some("api".into()),
            operation: None,
            min_duration_ms: Some("1.5".into()),
            max_duration_ms: None,
            status: None,
            last: Some("5m".into()),
            limit: Some(7),
            text: Some("why".into()),
        },
        AttributeFilters {
            exact: vec![("a".into(), "b".into())],
            contains: vec![],
            regex: vec![],
        },
        Some("team-a".into()),
    );
    assert_eq!(q.service.as_deref(), Some("api"));
    assert_eq!(q.last_seconds, Some(300));
    assert_eq!(q.attributes.len(), 1);
    assert_eq!(q.tenant.as_deref(), Some("team-a"));
    let q = log_query(LogQueryParams {
        service: None,
        severity: Some("error".into()),
        body_contains: None,
        trace_id: None,
        last: Some("soon".into()),
        limit: None,
    });
    assert_eq!((q.severity.as_deref(), q.last_seconds), (Some("error"), None));
    let q = metric_query(MetricQueryParams {
        service: None,
        name: Some("m".into()),
        metric_type: None,
        last: Some("1h".into()),
        limit: Some(1),
    });
    assert_eq!((q.name.as_deref(), q.last_seconds), (Some("m"), Some(3600)));
}

#[test]
fn an_expression_needs_one_query() {
    let e = parse("sum by (service) (rate(http_requests{code=\"500\"}[1m])) > 5").unwrap();
    let (query, selector) = source(&e, 300);
    assert_eq!(query.name.as_deref(), Some("http_requests"));
    assert_eq!(query.last_seconds, Some(60));
    assert_eq!(selector.matchers.len(), 1);
    let e = parse("max(m)").unwrap();
    assert_eq!(source(&e, 300).0.last_seconds, Some(300));
}

fn series(value: f64) -> Series {
    Series {
        metric: "m".into(),
        labels: Labels::new(),
        value: value.to_bits(),
        timestamp: at(0),
    }
}

fn distance(value: f64, threshold: f64) -> Distance {
    let d = (value - threshold).abs();
    if d < f64::EPSILON {
        Distance::Near
    } else if d >= f64::EPSILON {
        Distance::Far
    } else {
        Distance::Undefined
    }
}

#[test]
fn comparisons_agree_with_those_of_doubles() {
    let values = [0.0, -0.0, 1.0, -1.5, 1e300, f64::INFINITY, f64::NEG_INFINITY, f64::NAN, 1.0 + f64::EPSILON];
    for v in values {
        for t in values {
            let d = distance(v, t);
            let test = |op: CompareOp| op.test(v.to_bits(), t.to_bits(), d);
            assert_eq!(test(CompareOp::Gt), v > t, "{v} {t}");
            assert_eq!(test(CompareOp::Gte), v >= t, "{v} {t}");
            assert_eq!(test(CompareOp::Lt), v < t, "{v} {t}");
            assert_eq!(test(CompareOp::Lte), v <= t, "{v} {t}");
            assert_eq!(test(CompareOp::Eq), (v - t).abs() < f64::EPSILON, "{v} {t}");
            assert_eq!(test(CompareOp::NotEq), (v - t).abs() >= f64::EPSILON, "{v} {t}");
        }
    }
    let input = vec![series(1.0), series(5.0), series(f64::NAN), series(7.0)];
    let distances = input.iter().map(|s| distance(f64::from_bits(s.value), 4.0)).collect();
    let kept = compare(input, CompareOp::Gt, 4.0f64.to_bits(), &distances);
    let kept: Vec<f64> = kept.iter().map(|s| f64::from_bits(s.value)).collect();
    assert_eq!(kept, vec![5.0, 7.0]);
}

#[test]
fn aggregators_fold_their_values() {
    let bits = |v: &[f64]| v.iter().map(|x| x.to_bits()).collect::<Vec<u64>>();
    let apply = |op: AggOp, v: &[f64]| {
        let sum: f64 = v.iter().sum();
        let mean = sum / v.len() as f64;
        f64::from_bits(op.apply(&bits(v), sum.to_bits(), mean.to_bits()))
    };
    assert_eq!(apply(AggOp::Sum, &[1.0, 2.0]), 3.0);
    assert_eq!(apply(AggOp::Avg, &[1.0, 2.0]), 1.5);
    assert_eq!(apply(AggOp::Min, &[3.0, f64::NAN, -2.0]), -2.0);
    assert_eq!(apply(AggOp::Max, &[3.0, f64::NAN, -2.0]), 3.0);
    assert_eq!(apply(AggOp::Count, &[3.0, f64::NAN, -2.0]), 3.0);
    assert_eq!(apply(AggOp::Min, &[f64::NAN]), f64::INFINITY);
    assert!(apply(AggOp::Sum, &[]).is_nan());
}

#[test]
fn an_event_goes_to_the_sinks_of_its_rule() {
    let rule = AlertRule {
        name: "a".into(),
        query: "m > 1".into(),
        for_seconds: 0,
        window_seconds: 300,
        sinks: vec![Sink::parse("exec=true").unwrap()],
        description: None,
        created_at: at(0),
    };
    let mut store = AlertStore::open(vec![rule]);
    assert_eq!(store.sinks_of("a").unwrap().len(), 1);
    assert!(store.sinks_of("b").is_none());
    store.delete("a");
    assert!(store.sinks_of("a").is_none());
    let env = sink_env("a", AlertState::Firing, "{}");
    assert_eq!(env[1], ("TAEL_ALERT_STATE".to_string(), "firing".to_string()));
    assert_eq!(AlertState::Okay.as_str(), "ok");
}
