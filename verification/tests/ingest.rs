use tael_server::ingest::backpressure::{in_flight, max_in_flight, release, try_acquire, Gate, Permit};
use tael_server::ingest::cardinality::{admit_points, dropped_points, series_identity, series_limit, tracked_series, SeriesGuard};
use tael_server::ingest::stats::{Counter, Pipeline, Stats};
use tael_server::labels::Labels;
use tael_server::metrics::{MetricPoint, MetricType};
use tael_server::time::Timestamp;

#[test]
fn permits_release_on_drop() {
    let mut gate = Gate::new(None);
    let before = in_flight(&gate);
    {
        let permits: Vec<Permit> = (0..3).filter_map(|_| try_acquire(&mut gate)).collect();
        assert!(in_flight(&gate) >= before);
        for permit in permits {
            release(&mut gate, permit);
        }
    }
    assert_eq!(in_flight(&gate), before);
}

#[test]
fn a_full_gate_sheds() {
    let mut gate = Gate::new(Some("2"));
    assert_eq!(max_in_flight(&gate), 2);
    let a = try_acquire(&mut gate).unwrap();
    let _b = try_acquire(&mut gate).unwrap();
    assert!(try_acquire(&mut gate).is_none());
    assert_eq!(in_flight(&gate), 2);
    release(&mut gate, a);
    assert!(try_acquire(&mut gate).is_some());
}

#[test]
fn a_gate_without_a_cap_counts_nothing() {
    let mut gate = Gate::new(Some("0"));
    assert_eq!(max_in_flight(&gate), 0);
    assert!(try_acquire(&mut gate).is_some());
    assert_eq!(in_flight(&gate), 0);
}

#[test]
fn a_cap_that_is_no_number_is_the_default() {
    assert_eq!(max_in_flight(&Gate::new(Some("many"))), max_in_flight(&Gate::new(None)));
}

fn point(name: &str, label: &str) -> MetricPoint {
    let mut attributes = Labels::new();
    attributes.insert("k".to_string(), label.to_string());
    MetricPoint {
        timestamp: Timestamp::new(1_700_000_000, 0).unwrap(),
        service: "svc".into(),
        name: name.into(),
        metric_type: MetricType::Gauge,
        value: 1.0f64.to_bits(),
        unit: String::new(),
        attributes,
        histogram: None,
    }
}

#[test]
fn same_series_hashes_equal_and_label_order_is_irrelevant() {
    let mut a = point("m", "v");
    a.attributes.insert("z".into(), "1".into());
    let mut b = point("m", "v");
    b.attributes.insert("z".into(), "1".into());
    assert_eq!(series_identity(&a), series_identity(&b));
    assert_ne!(series_identity(&a), series_identity(&point("m", "other")));
    assert_ne!(series_identity(&point("m", "v")), series_identity(&point("n", "v")));
}

#[test]
fn insertion_order_does_not_show() {
    let mut a = Labels::new();
    a.insert("x".into(), "1".into());
    a.insert("a".into(), "2".into());
    let mut b = Labels::new();
    b.insert("a".into(), "2".into());
    b.insert("x".into(), "1".into());
    assert_eq!(a.names(), b.names());
    assert_eq!(a.names(), vec!["a".to_string(), "x".to_string()]);
    let mut p = point("m", "v");
    let mut q = point("m", "v");
    p.attributes = a;
    q.attributes = b;
    assert_eq!(series_identity(&p), series_identity(&q));
}

#[test]
fn new_series_are_dropped_at_the_cap_and_known_ones_pass() {
    let mut guard = SeriesGuard::new(Some("2"));
    assert_eq!(series_limit(&guard), 2);
    let mut points = vec![point("m", "a"), point("m", "b"), point("m", "c"), point("m", "a")];
    assert_eq!(admit_points(&mut guard, &mut points), 1);
    assert_eq!(points.len(), 3);
    assert_eq!(tracked_series(&guard), 2);
    assert_eq!(dropped_points(&guard), 1);
    let mut again = vec![point("m", "b"), point("m", "d")];
    assert_eq!(admit_points(&mut guard, &mut again), 1);
    assert_eq!(again.len(), 1);
    assert_eq!(again[0].attributes.get("k").map(|s| s.as_str()), Some("b"));
    assert_eq!(dropped_points(&guard), 2);
}

#[test]
fn without_a_cap_everything_passes() {
    let mut guard = SeriesGuard::new(Some("0"));
    let mut points = vec![point("m", "a"), point("m", "b")];
    assert_eq!(admit_points(&mut guard, &mut points), 0);
    assert_eq!(points.len(), 2);
    assert_eq!(tracked_series(&guard), 0);
}

#[test]
fn accepted_batches_accumulate_and_stamp_a_time() {
    let mut stats = Stats::new();
    stats.record_accepted(Pipeline::Datadog, 7);
    stats.record_accepted(Pipeline::Datadog, 3);
    stats.record_error(Pipeline::Datadog);
    let dd = stats
        .snapshot()
        .into_iter()
        .find(|p| p.pipeline == "datadog")
        .unwrap();
    assert!(dd.batches >= 2);
    assert!(dd.records >= 10);
    assert!(dd.errors >= 1);
    assert!(dd.last_accepted_at.is_some());
}

#[test]
fn untouched_counters_report_no_last_accepted_time() {
    let c = Counter::new();
    let s = c.status("fresh");
    assert_eq!(s.batches, 0);
    assert_eq!(s.last_accepted_at, None);
}

#[test]
fn counts_are_kept_by_pipeline() {
    let mut stats = Stats::new();
    stats.record_accepted_at(Pipeline::OtlpLogs, 5, 1_700_000_000_123);
    stats.record_shed(Pipeline::OtlpMetrics);
    let all = stats.snapshot();
    let names: Vec<&str> = all.iter().map(|s| s.pipeline).collect();
    assert_eq!(
        names,
        vec!["otlp_spans", "otlp_logs", "otlp_metrics", "remote_write", "datadog"]
    );
    assert_eq!(all[1].records, 5);
    assert_eq!(
        all[1].last_accepted_at.as_deref(),
        Some("2023-11-14T22:13:20.123+00:00")
    );
    assert_eq!(all[2].shed, 1);
    assert_eq!(all[0].batches, 0);
}
