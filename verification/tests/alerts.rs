use tael_server::alerts::{default_window_seconds, matched_series, span_derived_points, AlertRule, AlertState, AlertStore, MatchedSeries, Sink, SpanFigures, RECENT_EVENT_CAPACITY};
use tael_server::labels::Labels;
use tael_server::promql_eval::Series;
use tael_server::time::Timestamp;

const NOW: i64 = 1_700_000_000;

fn at(offset: i64) -> Timestamp {
    Timestamp::new(NOW + offset, 0).unwrap()
}

fn rule(name: &str, query: &str, for_seconds: i64) -> AlertRule {
    AlertRule {
        name: name.into(),
        query: query.into(),
        for_seconds,
        window_seconds: 300,
        sinks: Vec::new(),
        description: None,
        created_at: at(0),
    }
}

fn series(value: f64) -> Series {
    Series {
        metric: "queue_depth".into(),
        labels: Labels::new(),
        value: value.to_bits(),
        timestamp: at(0),
    }
}

/// What a rule that compares with `> threshold` matches.
fn above(values: &[f64], threshold: f64) -> Vec<Option<Vec<MatchedSeries>>> {
    let hits = values.iter().filter(|v| **v > threshold).map(|v| series(*v)).collect();
    vec![Some(matched_series(hits))]
}

#[test]
fn sinks_parse_their_specification() {
    assert_eq!(
        Sink::parse("webhook=https://example.test/hook").unwrap(),
        Sink::Webhook {
            url: "https://example.test/hook".into()
        }
    );
    assert_eq!(
        Sink::parse("exec=notify-send hi").unwrap(),
        Sink::Exec {
            command: "notify-send hi".into()
        }
    );
    assert!(Sink::parse("webhook=").is_err());
    assert!(Sink::parse("carrier-pigeon=nearby").is_err());
}

#[test]
fn a_bad_sink_is_named() {
    assert!(Sink::parse("carrier-pigeon=nearby")
        .unwrap_err()
        .message()
        .contains("carrier-pigeon"));
}

#[test]
fn creating_a_rule_rejects_an_unparseable_query() {
    let mut store = AlertStore::open(Vec::new());
    let err = store.create(rule("bad", "sum(((", 0)).unwrap_err();
    assert!(err.message("").contains("invalid query"));
    assert!(store.list().is_empty());
}

#[test]
fn rules_round_trip_through_disk_and_reject_duplicates() {
    let mut store = AlertStore::open(Vec::new());
    store.create(rule("errors", "queue_depth > 10", 0)).unwrap();
    let err = store.create(rule("errors", "queue_depth > 99", 0)).unwrap_err();
    assert!(err.message("").contains("already exists"));

    let mut reopened = AlertStore::open(store.list().clone());
    assert_eq!(reopened.list().len(), 1);
    assert_eq!(reopened.list()[0].query, "queue_depth > 10");

    assert!(reopened.delete("errors"));
    assert!(!reopened.delete("errors"));
    assert!(AlertStore::open(reopened.list().clone()).list().is_empty());
}

#[test]
fn a_rule_fires_once_on_crossing_and_resolves_once_on_recovery() {
    let mut alerts = AlertStore::open(Vec::new());
    alerts.create(rule("deep_queue", "queue_depth > 10", 0)).unwrap();

    assert!(alerts.evaluate_all(above(&[3.0], 10.0), at(0)).is_empty());

    let events = alerts.evaluate_all(above(&[42.0], 10.0), at(0));
    assert_eq!(events.len(), 1);
    assert_eq!(events[0].state, AlertState::Firing);
    assert_eq!(f64::from_bits(events[0].matched[0].value), 42.0);

    assert!(alerts.evaluate_all(above(&[42.0], 10.0), at(0)).is_empty());

    let events = alerts.evaluate_all(above(&[1.0], 10.0), at(0));
    assert_eq!(events.len(), 1);
    assert_eq!(events[0].state, AlertState::Okay);
    assert!(events[0].matched.is_empty());

    let recent = alerts.recent_events(10);
    assert_eq!(recent.len(), 2);
    assert_eq!(recent[0].state, AlertState::Okay);
    assert_eq!(alerts.recent_events(1).len(), 1);
}

#[test]
fn a_for_duration_must_be_held_continuously() {
    let mut alerts = AlertStore::open(Vec::new());
    alerts.create(rule("sustained", "queue_depth > 10", 300)).unwrap();
    assert_eq!(alerts.state("sustained"), None);

    assert!(alerts.evaluate_all(above(&[50.0], 10.0), at(0)).is_empty());
    assert_eq!(alerts.state("sustained"), Some(AlertState::Pending));

    assert!(alerts.evaluate_all(above(&[1.0], 10.0), at(120)).is_empty());
    assert_eq!(alerts.state("sustained"), Some(AlertState::Okay));

    assert!(
        alerts.evaluate_all(above(&[50.0], 10.0), at(180)).is_empty(),
        "the streak restarted, so 180s in is only 0s of continuous breach"
    );

    let events = alerts.evaluate_all(above(&[50.0], 10.0), at(500));
    assert_eq!(events.len(), 1);
    assert_eq!(events[0].state, AlertState::Firing);
}

#[test]
fn span_derived_series_are_available_without_instrumenting_metrics() {
    let figures = |service: &str| SpanFigures {
        service: service.into(),
        error_rate: 0.25f64.to_bits(),
        p95_ms: 100.0f64.to_bits(),
        p99_ms: 100.0f64.to_bits(),
        span_count: 4.0f64.to_bits(),
        error_count: 1.0f64.to_bits(),
    };
    let points = span_derived_points(&figures("tael"), &vec![figures("api")], 3600, at(0));
    assert_eq!(points.len(), 8);
    let fleet_error_rate = points
        .iter()
        .find(|p| p.name == "tael:span_error_rate" && p.service == "tael")
        .expect("fleet-wide error rate should be derived");
    assert!((f64::from_bits(fleet_error_rate.value) - 0.25).abs() < 1e-9);
    assert_eq!(
        fleet_error_rate.attributes.get("window_seconds").map(String::as_str),
        Some("3600")
    );

    let mut alerts = AlertStore::open(Vec::new());
    alerts
        .create(rule(
            "errors",
            "tael:span_error_rate{service=\"tael\"} > 0.1",
            0,
        ))
        .unwrap();
    let events = alerts.evaluate_all(above(&[0.25], 0.1), at(0));
    assert_eq!(events.len(), 1, "derived error rate should trip the rule");
}

#[test]
fn no_data_is_no_crossing() {
    assert!(matched_series(vec![series(f64::NAN)]).is_empty());
    assert_eq!(matched_series(vec![series(f64::NAN), series(1.0)]).len(), 1);
}

#[test]
fn a_broken_rule_does_not_stop_the_others() {
    let mut alerts = AlertStore::open(vec![rule("a", "m > 1", 0), rule("b", "m > 1", 0)]);
    let hit = Some(matched_series(vec![series(2.0)]));
    let events = alerts.evaluate_all(vec![None, hit], at(0));
    assert_eq!(events.len(), 1);
    assert_eq!(events[0].rule, "b");
    assert_eq!(alerts.state("a"), None);
}

#[test]
fn only_so_many_events_are_kept() {
    let mut alerts = AlertStore::open(vec![rule("a", "m > 1", 0)]);
    for i in 0..RECENT_EVENT_CAPACITY + 10 {
        let value = if i % 2 == 0 { 5.0 } else { 0.0 };
        assert_eq!(alerts.evaluate_all(above(&[value], 1.0), at(0)).len(), 1);
    }
    assert_eq!(alerts.recent_events(usize::MAX).len(), RECENT_EVENT_CAPACITY);
    assert_eq!(default_window_seconds(), 300);
    assert_eq!(AlertState::default(), AlertState::Okay);
}
