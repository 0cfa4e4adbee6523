use tael_server::labels::Labels;
use tael_server::metrics::{HistogramBuckets, MetricPoint, MetricType, Temporality};
use tael_server::promql::{parse, quantile_in_range, seconds_in, AggOp, CompareOp, Expr, MatchOp, ParseError, Selector};
use tael_server::promql_eval::{aggregate, eval_histogram_quantile, eval_rate, eval_selector_instant, fetch_points, fetch_query, group_labels, labels_key, matches_labels, series_key, HistogramGroup};
use tael_server::time::Timestamp;

const NOW: i64 = 1_700_000_000;

#[test]
fn parses_bare_metric() {
    let e = parse("http_requests").unwrap();
    assert!(matches!(e, Expr::Selector(s) if s.metric == "http_requests"));
}

#[test]
fn parses_selector_with_labels() {
    let e = parse(r#"http_requests{service="api",method!="GET"}"#).unwrap();
    let Expr::Selector(s) = e else {
        panic!("expected selector");
    };
    assert_eq!(s.metric, "http_requests");
    assert_eq!(s.matchers.len(), 2);
    assert_eq!(s.matchers[0].op, MatchOp::Eq);
    assert_eq!(s.matchers[1].op, MatchOp::NotEq);
}

#[test]
fn parses_rate() {
    let e = parse("rate(http_requests[5m])").unwrap();
    let Expr::Rate { range_seconds, .. } = e else {
        panic!("expected rate");
    };
    assert_eq!(range_seconds, 300);
}

#[test]
fn parses_sum_by_prefix() {
    let e = parse("sum by (service) (http_requests)").unwrap();
    let Expr::Aggregate { op, by, .. } = e else {
        panic!("expected aggregate");
    };
    assert_eq!(op, AggOp::Sum);
    assert_eq!(by, vec!["service".to_string()]);
}

#[test]
fn parses_sum_by_suffix() {
    let e = parse("sum(http_requests) by (service, method)").unwrap();
    let Expr::Aggregate { by, .. } = e else {
        panic!("expected aggregate");
    };
    assert_eq!(by, vec!["service".to_string(), "method".to_string()]);
}

#[test]
fn parses_agg_of_rate() {
    let e = parse("sum by (service) (rate(http_requests{code=\"500\"}[1m]))").unwrap();
    let Expr::Aggregate { inner, .. } = e else {
        panic!("expected aggregate");
    };
    assert!(matches!(*inner, Expr::Rate { .. }));
}

#[test]
fn parses_dotted_otel_metric_names() {
    let e = parse(r#"http.server.request.duration{service="api"}"#).unwrap();
    let Expr::Selector(s) = e else {
        panic!("expected selector");
    };
    assert_eq!(s.metric, "http.server.request.duration");
    assert_eq!(s.matchers.len(), 1);
}

#[test]
fn parses_histogram_quantile() {
    let e = parse(r#"histogram_quantile(0.95, http_duration{service="api"})"#).unwrap();
    let Expr::HistogramQuantile { phi, selector, by } = e else {
        panic!("expected histogram_quantile");
    };
    assert_eq!(phi.parse::<f64>(), Ok(0.95));
    assert_eq!(selector.metric, "http_duration");
    assert_eq!(selector.matchers.len(), 1);
    assert!(by.is_empty());
}

#[test]
fn parses_histogram_quantile_with_grouping() {
    let e = parse("histogram_quantile(0.99, http_duration) by (service, route)").unwrap();
    let Expr::HistogramQuantile { by, .. } = e else {
        panic!("expected histogram_quantile");
    };
    assert_eq!(by, vec!["service".to_string(), "route".to_string()]);
}

#[test]
fn histogram_quantile_rejects_a_phi_outside_zero_to_one() {
    let err = parse("histogram_quantile(95, http_duration)").unwrap_err();
    assert!(
        err.message("").contains("between 0 and 1"),
        "unexpected error: {}",
        err.message("")
    );
}

#[test]
fn a_quantile_out_of_range_is_shown_as_the_number_that_it_is() {
    for (literal, shown) in [
        ("95", "95"),
        ("95.0", "95"),
        ("0001.50", "1.5"),
        ("2.", "2"),
        ("100000000000000000000", "100000000000000000000"),
        ("123456789.123456", "123456789.123456"),
    ] {
        let err = parse(&format!("histogram_quantile({literal}, m)")).unwrap_err();
        assert!(err.unrounded().is_none());
        assert_eq!(literal.parse::<f64>().unwrap().to_string(), shown);
        assert_eq!(
            err.message("?"),
            format!("histogram_quantile expects a quantile between 0 and 1, got {shown}")
        );
    }
    let long = parse("histogram_quantile(2.00000000000000000001, m)").unwrap_err();
    let literal = long.unrounded().unwrap();
    assert_eq!(literal, "2.00000000000000000001");
    let shown = literal.parse::<f64>().unwrap().to_string();
    assert!(long.message(&shown).ends_with("got 2"));
    let huge = format!("histogram_quantile(1{}, m)", "0".repeat(400));
    assert!(parse(&huge).unwrap_err().unrounded().is_some());
}

#[test]
fn more_text_behind_a_query_is_refused() {
    for src in ["up", "up{a=\"b\"}", "sum(up)", "sum by (a) (up)", "rate(up[5m])", "up > 5", "sum(up) by (a) != 1."] {
        assert!(parse(src).is_ok(), "{src}");
        for more in [" x", ")", " 7", "\t}"] {
            assert!(matches!(parse(&format!("{src}{more}")), Err(ParseError::TrailingInput { .. })), "{src}{more}");
        }
    }
    for name in ["sum", "avg", "min", "max", "count"] {
        assert!(parse(&format!("{name}(up)")).is_ok());
        assert!(parse(&format!("{name}(up > 5)")).is_err());
    }
}

#[test]
fn comparisons_take_the_longest_operator() {
    let ops = [
        ("m > 1", CompareOp::Gt),
        ("m >= 1", CompareOp::Gte),
        ("m < 1", CompareOp::Lt),
        ("m <= 1", CompareOp::Lte),
        ("m == 1", CompareOp::Eq),
        ("m != 1", CompareOp::NotEq),
    ];
    for (src, expected) in ops {
        let Expr::Compare { op, threshold, .. } = parse(src).unwrap() else {
            panic!("expected a comparison");
        };
        assert_eq!(op, expected, "{src}");
        assert_eq!(threshold, "1");
        assert_eq!(format!("m {} 1", op.as_str()), src);
    }
    assert!(parse("sum(m > 1)").is_err());
}

fn fault(src: &str) -> String {
    parse(src).unwrap_err().message("")
}

#[test]
fn every_kind_of_error_has_a_text() {
    assert!(fault("").contains("expected"));
    assert!(fault("sum(((").contains("expected"));
    assert!(fault("sum m").contains("expected"));
    assert!(fault("m{").contains("identifier"));
    assert!(fault("m{a=b}").contains("quote") || fault("m{a=b}").contains("'\"'"));
    assert!(fault("m{a=\"b}").contains("unterminated"));
    assert!(fault("m{a~\"b\"}").contains("="));
    assert!(!fault("rate(m[x])").is_empty());
    assert!(!fault("rate(m[5])").is_empty());
    assert!(fault("rate(m[5y])").contains('y'));
    assert!(!fault("rate(m[99999999999999999999s])").is_empty());
    assert!(!fault("m > x").is_empty());
    assert!(!fault("m > 1.2.3").is_empty());
    assert!(fault("m m").contains('m'));
}

#[test]
fn durations_come_in_four_units() {
    assert_eq!(seconds_in(2, 's').unwrap(), 2);
    assert_eq!(seconds_in(2, 'm').unwrap(), 120);
    assert_eq!(seconds_in(2, 'h').unwrap(), 7200);
    assert_eq!(seconds_in(2, 'd').unwrap(), 172_800);
    assert_eq!(seconds_in(2, 'y').unwrap_err().message(""), "unknown duration unit 'y'");
    let too_long = parse("rate(m[153722867280912931m])").unwrap_err();
    assert_eq!(too_long.message(""), "number too large to fit in target type");
    assert!(parse("rate(m[153722867280912930m])").is_ok());
    assert!(parse("rate(m[5m]) > 1 2").is_err());
    assert!(quantile_in_range("1"));
    assert!(quantile_in_range("1.000"));
    assert!(quantile_in_range("0.5"));
    assert!(!quantile_in_range("1.001"));
}

#[test]
fn aggregators_are_named() {
    assert_eq!(AggOp::parse("sum"), Some(AggOp::Sum));
    assert_eq!(AggOp::parse("count"), Some(AggOp::Count));
    assert_eq!(AggOp::parse("median"), None);
}

// ── Evaluation ──────────────────────────────────────────────────────

fn histogram_point(
    service: &str,
    counts: Vec<u64>,
    temporality: Temporality,
    age_secs: i64,
) -> MetricPoint {
    let count = counts.iter().sum();
    MetricPoint {
        timestamp: Timestamp::new(NOW - age_secs, 0).unwrap(),
        service: service.into(),
        name: "http_duration".into(),
        metric_type: MetricType::Histogram,
        value: 0.0f64.to_bits(),
        unit: "ms".into(),
        attributes: Labels::new(),
        histogram: Some(HistogramBuckets {
            bounds: vec![10.0f64.to_bits(), 50.0f64.to_bits(), 100.0f64.to_bits()],
            counts,
            count,
            sum: 100.0f64.to_bits(),
            min: Some(1.0f64.to_bits()),
            max: Some(200.0f64.to_bits()),
            temporality,
        }),
    }
}

/// The quantile of the distributions of a group, added up.
fn quantile(phi: f64, points: &[MetricPoint], group: &HistogramGroup) -> f64 {
    let members: Vec<&HistogramBuckets> = group
        .series
        .iter()
        .flatten()
        .map(|i| points[*i].histogram.as_ref().unwrap())
        .collect();
    let bounds: Vec<f64> = members[0].bounds.iter().map(|b| f64::from_bits(*b)).collect();
    let mut counts = vec![0u64; bounds.len() + 1];
    for m in &members {
        for (total, c) in counts.iter_mut().zip(&m.counts) {
            *total += c;
        }
    }
    let rank = phi * counts.iter().sum::<u64>() as f64;
    let mut below = 0.0;
    for (i, bound) in bounds.iter().enumerate() {
        let here = counts[i] as f64;
        if below + here >= rank {
            let lower = if i == 0 { 0.0 } else { bounds[i - 1] };
            return lower + (bound - lower) * ((rank - below) / here);
        }
        below += here;
    }
    f64::from_bits(members[0].max.unwrap())
}

#[test]
fn evaluates_a_quantile_from_stored_buckets() {
    let raw = vec![histogram_point("api", vec![2, 5, 2, 1], Temporality::Cumulative, 10)];
    let (points, groups) = eval_histogram_quantile(raw, &vec![]);
    assert_eq!(groups.len(), 1);
    let value = quantile(0.5, &points, &groups[0]);
    assert!((value - 34.0).abs() < 1e-9, "{value}");
}

#[test]
fn cumulative_histograms_use_only_the_newest_point() {
    let raw = vec![
        histogram_point("api", vec![100, 0, 0, 0], Temporality::Cumulative, 120),
        histogram_point("api", vec![0, 0, 0, 4], Temporality::Cumulative, 10),
    ];
    let (points, groups) = eval_histogram_quantile(raw, &vec![]);
    assert_eq!(groups.len(), 1);
    assert_eq!(groups[0].series, vec![vec![1]]);
    assert_eq!(quantile(0.5, &points, &groups[0]), 200.0);
}

#[test]
fn delta_histograms_accumulate_across_the_window() {
    let raw = vec![
        histogram_point("api", vec![4, 0, 0, 0], Temporality::Delta, 120),
        histogram_point("api", vec![0, 4, 0, 0], Temporality::Delta, 10),
    ];
    let (points, groups) = eval_histogram_quantile(raw, &vec![]);
    assert_eq!(groups.len(), 1);
    let value = quantile(0.5, &points, &groups[0]);
    assert!((value - 10.0).abs() < 1e-9, "{value}");
}

#[test]
fn points_without_buckets_yield_no_quantile_series() {
    let mut point = histogram_point("api", vec![], Temporality::Delta, 0);
    point.value = 42.0f64.to_bits();
    point.histogram = None;
    let (points, groups) = eval_histogram_quantile(vec![point], &vec![]);
    assert!(points.is_empty());
    assert!(
        groups.is_empty(),
        "a point with no bucket layout must not fabricate a quantile"
    );
}

#[test]
fn grouping_merges_histograms_across_services() {
    let raw = || {
        vec![
            histogram_point("api", vec![8, 0, 0, 0], Temporality::Cumulative, 10),
            histogram_point("worker", vec![0, 8, 0, 0], Temporality::Cumulative, 10),
        ]
    };
    let (_, ungrouped) = eval_histogram_quantile(raw(), &vec![]);
    assert_eq!(
        ungrouped.len(),
        2,
        "without grouping each service reports its own quantile"
    );
    let (points, grouped) = eval_histogram_quantile(raw(), &vec!["__name__".to_string()]);
    assert_eq!(grouped.len(), 1, "grouping collapses to one distribution");
    let value = quantile(0.5, &points, &grouped[0]);
    assert!((value - 10.0).abs() < 1e-9, "{value}");
}

fn gauge(service: &str, value: f64, age: i64) -> MetricPoint {
    MetricPoint {
        timestamp: Timestamp::new(NOW - age, 0).unwrap(),
        service: service.into(),
        name: "m".into(),
        metric_type: MetricType::Gauge,
        value: value.to_bits(),
        unit: String::new(),
        attributes: Labels::new(),
        histogram: None,
    }
}

fn selector(src: &str) -> Selector {
    match parse(src).unwrap() {
        Expr::Selector(s) => s,
        _ => panic!("expected selector"),
    }
}

#[test]
fn an_instant_selector_takes_the_newest_point_of_each_series() {
    let series = eval_selector_instant(&vec![
        gauge("a", 1.0, 30),
        gauge("a", 2.0, 10),
        gauge("b", 3.0, 20),
    ]);
    assert_eq!(series.len(), 2);
    let a = series
        .iter()
        .find(|s| s.labels.get("service").map(String::as_str) == Some("a"))
        .unwrap();
    assert_eq!(f64::from_bits(a.value), 2.0);
}

#[test]
fn a_rate_spans_the_ends_of_a_series() {
    let rates = eval_rate(&vec![gauge("a", 10.0, 60), gauge("a", 40.0, 0), gauge("b", 1.0, 0)]);
    assert_eq!(rates.len(), 1);
    assert_eq!(f64::from_bits(rates[0].first), 10.0);
    assert_eq!(f64::from_bits(rates[0].last), 40.0);
    assert_eq!(rates[0].elapsed_seconds, 60);
}

#[test]
fn an_aggregate_collects_the_values_of_a_group() {
    let series = eval_selector_instant(&vec![gauge("a", 1.0, 0), gauge("b", 2.0, 0)]);
    let all = aggregate(&series, AggOp::Sum, &vec![]);
    assert_eq!(all.len(), 1);
    let total: f64 = all[0].values.iter().map(|v| f64::from_bits(*v)).sum();
    assert_eq!(total, 3.0);
    assert_eq!(aggregate(&series, AggOp::Sum, &vec!["service".to_string()]).len(), 2);
}

#[test]
fn matchers_look_at_the_service_and_the_attributes() {
    let mut p = gauge("api", 1.0, 0);
    p.attributes.insert("zone".into(), "a".into());
    assert!(matches_labels(&p, &selector(r#"m{service="api",zone="a"}"#).matchers));
    assert!(!matches_labels(&p, &selector(r#"m{zone!="a"}"#).matchers));
    let kept = fetch_points(vec![p, gauge("other", 1.0, 0)], &selector(r#"m{service="api"}"#));
    assert_eq!(kept.len(), 1);
    let q = fetch_query(&selector(r#"m{service="api"}"#), 300);
    assert_eq!(q.name.as_deref(), Some("m"));
    assert_eq!(q.last_seconds, Some(300));
}

#[test]
fn a_series_is_known_by_its_name_and_labels() {
    let mut a = gauge("api", 1.0, 0);
    a.attributes.insert("x".into(), "1".into());
    let mut b = gauge("api", 2.0, 9);
    b.attributes.insert("x".into(), "1".into());
    assert_eq!(series_key(&a), series_key(&b));
    assert_ne!(series_key(&a), series_key(&gauge("api", 1.0, 0)));
    assert_ne!(labels_key(&a.attributes), labels_key(&Labels::new()));
    let with_labels = |pairs: &[(&str, &str)]| {
        let mut p = gauge("api", 1.0, 0);
        for (name, value) in pairs {
            p.attributes.insert(name.to_string(), value.to_string());
        }
        p
    };
    let one = with_labels(&[("a", "1,b=2")]);
    let two = with_labels(&[("a", "1"), ("b", "2")]);
    assert_ne!(series_key(&one), series_key(&two));
    assert_eq!(eval_selector_instant(&vec![one, two]).len(), 2);
    assert_eq!(labels_key(&with_labels(&[("a", "1,\\")]).attributes), "a,1\\,\\\\,");
    let kept = group_labels(&a, &vec!["x".to_string()]);
    assert_eq!(kept.names(), vec!["x".to_string()]);
}
