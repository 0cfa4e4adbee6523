use tael_server::api::embeddings::{should_embed, trace_signature, traces_of};
use tael_server::api::eval_compare::{cases_by_metric, compare};
use tael_server::api::eval_writes::{instant_from, runner_span, score_point, AddEvalRunnerSpanBody, AddEvalScoreBody};
use tael_server::api::evals::{build_eval_snapshot, infer_case_status, infer_run_status, list_order, max_string_time, metric_to_eval_score, min_string_time, read_signals, CaseStatus, RunStatus};
use tael_server::api::live::{filter_log_batch, filter_span_batch};
use tael_server::api::metric_detail::describe;
use tael_server::api::params::{comment_limit, parse_attribute_params, parse_duration_to_seconds, read_filter, window, window_or, windows, FilterKind};
use tael_server::api::topology::build_topology;
use tael_server::labels::Labels;
use tael_server::metrics::{MetricPoint, MetricType};
use tael_server::spans::{LlmOperation, LlmSpan, Span, SpanDuration, SpanKind, SpanStatus};
use tael_server::time::Timestamp;

const NOW: i64 = 1_700_000_000;

fn at_millis(ms: i64) -> Timestamp {
    Timestamp::from_millis(NOW * 1000 + ms).unwrap()
}

fn labels(pairs: &[(&str, &str)]) -> Labels {
    let mut l = Labels::new();
    for (k, v) in pairs {
        l.insert(k.to_string(), v.to_string());
    }
    l
}

fn some(s: &str) -> Option<String> {
    Some(s.to_string())
}

fn span(trace: &str, id: &str, parent: Option<&str>, service: &str, status: SpanStatus) -> Span {
    Span {
        trace_id: trace.into(),
        span_id: id.into(),
        parent_span_id: parent.map(|p| p.to_string()),
        service: service.into(),
        operation: "op".into(),
        start_time: at_millis(0),
        end_time: at_millis(25),
        duration: SpanDuration::Millis(25.0f64.to_bits()),
        status,
        attributes: Labels::new(),
        events: Vec::new(),
        kind: SpanKind::Internal,
        llm: None,
    }
}

fn llm(prompt_sha256: &str) -> LlmSpan {
    LlmSpan {
        provider: "p".into(),
        model: "m".into(),
        operation: LlmOperation::Chat,
        input_tokens: None,
        output_tokens: None,
        total_tokens: None,
        cost_usd: None,
        ttft_ms: None,
        inter_token_ms: None,
        prompt_sha256: Some(prompt_sha256.into()),
        completion_sha256: Some("cc".into()),
        finish_reason: Some("stop".into()),
        temperature: None,
    }
}

fn eval_span(case: &str, status: SpanStatus) -> Span {
    let mut s = span("trace-a", "span-a", None, "agent", status);
    s.operation = "eval case".to_string();
    s.attributes = labels(&[
        ("tael.eval.suite_id", "suite-a"),
        ("tael.eval.run_id", "run-a"),
        ("tael.eval.case_id", case),
        ("tael.eval.case_count", "2"),
    ]);
    s
}

fn score(case: &str, metric: &str, value: f64, label: Option<&str>) -> MetricPoint {
    let mut attributes = labels(&[
        ("suite_id", "suite-a"),
        ("run_id", "run-a"),
        ("case_id", case),
        ("trace_id", "trace-a"),
        ("metric", metric),
    ]);
    if let Some(l) = label {
        attributes.insert("label".into(), l.into());
    }
    MetricPoint {
        timestamp: at_millis(30),
        service: "tael-eval".into(),
        name: "tael_eval_score".into(),
        metric_type: MetricType::Gauge,
        value: value.to_bits(),
        unit: "score".into(),
        attributes,
        histogram: None,
    }
}

#[test]
fn eval_snapshot_derives_runs_cases_and_scores_from_existing_signals() {
    let spans = vec![eval_span("case-1", SpanStatus::Okay)];
    let points = vec![score("case-1", "correctness", 1.0, Some("pass"))];
    let signals = read_signals(&spans, &vec![25.0f64.to_bits()], &points);
    let runs = build_eval_snapshot(&signals);
    let run = runs.iter().find(|r| r.run_id == "run-a").unwrap();
    assert_eq!(run.suite_id.as_deref(), Some("suite-a"));
    assert_eq!(run.case_count, Some(2));
    assert_eq!(run.observed_cases, 1);
    assert_eq!(run.scored_cases, 1);
    assert_eq!(run.passed_cases, 1);
    assert_eq!(run.pending_cases, Some(1));
    assert_eq!(
        run.averages,
        vec![("correctness".to_string(), vec![1.0f64.to_bits()])]
    );

    let case = run.cases.iter().find(|c| c.case_id == "case-1").unwrap();
    assert_eq!(case.status.as_str(), "pass");
    assert_eq!(case.trace_id.as_deref(), Some("trace-a"));
}

#[test]
fn a_failed_span_fails_its_case_and_its_run() {
    let spans = vec![eval_span("case-1", SpanStatus::Error), eval_span("case-2", SpanStatus::Okay)];
    let durations = vec![1.0f64.to_bits(), 2.0f64.to_bits()];
    let runs = build_eval_snapshot(&read_signals(&spans, &durations, &vec![]));
    assert_eq!(runs.len(), 1);
    assert_eq!(runs[0].failed_cases, 1);
    assert!(matches!(runs[0].status, RunStatus::Failed));
    assert_eq!(list_order(&runs), vec![0]);
}

#[test]
fn statuses_are_inferred() {
    assert!(matches!(infer_run_status(None, 0, 0, 0), RunStatus::Unknown));
    assert!(matches!(infer_run_status(Some(2), 2, 2, 0), RunStatus::Complete));
    assert!(matches!(infer_run_status(Some(2), 1, 1, 0), RunStatus::Running));
    assert!(matches!(infer_run_status(Some(2), 2, 2, 1), RunStatus::Failed));
    assert!(matches!(infer_case_status(false, &vec![], &vec![], false), CaseStatus::Pending));
    assert!(matches!(infer_case_status(true, &vec![], &vec![], true), CaseStatus::Fail));
}

#[test]
fn the_earlier_and_the_later_of_two_times() {
    assert_eq!(min_string_time(some("b"), some("a")), some("a"));
    assert_eq!(max_string_time(some("b"), some("a")), some("b"));
    assert_eq!(min_string_time(None, some("a")), some("a"));
    assert_eq!(max_string_time(some("a"), None), some("a"));
    assert_eq!(min_string_time(None, None), None);
}

fn body() -> AddEvalScoreBody {
    AddEvalScoreBody {
        suite_id: some("s"),
        run_id: "run-a".into(),
        case_id: "case-1".into(),
        trace_id: None,
        span_id: some(""),
        metric: "correctness".into(),
        value: 0.5f64.to_bits(),
        scorer: None,
        label: some("pass"),
        rationale_sha256: None,
        source: None,
    }
}

#[test]
fn a_posted_score_is_found_again() {
    let point = score_point(&body(), at_millis(0)).unwrap();
    assert_eq!(point.name, "tael_eval_score");
    assert!(point.attributes.get("span_id").is_none());
    let s = metric_to_eval_score(&point).unwrap();
    assert_eq!((s.run_id.as_str(), s.case_id.as_str()), ("run-a", "case-1"));
    assert_eq!(s.metric, "correctness");
    assert_eq!(s.value, 0.5f64.to_bits());
    assert_eq!(s.label.as_deref(), Some("pass"));
    let mut blank = body();
    blank.metric = " ".into();
    assert!(score_point(&blank, at_millis(0)).is_none());
}

#[test]
fn a_posted_span_has_its_times_read() {
    let posted = AddEvalRunnerSpanBody {
        suite_id: "s".into(),
        run_id: "r".into(),
        case_id: "c".into(),
        trace_id: "t".into(),
        span_id: "p".into(),
        case_index: Some(1),
        case_count: Some(3),
        code_version: None,
        status: Some(SpanStatus::Error),
        start_time: some("2023-11-14T22:13:20+00:00"),
        end_time: some("2023-11-14T22:13:21Z"),
        duration_ms: None,
    };
    let s = runner_span(&posted, at_millis(0)).unwrap();
    assert_eq!(s.start_time.seconds(), NOW);
    assert_eq!(s.end_time.seconds(), NOW + 1);
    assert_eq!(s.status, SpanStatus::Error);
    assert_eq!(s.attributes.get("tael.eval.case_count").map(String::as_str), Some("3"));
    let unreadable = AddEvalRunnerSpanBody {
        start_time: some("yesterday"),
        end_time: None,
        ..posted
    };
    let s = runner_span(&unreadable, at_millis(7)).unwrap();
    assert_eq!(s.start_time, at_millis(7));
    let leap = instant_from(Some((1_483_228_799, 1_500_000_000))).unwrap();
    assert_eq!(leap.to_rfc3339(), "2016-12-31T23:59:60.500+00:00");
    assert!(instant_from(Some((5, 1_500_000_000))).is_none());
    assert!(instant_from(None).is_none());
}

#[test]
fn runs_are_compared_case_by_case() {
    let spans = vec![eval_span("case-1", SpanStatus::Okay)];
    let runs = |v: f64| {
        build_eval_snapshot(&read_signals(
            &spans,
            &vec![1.0f64.to_bits()],
            &vec![score("case-1", "correctness", v, None)],
        ))
    };
    let current = cases_by_metric(&runs(1.0)[0].cases);
    let baseline = cases_by_metric(&runs(0.5)[0].cases);
    let cases = compare(&current, &baseline);
    assert_eq!(cases.len(), 1);
    assert_eq!((cases[0].current, cases[0].baseline), (Some(0), Some(0)));
    let one_sided = compare(&current, &vec![]);
    assert_eq!((one_sided[0].current, one_sided[0].baseline), (Some(0), None));
}

#[test]
fn calls_between_services_are_edges() {
    let spans = vec![
        span("t", "a", None, "web", SpanStatus::Okay),
        span("t", "b", Some("a"), "api", SpanStatus::Error),
        span("t", "c", Some("b"), "api", SpanStatus::Okay),
        span("t", "d", Some("gone"), "db", SpanStatus::Okay),
    ];
    let t = build_topology(&spans);
    assert_eq!(t.nodes.len(), 3);
    assert_eq!(t.edges.len(), 1);
    assert_eq!((t.edges[0].from.as_str(), t.edges[0].to.as_str()), ("web", "api"));
    assert_eq!(t.edges[0].calls, vec![1]);
    assert_eq!(t.edges[0].errors, 1);
    assert_eq!(t.dangling, 1);
    let api = t.nodes.iter().find(|n| n.service == "api").unwrap();
    assert_eq!((api.span_count, api.error_count), (2, 1));
}

#[test]
fn a_signature_says_what_happened_in_any_order() {
    let a = span("t", "a", None, "web", SpanStatus::Okay);
    let mut b = span("t", "b", None, "api", SpanStatus::Error);
    b.attributes = labels(&[("error.type", "timeout")]);
    let one = trace_signature(&vec![a, b]);
    assert_eq!(one, "api op error op error.type=timeout web op");
    let a = span("t", "a", None, "web", SpanStatus::Okay);
    let mut b = span("t", "b", None, "api", SpanStatus::Error);
    b.attributes = labels(&[("error.type", "timeout")]);
    assert_eq!(trace_signature(&vec![b, a]), one);
    let with_prompt = |sha: &str| {
        let mut c = span("t", "c", None, "api", SpanStatus::Okay);
        c.llm = Some(llm(sha));
        trace_signature(&vec![c])
    };
    assert_eq!(with_prompt("aa"), "api op completion=cc finish=stop llm p m prompt=aa");
    assert_ne!(with_prompt("aa"), with_prompt("bb"));
    assert!(should_embed(false, &one));
    assert!(!should_embed(true, &one));
    assert!(!should_embed(false, " "));
    let groups = traces_of(&vec!["x".to_string(), "y".to_string(), "x".to_string()]);
    assert_eq!(groups.len(), 2);
}

#[test]
fn a_metric_is_described_by_its_points() {
    let mut a = score("case-1", "m", 3.0, None);
    a.service = "b".into();
    let points = vec![a, score("case-1", "m", 1.0, None), score("case-2", "m", 2.0, None)];
    let d = describe(&points).unwrap();
    assert_eq!(d.point_count, 3);
    assert_eq!(d.series_count, 3);
    assert_eq!(d.services, vec!["b".to_string(), "tael-eval".to_string()]);
    assert_eq!(f64::from_bits(d.value_min), 1.0);
    assert_eq!(f64::from_bits(d.value_max), 3.0);
    assert_eq!(d.with_histogram, 0);
    assert!(d.label_keys.contains(&"run_id".to_string()));
    assert!(describe(&vec![]).is_none());
}

#[test]
fn live_batches_are_filtered() {
    let batch = r#"[{"service":"a","status":"error"},{"service":"b","status":"ok"}]"#;
    assert_eq!(filter_span_batch(batch, &None, &None).as_deref(), Some(batch));
    assert_eq!(
        filter_span_batch(batch, &some("a"), &None).as_deref(),
        Some(r#"[{"service":"a","status":"error"}]"#)
    );
    assert_eq!(filter_span_batch(batch, &some("a"), &some("ok")), None);
    assert_eq!(filter_span_batch("not json", &some("a"), &None), None);
    let logs = r#"[{"service":"a","severity":"warn"}]"#;
    assert_eq!(filter_log_batch(logs, &None, &some("warn")).as_deref(), Some(logs));
}

#[test]
fn durations_are_read_in_seconds() {
    assert_eq!(parse_duration_to_seconds("90"), Some(90));
    assert_eq!(parse_duration_to_seconds(" 5m "), Some(300));
    assert_eq!(parse_duration_to_seconds("2h"), Some(7200));
    assert_eq!(parse_duration_to_seconds("1d"), Some(86_400));
    assert_eq!(parse_duration_to_seconds("30s"), Some(30));
    assert_eq!(parse_duration_to_seconds("soon"), None);
    assert_eq!(parse_duration_to_seconds("9223372036854775807m"), None);
    assert_eq!(parse_duration_to_seconds(""), None);
    assert_eq!(window(&some("1m")), Some(60));
    assert_eq!(window_or(&some("x"), 9), 9);
    assert_eq!(windows(&None, &None), (3600, 21_600));
    assert_eq!(windows(&some("5m"), &some("30m")), (300, 1800));
    assert_eq!(comment_limit(None), 1000);
    assert_eq!(comment_limit(Some(1 << 40)), 100_000);
}

#[test]
fn attribute_filters_come_in_three_kinds() {
    let f = read_filter("http.route~=/v1").unwrap();
    assert_eq!(f.kind, FilterKind::Contains);
    assert_eq!((f.key.as_str(), f.value.as_str()), ("http.route", "/v1"));
    assert_eq!(read_filter("a=~^x").unwrap().kind, FilterKind::Regex);
    assert_eq!(read_filter("a=b=c").unwrap().value, "b=c");
    assert!(read_filter("=b").is_none());
    assert!(read_filter("plain").is_none());
    let all = parse_attribute_params(&some("attribute=a%3Db&attribute=c~%3Dd&attribute=e%3D~f%2B&x=1"))
        .unwrap();
    assert_eq!(all.exact, vec![("a".to_string(), "b".to_string())]);
    assert_eq!(all.contains, vec![("c".to_string(), "d".to_string())]);
    assert_eq!(all.regex, vec![("e".to_string(), "f+".to_string())]);
    let bad = parse_attribute_params(&some("attribute=e%3D~(")).unwrap_err();
    assert_eq!(bad.key, "e");
    assert!(bad.message().contains('e'));
    assert!(parse_attribute_params(&None).unwrap().exact.is_empty());
}
