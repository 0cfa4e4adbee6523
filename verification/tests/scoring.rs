use tael_server::scoring::{fraction, is_sampled, sample_fraction, score_lines, scorer_env, scorer_failure, MatchError, RuleError, ScoreRule, ScoreRuleStore, TraceMatcher, SCORED_MEMORY};
use tael_server::time::Timestamp;

fn now() -> Timestamp {
    Timestamp::new(1_700_000_000, 0).unwrap()
}

fn rule(name: &str, sample: f64, matcher: TraceMatcher) -> ScoreRule {
    ScoreRule {
        name: name.into(),
        sample: sample.to_bits(),
        matcher,
        command: "echo '{\"metric\":\"faithfulness\",\"value\":1.0}'".into(),
        description: None,
        created_at: now(),
    }
}

fn ids(prefix: &str, n: usize) -> Vec<String> {
    (0..n).map(|i| format!("{prefix}{i}")).collect()
}

#[test]
fn matchers_parse_the_query_vocabulary() {
    let m = TraceMatcher::parse(&vec![
        "service=agent-api".into(),
        "status=error".into(),
        "attribute:gen_ai.system=anthropic".into(),
    ])
    .unwrap();
    assert_eq!(m.service.as_deref(), Some("agent-api"));
    assert_eq!(m.status.as_deref(), Some("error"));
    assert_eq!(
        m.attributes,
        vec![("gen_ai.system".to_string(), "anthropic".to_string())]
    );
    assert!(TraceMatcher::parse(&vec!["nonsense".into()]).is_err());
    assert!(TraceMatcher::parse(&vec!["colour=blue".into()]).is_err());
}

#[test]
fn a_bad_matcher_says_why() {
    let e = TraceMatcher::parse(&vec!["nonsense".into()]).unwrap_err();
    assert_eq!(e.message(), "match `nonsense` must be key=value");
    let e = TraceMatcher::parse(&vec!["colour=blue".into()]).unwrap_err();
    assert!(matches!(e, MatchError::UnknownKey(_)));
    assert!(e.message().contains("`colour`"));
    let e = TraceMatcher::parse(&vec!["min_duration_ms=soon".into()]).unwrap_err();
    assert_eq!(e.message(), "invalid float literal");
    let q = TraceMatcher::parse(&vec!["operation=chat".into(), "min_duration_ms=1.5".into()])
        .unwrap()
        .to_query(120, 7);
    assert_eq!(q.operation.as_deref(), Some("chat"));
    assert_eq!(q.min_duration_ms.as_deref(), Some("1.5"));
    assert_eq!((q.last_seconds, q.limit), (Some(120), Some(7)));
}

#[test]
fn sampling_is_stable_for_a_given_trace() {
    let a = f64::from_bits(sample_fraction("abc123"));
    let b = f64::from_bits(sample_fraction("abc123"));
    assert_eq!(a, b);
    assert!((0.0..1.0).contains(&a));
    assert_ne!(sample_fraction("abc123"), sample_fraction("def456"));
}

#[test]
fn sampling_approximates_the_requested_rate() {
    let sampled = (0..5000)
        .filter(|i| f64::from_bits(sample_fraction(&format!("trace-{i}"))) < 0.10)
        .count();
    assert!(
        (350..650).contains(&sampled),
        "expected roughly 500 of 5000 at 10%, got {sampled}"
    );
}

#[test]
fn a_fraction_is_the_number_over_the_largest() {
    for n in [0u64, 1, 2, 1 << 20, 1 << 63, u64::MAX / 3] {
        let expected = n as f64 / u64::MAX as f64;
        assert_eq!(f64::from_bits(fraction(n)), expected, "{n}");
    }
    assert!(f64::from_bits(fraction(u64::MAX)) < 1.0);
}

#[test]
fn extreme_rates_sample_all_or_nothing() {
    for id in ids("t", 100) {
        assert!(is_sampled(&id, 1.0f64.to_bits()));
        assert!(!is_sampled(&id, 0.0f64.to_bits()));
        if is_sampled(&id, 0.2f64.to_bits()) {
            assert!(is_sampled(&id, 0.6f64.to_bits()));
        }
    }
}

#[test]
fn rules_validate_their_sample_rate_and_command() {
    let mut store = ScoreRuleStore::open(Vec::new());
    let bad = rule("bad", 5.0, TraceMatcher::default());
    assert!(
        matches!(store.create(bad), Err(RuleError::SampleOutOfRange(_))),
        "5.0 is not a fraction"
    );
    let mut bad = rule("bad", 0.5, TraceMatcher::default());
    bad.command = "  ".into();
    assert!(
        matches!(store.create(bad), Err(RuleError::NoCommand)),
        "a rule needs a command"
    );
    let bad = rule("bad", f64::NAN, TraceMatcher::default());
    assert!(store.create(bad).is_err());
    assert!(store.list().is_empty());
}

#[test]
fn rules_round_trip_and_reject_duplicates() {
    let mut store = ScoreRuleStore::open(Vec::new());
    store.create(rule("faith", 0.05, TraceMatcher::default())).unwrap();
    assert!(matches!(
        store.create(rule("faith", 0.1, TraceMatcher::default())),
        Err(RuleError::Duplicate(_))
    ));

    assert_eq!(store.list().len(), 1);
    assert_eq!(f64::from_bits(store.list()[0].sample), 0.05);
    assert!(store.delete("faith"));
    assert!(!store.delete("faith"));
    assert!(store.list().is_empty());
}

#[test]
fn candidates_respect_the_matcher_and_are_not_rescored() {
    let mut store = ScoreRuleStore::open(Vec::new());
    let matcher = TraceMatcher::parse(&vec!["service=agent-api".into()]).unwrap();
    let r = rule("all", 1.0, matcher);
    let q = r.matcher.to_query(3600, 1000);
    assert_eq!(q.service.as_deref(), Some("agent-api"));

    let traces = ids("t", 200);
    let first = store.select_candidates(&r.name, r.sample, &traces);
    assert_eq!(first.len(), 200, "every matching trace is scored");

    for i in &first {
        store.mark_scored(&r.name, &traces[*i], 1, now());
    }
    let second = store.select_candidates(&r.name, r.sample, &traces);
    assert!(
        second.is_empty(),
        "already-scored traces must not be scored again"
    );
    let status = store.status(&r.name).unwrap();
    assert_eq!(status.scores_written, 200);
    assert_eq!(status.last_run_at, Some(now()));
}

#[test]
fn two_rules_score_the_same_trace_independently() {
    let mut store = ScoreRuleStore::open(Vec::new());
    let traces = ids("t", 20);
    let one = 1.0f64.to_bits();
    let first = store.select_candidates("faithfulness", one, &traces);
    assert_eq!(first.len(), 20);
    for i in &first {
        store.mark_scored("faithfulness", &traces[*i], 1, now());
    }
    let second = store.select_candidates("tone", one, &traces);
    assert_eq!(
        second.len(),
        20,
        "the second rule should still see every trace"
    );
}

#[test]
fn a_low_sample_rate_selects_a_small_fraction() {
    let mut store = ScoreRuleStore::open(Vec::new());
    let traces = ids("t", 1000);
    let selected = store.select_candidates("sampled", 0.05f64.to_bits(), &traces);
    assert!(
        (10..120).contains(&selected.len()),
        "expected roughly 5% of 1000, got {}",
        selected.len()
    );
}

#[test]
fn a_trace_is_a_candidate_once() {
    let mut store = ScoreRuleStore::open(Vec::new());
    let traces = vec!["a".to_string(), "b".to_string(), "a".to_string()];
    assert_eq!(store.select_candidates("r", 1.0f64.to_bits(), &traces), vec![0, 1]);
}

#[test]
fn a_failed_trace_is_not_tried_again() {
    let mut store = ScoreRuleStore::open(Vec::new());
    store.mark_failed("r", "t", "boom".to_string(), now());
    let status = store.status("r").unwrap();
    assert_eq!(status.failures, 1);
    assert_eq!(status.last_error.as_deref(), Some("boom"));
    assert!(store.already_scored("r", "t"));
    assert!(!store.already_scored("r", "u"));
    assert!(SCORED_MEMORY > 0);
}

#[test]
fn the_scorer_sees_the_same_env_as_an_offline_eval() {
    let env = scorer_env("judge", "trace-abc", "s1", "api", "chat");
    let get = |k: &str| env.iter().find(|(n, _)| n == k).map(|(_, v)| v.as_str());
    assert_eq!(get("TAEL_EVAL_TRACE_ID"), Some("trace-abc"));
    assert_eq!(get("TAEL_EVAL_CASE_ID"), Some("trace-abc"));
    assert_eq!(get("TAEL_EVAL_RULE"), Some("judge"));
    assert_eq!(get("TAEL_EVAL_ONLINE"), Some("1"));
    assert_eq!(env.len(), 7);
}

#[test]
fn a_scorer_command_produces_score_lines() {
    let out = "{\"metric\":\"faithfulness\",\"value\":0.9}\n\n{\"metric\":\"tone\",\"value\":1.0}\n";
    let lines = score_lines(out);
    assert_eq!(lines.len(), 2);
    assert_eq!(lines[0], (1, "{\"metric\":\"faithfulness\",\"value\":0.9}".to_string()));
    assert_eq!(lines[1].0, 3);
}

#[test]
fn a_failing_scorer_reports_its_stderr() {
    let msg = scorer_failure(Some(3), "model unreachable\n");
    assert!(msg.contains("exited 3"), "{msg}");
    assert!(msg.contains("model unreachable"), "{msg}");
    assert_eq!(scorer_failure(None, ""), "scorer exited -1: ");
}
