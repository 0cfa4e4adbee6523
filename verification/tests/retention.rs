use tael_server::labels::Labels;
use tael_server::retention::{default_config_path, parse_days, ConfigFile, Days, DurationError, DurationUnit, PolicyError, ResolveError, RetentionPolicy, RetentionSection, RoundedDays, StorageSection, DEFAULT_RETENTION_DAYS, RECOMMENDED_CONFIG};
use tael_server::time::Timestamp;

fn whole(raw: &str) -> i64 {
    match parse_days(raw) {
        Ok(Days::Whole(n)) => n,
        other => panic!("{raw}: {other:?}"),
    }
}

const NONE: RoundedDays =
    RoundedDays { traces: 0, llm_payloads: 0, logs: 0, metrics_raw: 0, metrics_rollups: 0 };

/// Reads a config file.
fn config(text: &str) -> ConfigFile {
    let table: toml::Table = text.parse().expect("config parses");
    let int = |t: Option<&toml::Value>| t.and_then(|v| v.as_integer());
    let text = |t: Option<&toml::Value>| t.and_then(|v| v.as_str()).map(str::to_string);
    ConfigFile {
        storage: table.get("storage").map(|s| StorageSection {
            hot_tier_hours: int(s.get("hot_tier_hours")),
            compact_interval_secs: int(s.get("compact_interval_secs")).map(|n| n as u64),
        }),
        retention: table.get("retention").map(|r| RetentionSection {
            traces: text(r.get("traces")),
            llm_payloads: text(r.get("llm_payloads")),
            logs: text(r.get("logs")),
            metrics_raw: text(r.get("metrics_raw")),
            metrics_rollups: text(r.get("metrics_rollups")),
        }),
    }
}

fn env(pairs: &[(&str, &str)]) -> Labels {
    let mut l = Labels::new();
    for (k, v) in pairs {
        l.insert(k.to_string(), v.to_string());
    }
    l
}

#[test]
fn defaults_preserve_the_pre_config_behavior() {
    let p = RetentionPolicy::default();
    assert_eq!(p.traces, DEFAULT_RETENTION_DAYS);
    assert_eq!(p.logs, DEFAULT_RETENTION_DAYS);
    assert_eq!(p.metrics_raw, DEFAULT_RETENTION_DAYS);
    assert_eq!(p.metrics_rollups, DEFAULT_RETENTION_DAYS);
    assert_eq!(p.hot_tier_hours, 24);
}

#[test]
fn the_recommended_config_parses_and_shortens_every_window() {
    let file = config(RECOMMENDED_CONFIG);
    let mut policy = RetentionPolicy::default();
    policy.apply_file(&file, &NONE).unwrap();
    policy.validate().unwrap();

    assert_eq!(policy.traces, 7);
    assert_eq!(policy.llm_payloads, 3);
    assert_eq!(policy.logs, 14);
    assert_eq!(policy.metrics_raw, 30);
    assert_eq!(policy.metrics_rollups, 365);
    assert!(policy.metrics_rollups > policy.metrics_raw);
    assert!(!policy.loses_trends());
}

#[test]
fn parses_duration_units() {
    assert_eq!(whole("7d"), 7);
    assert_eq!(whole("14"), 14);
    assert_eq!(whole("48h"), 2);
    assert_eq!(whole("2w"), 14);
    assert!(parse_days("7y").is_err());
    assert!(parse_days("").is_err());
}

#[test]
fn durations_round_to_whole_days() {
    assert_eq!(whole("36h"), 2);
    assert_eq!(whole("11h"), 0);
    assert_eq!(whole("1.5d"), 2);
    assert_eq!(whole("0.5w"), 4);
    assert!(matches!(parse_days(" "), Err(DurationError::Empty)));
    assert!(matches!(parse_days("d"), Err(DurationError::Invalid { .. })));
    match parse_days("7y") {
        Err(DurationError::UnknownUnit { unit, raw }) => {
            assert_eq!(unit, "y");
            assert_eq!(raw, "7y");
        }
        other => panic!("{other:?}"),
    }
    match parse_days("1.0000000000000000001d") {
        Ok(Days::Unrounded { literal, unit }) => {
            assert_eq!(literal, "1.0000000000000000001");
            assert_eq!(unit, DurationUnit::Days);
        }
        other => panic!("{other:?}"),
    }
}

#[test]
fn config_file_overrides_defaults_per_signal() {
    let file = config(
        r#"
[storage]
hot_tier_hours = 6

[retention]
traces = "3d"
logs = "1w"
metrics_rollups = "730d"
"#,
    );
    let mut policy = RetentionPolicy::default();
    policy.apply_file(&file, &NONE).unwrap();

    assert_eq!(policy.hot_tier_hours, 6);
    assert_eq!(policy.traces, 3);
    assert_eq!(policy.logs, 7);
    assert_eq!(policy.metrics_rollups, 730);
    assert_eq!(policy.metrics_raw, DEFAULT_RETENTION_DAYS);
}

#[test]
fn negative_retention_is_rejected() {
    let mut policy = RetentionPolicy::default();
    policy.logs = -1;
    assert!(policy.validate().is_err());

    let mut policy = RetentionPolicy::default();
    policy.compact_interval_secs = 0;
    assert!(policy.validate().is_err());
}

#[test]
fn a_refused_policy_says_why() {
    let mut policy = RetentionPolicy::default();
    policy.logs = -1;
    match policy.validate().unwrap_err() {
        PolicyError::NegativeRetention { name, days } => {
            assert_eq!((name, days), ("logs", -1));
        }
        other => panic!("{}", other.message()),
    }
    let mut policy = RetentionPolicy::default();
    policy.hot_tier_hours = -1;
    assert!(matches!(policy.validate(), Err(PolicyError::NegativeHotTier)));
    let mut policy = RetentionPolicy::default();
    policy.compact_interval_secs = 0;
    assert!(matches!(policy.validate(), Err(PolicyError::ZeroInterval)));
}

#[test]
fn cutoffs_share_one_clock_across_signals() {
    let policy = RetentionPolicy {
        traces: 7,
        logs: 14,
        metrics_raw: 30,
        metrics_rollups: 365,
        ..RetentionPolicy::default()
    };
    let now = Timestamp::new(1_700_000_000, 5).unwrap();
    let c = policy.cutoffs(&now);
    let days = |t: &Timestamp| now.nanos_since(t) / 86_400_000_000_000;
    assert_eq!(days(&c.traces), 7);
    assert_eq!(days(&c.logs), 14);
    assert_eq!(days(&c.metrics_raw), 30);
    assert_eq!(days(&c.metrics_rollups), 365);
    assert_eq!(now.nanos_since(&c.hot_tier) / 3_600_000_000_000, 24);
}

#[test]
fn default_config_path_sits_beside_the_data_directory() {
    assert_eq!(
        default_config_path("/home/u/.tael/data"),
        "/home/u/.tael/config.toml"
    );
}

#[test]
fn config_paths_of_other_directories() {
    assert_eq!(default_config_path("/data/"), "/config.toml");
    assert_eq!(default_config_path("data"), "config.toml");
    assert_eq!(default_config_path("a/b/."), "a/config.toml");
    assert_eq!(default_config_path("/"), "/config.toml");
}

#[test]
fn the_environment_wins_over_the_file() {
    let file = Some(config("[retention]\ntraces = \"3d\"\nlogs = \"4d\"\n"));
    let e = env(&[("TAEL_TRACE_RETENTION_DAYS", "9")]);
    let p = RetentionPolicy::resolve(&file, &NONE, &e).unwrap_or_else(|_| panic!("resolves"));
    assert_eq!(p.traces, 9);
    assert_eq!(p.logs, 4);
    let bad = RetentionPolicy::resolve(&None, &NONE, &env(&[("TAEL_TRACE_RETENTION_DAYS", "soon")]));
    match bad {
        Err(ResolveError::Number(e)) => assert!(e.message().contains("TAEL_TRACE_RETENTION_DAYS")),
        _ => panic!("expected a number error"),
    }
    // The settings are read in one order, and the first bad one is reported.
    let several = env(&[
        ("TAEL_COMPACT_INTERVAL_SECS", "-1"),
        ("TAEL_HOT_TIER_HOURS", "6"),
        ("TAEL_LOG_RETENTION_DAYS", "x"),
        ("TAEL_TRACE_RETENTION_DAYS", "8"),
    ]);
    let mut policy = RetentionPolicy::default();
    let e = policy.apply_env(&several).unwrap_err();
    assert_eq!(e.message(), "TAEL_COMPACT_INTERVAL_SECS must be a positive integer, got `-1`");
    assert_eq!(policy, RetentionPolicy { hot_tier_hours: 6, ..RetentionPolicy::default() });
    let bad = RetentionPolicy::resolve(&None, &NONE, &env(&[("TAEL_TRACE_RETENTION_DAYS", "-2")]));
    assert!(matches!(bad, Err(ResolveError::Policy(_))));
}

#[test]
fn a_cutoff_before_all_time_does_not_exist() {
    let mut policy = RetentionPolicy::default();
    policy.traces = i64::MAX;
    let now = Timestamp::new(0, 0).unwrap();
    assert!(policy.try_cutoffs(&now).is_none());
    policy.traces = 1;
    assert!(policy.try_cutoffs(&now).is_some());
}

#[test]
fn a_malformed_duration_refuses_the_file() {
    let file = config("[storage]\nhot_tier_hours = 6\n[retention]\ntraces = \"3d\"\nlogs = \"7y\"\nmetrics_raw = \"\"\n");
    let mut policy = RetentionPolicy::default();
    let e = policy.apply_file(&file, &NONE).unwrap_err();
    assert_eq!(e.message(), "unknown duration unit `y` in `7y` (use h, d, or w)");
    // What stands before the bad duration is set already.
    assert_eq!(policy, RetentionPolicy { hot_tier_hours: 6, traces: 3, ..RetentionPolicy::default() });
    let refused = RetentionPolicy::resolve(&Some(file), &NONE, &env(&[]));
    assert!(matches!(refused, Err(ResolveError::File(DurationError::UnknownUnit { .. }))));
}

#[test]
fn long_literals_take_the_days_that_the_caller_gives() {
    let file = config("[retention]\ntraces = \"1.0000000000000000001d\"\nlogs = \"2d\"\n");
    let mut policy = RetentionPolicy::default();
    policy.apply_file(&file, &RoundedDays { traces: 1, logs: 9, ..NONE }).unwrap();
    assert_eq!((policy.traces, policy.logs), (1, 2));
}
