use tael_server::alerts::AlertRule;
use tael_server::auth::{AuthMode, KeyStore, Role};
use tael_server::config::ServerConfig;
use tael_server::labels::Labels;
use tael_server::migrate::{batches, everything, migrate_duckdb, MigrationReport, ALL, BATCH};
use tael_server::scoring::ScoreLine;
use tael_server::server::{check_socket_path, choose_engine, cli_connect_flag, dd_agent_url, derive_window, engine_metric_points, online_scores, rest_endpoint_label, settle_listener, setup_auth, startup_banner, BlobGcOwnership, Engine, PathEntry, ServerOutputMode, ServerRunOptions};
use tael_server::sql::TraceComment;
use tael_server::time::Timestamp;

fn config(pairs: &[(&str, &str)]) -> ServerConfig {
    let mut env = Labels::new();
    env.insert("HOME".into(), "/h".into());
    for (k, v) in pairs {
        env.insert(k.to_string(), v.to_string());
    }
    ServerConfig::from_env(&env, &vec![])
}

fn at(secs: i64) -> Timestamp {
    Timestamp::new(secs, 0).unwrap()
}

#[test]
fn quiet_servers_keep_quiet() {
    assert!(ServerRunOptions::quiet().is_quiet());
    assert!(!ServerRunOptions::default().is_quiet());
    assert_eq!(ServerRunOptions::default().output, ServerOutputMode::Default);
}

#[test]
fn a_shared_blob_store_has_one_owner() {
    let owner = |pairs: &[(&str, &str)]| BlobGcOwnership::resolve(&config(pairs));
    assert_eq!(owner(&[]), BlobGcOwnership::Always);
    assert_eq!(owner(&[("TAEL_BLOB_STORE", "gcs")]), BlobGcOwnership::Never);
    assert_eq!(
        owner(&[("TAEL_BLOB_STORE", "gcs"), ("TAEL_BLOB_GC_ROLE", "coordinator")]),
        BlobGcOwnership::Always
    );
    let clustered = owner(&[
        ("TAEL_BLOB_STORE", "gcs"),
        ("TAEL_BLOB_GC_ROLE", "coordinator"),
        ("TAEL_CLUSTER_LISTEN", "0.0.0.0:1"),
    ]);
    assert_eq!(clustered, BlobGcOwnership::Leader);
    assert!(clustered.may_gc(true) && !clustered.may_gc(false));
    assert!(!BlobGcOwnership::Never.may_gc(true));
    assert!(BlobGcOwnership::Always.may_gc(false));
}

#[test]
fn engines_are_chosen_by_shards_then_storage() {
    assert_eq!(choose_engine(&config(&[]), false), Ok(Engine::Tael));
    assert_eq!(choose_engine(&config(&[("TAEL_STORAGE", "duckdb")]), true), Ok(Engine::DuckDb));
    let missing = choose_engine(&config(&[("TAEL_STORAGE", "duckdb")]), false).unwrap_err();
    assert!(missing.message().contains("--features duckdb"));
    let tier = config(&[("TAEL_STORAGE", "duckdb"), ("TAEL_QUERY_SHARDS", "http://a")]);
    assert_eq!(choose_engine(&tier, false), Ok(Engine::Fanout));
}

#[test]
fn a_reachable_server_without_keys_refuses_to_start() {
    let mut keys = KeyStore::new();
    assert_eq!(setup_auth(&config(&[]), &keys).unwrap(), AuthMode::Off);
    let open = config(&[("TAEL_OTLP_GRPC_ADDR", "0.0.0.0:4317"), ("TAEL_DATA_DIR", "/d")]);
    let refused = setup_auth(&open, &keys).unwrap_err();
    assert_eq!(refused.listener, "0.0.0.0:4317");
    let message = refused.message();
    assert!(message.starts_with("refusing to start"));
    assert!(message.contains("--data-dir /d\n"));
    assert!(message.ends_with("tael serve --auth off"));
    keys.create("k", Role::Writer, "default");
    assert_eq!(setup_auth(&open, &keys).unwrap(), AuthMode::Required);
    let told = config(&[("TAEL_OTLP_GRPC_ADDR", "0.0.0.0:4317"), ("TAEL_AUTH", "off")]);
    assert_eq!(setup_auth(&told, &KeyStore::new()).unwrap(), AuthMode::Off);
}

#[test]
fn a_socket_widens_no_reach() {
    let c = config(&[("TAEL_REST_API_ADDR", "0.0.0.0:7701"), ("TAEL_REST_API_SOCKET", "/s")]);
    assert_eq!(setup_auth(&c, &KeyStore::new()).unwrap(), AuthMode::Off);
    assert_eq!(rest_endpoint_label(&c), "unix:///s");
    assert_eq!(dd_agent_url(&c), "unix:///s");
    assert_eq!(cli_connect_flag(&c), " --unix-socket /s");
}

#[test]
fn clients_need_a_flag_off_the_default_address() {
    let flag = |addr: &str| cli_connect_flag(&config(&[("TAEL_REST_API_ADDR", addr)]));
    assert_eq!(flag("127.0.0.1:7701"), "");
    assert_eq!(flag("127.0.0.1:9000"), " --port-rest 9000");
    assert_eq!(flag("0.0.0.0:7701"), " --server http://0.0.0.0:7701");
    assert_eq!(flag("localhost:9000"), " --server http://localhost:9000");
    assert_eq!(flag("[::1]:7701"), " --server http://[::1]:7701");
    assert_eq!(flag("10.0.0.1:7701"), " --server http://10.0.0.1:7701");
    assert_eq!(flag("nowhere"), " --server http://nowhere");
}

#[test]
fn the_banner_says_where_to_connect() {
    let c = config(&[("TAEL_DATA_DIR", "/d"), ("TAEL_WAL_DIR", "/w")]);
    let lines = startup_banner(&c, &None, &None);
    assert_eq!(lines[0], "tael server starting");
    assert_eq!(lines[1], "  REST API     http://127.0.0.1:7701");
    assert_eq!(lines[3], "  OTLP HTTP    127.0.0.1:4318");
    assert_eq!(lines[4], "  dd-trace     127.0.0.1:8126");
    assert_eq!(lines[7], "  storage      TaelBackend");
    assert_eq!(lines[8], "");
    assert!(lines.contains(&"  tael services".to_string()));
    assert!(lines.iter().any(|l| l.contains("no exports needed")));
    assert_eq!(lines.len(), 25);
}

#[test]
fn the_banner_says_what_could_not_be_had() {
    let c = config(&[("TAEL_DD_AGENT_ADDR", "off"), ("TAEL_OTLP_HTTP_ADDR", "off")]);
    let lines = startup_banner(&c, &Some("x:1".to_string()), &None);
    assert_eq!(
        lines[3],
        "  OTLP HTTP    http://127.0.0.1:7701 (via REST listener)"
    );
    assert_eq!(
        lines[4],
        "  dd-trace     http://127.0.0.1:7701 (x:1 unavailable — another agent running?)"
    );
    assert!(lines.contains(&"  note: agent port x:1 was unavailable (another agent running?)".to_string()));
    assert!(lines.contains(&"  export DD_TRACE_AGENT_URL=http://127.0.0.1:7701".to_string()));
    assert_eq!(settle_listener(Some("a".into()), true), (Some("a".into()), None));
    assert_eq!(settle_listener(Some("a".into()), false), (None, Some("a".into())));
    assert_eq!(settle_listener(None, false), (None, None));
}

#[test]
fn a_socket_is_made_only_where_nothing_is() {
    assert!(check_socket_path("/s", PathEntry::Nothing).is_ok());
    assert_eq!(
        check_socket_path("/s", PathEntry::Socket).unwrap_err(),
        "REST Unix socket path already exists: /s. Remove it if no server is running."
    );
    assert_eq!(
        check_socket_path("/s", PathEntry::Other).unwrap_err(),
        "REST Unix socket path exists and is not a socket: /s"
    );
}

#[test]
fn the_server_reports_on_itself() {
    let points = engine_metric_points(
        &vec![
            ("tael.engine.compacted_rows".to_string(), 3.0f64.to_bits()),
            ("tael.engine.blobs_gcd".to_string(), 0.0f64.to_bits()),
        ],
        at(5),
    );
    assert_eq!(points.len(), 2);
    assert_eq!(points[0].name, "tael.engine.compacted_rows");
    assert_eq!(points[0].service, "tael");
    assert_eq!(f64::from_bits(points[0].value), 3.0);
    assert_eq!(points[1].timestamp, at(5));
}

#[test]
fn online_scores_carry_their_origin() {
    let scores = vec![ScoreLine {
        metric: "tone".into(),
        value: 1.0f64.to_bits(),
        rationale: None,
    }];
    let points = online_scores("judge", "0.05", "t1", "api", &scores, at(0));
    let get = |k: &str| points[0].attributes.get(k).map(String::as_str);
    assert_eq!(points[0].name, "tael_eval_score");
    assert_eq!(points[0].service, "api");
    assert_eq!(get("rule"), Some("judge"));
    assert_eq!(get("metric"), Some("tone"));
    assert_eq!(get("trace_id"), Some("t1"));
    assert_eq!(get("case_id"), Some("t1"));
    assert_eq!(get("source"), Some("online"));
    assert_eq!(get("sample"), Some("0.05"));
}

#[test]
fn derived_points_use_the_shortest_window() {
    let rule = |w: i64| AlertRule {
        name: format!("r{w}"),
        query: "m".into(),
        for_seconds: 0,
        window_seconds: w,
        sinks: Vec::new(),
        description: None,
        created_at: at(0),
    };
    assert_eq!(derive_window(&vec![]), 300);
    assert_eq!(derive_window(&vec![rule(600), rule(60), rule(120)]), 60);
    assert_eq!(derive_window(&vec![rule(900)]), 900);
}

fn comment(trace_id: &str, span_id: Option<&str>, author: &str, body: &str) -> TraceComment {
    TraceComment {
        id: "c".into(),
        trace_id: trace_id.into(),
        span_id: span_id.map(str::to_string),
        author: author.into(),
        body: body.into(),
        created_at: "2024-01-01T00:00:00Z".into(),
    }
}

#[test]
fn migrates_all_signals_and_comments() {
    let comments = vec![comment("t1", None, "tester", "note")];
    let dry = migrate_duckdb(3, 1, 1, &comments, true);
    assert_eq!(
        (dry.report.spans, dry.report.logs, dry.report.metrics, dry.report.comments),
        (3, 1, 1, 1)
    );
    assert!(dry.report.dry_run);
    assert!(dry.spans.is_empty() && dry.logs.is_empty() && dry.metrics.is_empty());
    assert!(dry.comments.is_empty());

    let run = migrate_duckdb(3, 1, 1, &comments, false);
    assert_eq!(run.report.spans, 3);
    assert_eq!(run.spans, vec![(0, 3)]);
    assert_eq!(run.comments.len(), 1);
    assert_eq!(run.comments[0].trace_id, "t1");
    let (traces, logs, metrics) = everything();
    assert_eq!((traces.limit, logs.limit, metrics.limit), (Some(ALL), Some(ALL), Some(ALL)));
    assert_eq!(MigrationReport::default().spans, 0);
}

#[test]
fn a_comment_is_copied_though_its_trace_has_no_span() {
    let comments = vec![
        comment("t1", Some("s1"), "a", "pinned"),
        comment("spanless", None, "b", "kept too"),
    ];
    let run = migrate_duckdb(0, 0, 0, &comments, false);
    assert_eq!(run.report.comments, 2);
    let copied: Vec<_> = run
        .comments
        .iter()
        .map(|c| (c.trace_id.as_str(), c.span_id.as_deref(), c.author.as_str(), c.body.as_str()))
        .collect();
    assert_eq!(copied, vec![("t1", Some("s1"), "a", "pinned"), ("spanless", None, "b", "kept too")]);
}

#[test]
fn records_are_written_in_portions() {
    assert!(batches(0).is_empty());
    assert_eq!(batches(BATCH), vec![(0, BATCH)]);
    assert_eq!(
        batches(2 * BATCH + 1),
        vec![(0, BATCH), (BATCH, 2 * BATCH), (2 * BATCH, 2 * BATCH + 1)]
    );
}
