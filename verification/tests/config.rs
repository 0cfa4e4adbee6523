use tael_server::auth::AuthMode;
use tael_server::config::{cluster_from_env, default_data_dir, default_tael_home, default_wal_dir, join_path, parse_csv, parse_dd_agent_addr, parse_otlp_http_addr, storage_flag, CommentsBackend, NodeRole, ServerConfig, StorageBackend, StoreLocation, DEFAULT_DD_AGENT_ADDR, DEFAULT_OTLP_HTTP_ADDR};
use tael_server::labels::Labels;

fn env(pairs: &[(&str, &str)]) -> Labels {
    let mut l = Labels::new();
    for (k, v) in pairs {
        l.insert(k.to_string(), v.to_string());
    }
    l
}

fn args(v: &[&str]) -> Vec<String> {
    v.iter().map(|s| s.to_string()).collect()
}

#[test]
fn dd_agent_addr_defaults_on_and_honors_off_values() {
    assert_eq!(
        parse_dd_agent_addr(None).as_deref(),
        Some(DEFAULT_DD_AGENT_ADDR)
    );
    assert_eq!(
        parse_dd_agent_addr(Some("0.0.0.0:8126".into())).as_deref(),
        Some("0.0.0.0:8126")
    );
    for off in ["off", "OFF", "none", "disabled", "false", "0", "  "] {
        assert_eq!(parse_dd_agent_addr(Some(off.into())), None, "{off}");
    }
}

#[test]
fn otlp_http_defaults_on() {
    assert_eq!(parse_otlp_http_addr(None).as_deref(), Some(DEFAULT_OTLP_HTTP_ADDR));
    assert_eq!(parse_otlp_http_addr(Some("off".into())), None);
    assert_eq!(parse_otlp_http_addr(Some(" Off ".into())), None);
    assert_eq!(parse_otlp_http_addr(Some(" [::1]:4318".into())).as_deref(), Some(" [::1]:4318"));
}

#[test]
fn an_empty_environment_gives_the_defaults() {
    let c = ServerConfig::from_env(&env(&[("HOME", "/home/u")]), &args(&["tael"]));
    assert_eq!(c.otlp_grpc_addr, "127.0.0.1:4317");
    assert_eq!(c.rest_api_addr, "127.0.0.1:7701");
    assert_eq!(c.rest_api_socket, None);
    assert_eq!(c.otlp_http_addr.as_deref(), Some("127.0.0.1:4318"));
    assert_eq!(c.dd_agent_addr.as_deref(), Some("127.0.0.1:8126"));
    assert_eq!(c.data_dir, "/home/u/.tael/data");
    assert_eq!(c.wal_dir, "/home/u/.tael/wal_files");
    assert_eq!(c.storage, StorageBackend::TaelBackend);
    assert_eq!(c.node_role, NodeRole::default());
    assert!(c.query_shards.is_empty() && c.wal_standbys.is_empty());
    assert_eq!(c.wal_required_acks, None);
    assert!(c.cluster.is_none());
    assert_eq!(c.auth, None);
    assert!(!c.multi_tenant);
}

#[test]
fn the_environment_is_read() {
    let c = ServerConfig::from_env(
        &env(&[
            ("TAEL_QUERY_SHARDS", " http://a , ,http://b"),
            ("TAEL_WAL_REQUIRED_ACKS", "2"),
            ("TAEL_AUTH", "required"),
            ("TAEL_MULTI_TENANT", "Yes"),
            ("TAEL_STORAGE", "duckdb"),
            ("TAEL_BLOB_STORE", "GCS"),
            ("TAEL_BLOB_GC_ROLE", "coordinator"),
        ]),
        &args(&["tael", "serve", "--storage", "tael-backend"]),
    );
    assert_eq!(c.query_shards, args(&["http://a", "http://b"]));
    assert_eq!(c.wal_required_acks, Some(2));
    assert_eq!(c.auth, Some(AuthMode::Required));
    assert!(c.multi_tenant);
    assert_eq!(c.storage, StorageBackend::TaelBackend);
    assert!(c.object_store.blobs_shared());
    assert!(c.object_store.blob_gc_coordinator);
}

#[test]
fn storage_flags_take_two_forms() {
    assert_eq!(storage_flag(&args(&["x"])), None);
    assert_eq!(
        storage_flag(&args(&["x", "--storage=duckdb"])),
        Some(StorageBackend::Duckdb)
    );
    assert_eq!(
        storage_flag(&args(&["x", "--storage", "duckdb"])),
        Some(StorageBackend::Duckdb)
    );
    assert_eq!(StorageBackend::parse("anything"), StorageBackend::TaelBackend);
    assert_eq!(StorageBackend::parse("duck"), StorageBackend::TaelBackend);
    assert_eq!(StorageBackend::parse(" DuckDB "), StorageBackend::Duckdb);
}

#[test]
fn isolated_tenants_are_tenants() {
    let c = ServerConfig::from_env(&env(&[("TAEL_TENANT_ISOLATION", "1")]), &args(&["x"]));
    assert!(c.tenant_isolation && c.multi_tenant);
    let c = ServerConfig::from_env(&env(&[("TAEL_MULTI_TENANT", "1")]), &args(&["x"]));
    assert!(!c.tenant_isolation && c.multi_tenant);
}

#[test]
fn paths_are_joined_as_on_unix() {
    assert_eq!(join_path("a", "b"), "a/b");
    assert_eq!(join_path("a/", "b"), "a/b");
    assert_eq!(join_path("", "b"), "b");
    assert_eq!(join_path("a", "/b"), "/b");
    let e = env(&[("HOME", "/h")]);
    assert_eq!(default_tael_home(&e), "/h/.tael");
    assert_eq!(default_data_dir(&e), "/h/.tael/data");
    assert_eq!(default_wal_dir(&e), "/h/.tael/wal_files");
}

#[test]
fn lists_are_split_at_commas() {
    assert_eq!(parse_csv("a, b,,c "), args(&["a", "b", "c"]));
    assert_eq!(parse_csv(" , "), args(&[]));
}

#[test]
fn a_cluster_is_configured_by_its_listen_address() {
    assert!(cluster_from_env(&env(&[])).is_none());
    let c = cluster_from_env(&env(&[
        ("TAEL_CLUSTER_LISTEN", "0.0.0.0:7800"),
        ("TAEL_NODE_ID", "n1"),
        ("TAEL_CLUSTER_SEEDS", "a:1,b:2"),
    ]))
    .unwrap();
    assert_eq!(c.listen_addr, "0.0.0.0:7800");
    assert_eq!(c.advertise_addr, "0.0.0.0:7800");
    assert_eq!(c.node_id, "n1");
    assert_eq!(c.cluster_id, "tael");
    assert_eq!(c.seeds, args(&["a:1", "b:2"]));
}

#[test]
fn locations_and_comments_have_names() {
    assert!(StoreLocation::parse("gcs").is_shared());
    assert!(!StoreLocation::parse("fs").is_shared());
    assert_eq!(CommentsBackend::parse("anything"), CommentsBackend::default());
}
