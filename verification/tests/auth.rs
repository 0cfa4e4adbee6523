use tael_server::auth::{constant_time_eq, default_tenant, ApiKeyRecord, AuthMode, KeyStore, Principal, Role};
use tael_server::authz::{authorize, authorize_grpc, forbidden, is_public, presented_key, required_role, Decision, KeyHeaders};
use tael_server::crypto::{now, random_hex, sha256_of};
use tael_server::time::Timestamp;

fn headers(authorization: Option<&str>, key: Option<&str>, dd: Option<&str>) -> KeyHeaders {
    KeyHeaders {
        authorization: authorization.map(|s| s.to_string()),
        x_tael_api_key: key.map(|s| s.to_string()),
        dd_api_key: dd.map(|s| s.to_string()),
    }
}

fn allowed(d: &Decision) -> bool {
    matches!(d, Decision::Allow(_))
}

#[test]
fn roles_subsume_lower_roles() {
    assert!(Role::Admin.satisfies(Role::Reader));
    assert!(Role::Admin.satisfies(Role::Writer));
    assert!(Role::Writer.satisfies(Role::Reader));
    assert!(!Role::Reader.satisfies(Role::Writer));
    assert!(!Role::Writer.satisfies(Role::Admin));
}

#[test]
fn key_prefix_encodes_its_role() {
    let mut store = KeyStore::default();
    let (_, reader) = store.create("r", Role::Reader, "default");
    let (_, writer) = store.create("w", Role::Writer, "default");
    let (_, admin) = store.create("a", Role::Admin, "default");
    assert!(reader.starts_with("tael_r_"));
    assert!(writer.starts_with("tael_w_"));
    assert!(admin.starts_with("tael_a_"));
}

#[test]
fn authenticates_only_the_matching_plaintext() {
    let mut store = KeyStore::default();
    let (record, plaintext) = store.create("agent-one", Role::Writer, "default");

    let principal = store.authenticate(&plaintext).expect("key should resolve");
    assert_eq!(principal.key_id, record.id);
    assert_eq!(principal.role, Role::Writer);
    assert_eq!(principal.name, "agent-one");

    assert!(store.authenticate("tael_w_deadbeef").is_none());
    assert!(store.authenticate("").is_none());
}

#[test]
fn revoked_keys_stop_authenticating() {
    let mut store = KeyStore::default();
    let (record, plaintext) = store.create("temp", Role::Reader, "default");
    assert!(store.authenticate(&plaintext).is_some());

    assert!(store.revoke(&record.id));
    assert!(store.authenticate(&plaintext).is_none());
    assert!(!store.revoke(&record.id));
    assert!(!store.has_active_keys());
}

#[test]
fn plaintext_is_not_recoverable_from_the_keystore() {
    let mut store = KeyStore::default();
    let (_, plaintext) = store.create("secret", Role::Admin, "default");
    let shown = format!("{:?}", store.keys);
    assert!(
        !shown.contains(&plaintext),
        "keystore must not hold the plaintext key"
    );
}

#[test]
fn loopback_listeners_default_to_no_auth() {
    let mode = AuthMode::resolve(None, &["127.0.0.1:7701", "127.0.0.1:4317", "[::1]:4318"]);
    assert_eq!(mode, AuthMode::Off);
    assert_eq!(AuthMode::resolve(None, &["localhost:7701"]), AuthMode::Off);
}

#[test]
fn off_box_listeners_default_to_required_auth() {
    assert_eq!(
        AuthMode::resolve(None, &["127.0.0.1:7701", "0.0.0.0:4317"]),
        AuthMode::Required
    );
    assert_eq!(
        AuthMode::resolve(None, &["192.168.1.5:7701"]),
        AuthMode::Required
    );
    assert_eq!(AuthMode::resolve(None, &["[::]:7701"]), AuthMode::Required);
    assert_eq!(
        AuthMode::resolve(None, &["telemetry.internal:7701"]),
        AuthMode::Required
    );
}

#[test]
fn explicit_mode_overrides_the_listener_heuristic() {
    assert_eq!(
        AuthMode::resolve(Some(AuthMode::Off), &["0.0.0.0:7701"]),
        AuthMode::Off
    );
    assert_eq!(
        AuthMode::resolve(Some(AuthMode::Required), &["127.0.0.1:7701"]),
        AuthMode::Required
    );
}

#[test]
fn auth_mode_and_role_parse_their_aliases() {
    assert_eq!(AuthMode::parse("required").unwrap(), AuthMode::Required);
    assert_eq!(AuthMode::parse("OFF").unwrap(), AuthMode::Off);
    assert!(AuthMode::parse("maybe").is_err());
    assert_eq!(Role::parse("Admin").unwrap(), Role::Admin);
    assert!(Role::parse("superuser").is_err());
}

#[test]
fn unknown_words_are_named() {
    assert_eq!(
        AuthMode::parse(" Maybe ").unwrap_err().message(),
        "unknown auth mode `maybe` (expected off or required)"
    );
    assert_eq!(
        Role::parse("superuser").unwrap_err().message(),
        "unknown role `superuser` (expected reader, writer, or admin)"
    );
    assert_eq!(Role::Writer.as_str(), "writer");
    assert_eq!(AuthMode::default(), AuthMode::Off);
}

#[test]
fn a_loopback_host_takes_many_forms() {
    for addr in ["127.9.9.9:1", "[::1]:2", "localhost", "localhost:80"] {
        assert_eq!(AuthMode::resolve(None, &[addr]), AuthMode::Off, "{addr}");
    }
    for addr in [":7701", "LOCALHOST:80", "128.0.0.1:1", "127.0.0.256:1", "[::2]:1", "[::ffff:127.0.0.1]:1"] {
        assert_eq!(AuthMode::resolve(None, &[addr]), AuthMode::Required, "{addr}");
    }
    assert_eq!(AuthMode::resolve(None, &[]), AuthMode::Off);
}

#[test]
fn a_key_is_stored_as_a_salted_digest() {
    let mut store = KeyStore::new();
    let (record, plaintext) = store.create("agent", Role::Reader, "team-a");
    assert_eq!(plaintext.len(), "tael_r_".len() + 48);
    let mut salted = record.salt.clone().into_bytes();
    salted.extend_from_slice(plaintext.as_bytes());
    let digest: String = sha256_of(&salted).iter().map(|b| format!("{b:02x}")).collect();
    assert_eq!(record.hash, digest);
    assert_eq!(store.authenticate(&plaintext).unwrap().tenant, "team-a");
    assert_eq!(default_tenant(), "default");
}

#[test]
fn sha256_of_a_known_text() {
    let digest: String = sha256_of(&b"abc".to_vec()).iter().map(|b| format!("{b:02x}")).collect();
    assert_eq!(
        digest,
        "ba7816bf8f01cfea414140de5dae2223b00361a396177a9cb410ff61f20015ad"
    );
}

#[test]
fn random_texts_have_two_digits_to_a_byte() {
    let a = random_hex(16);
    assert_eq!(a.len(), 32);
    assert!(a.chars().all(|c| c.is_ascii_hexdigit() && !c.is_ascii_uppercase()));
    assert_ne!(a, random_hex(16));
}

#[test]
fn the_clock_is_past_the_start_of_the_century() {
    assert!(now().seconds() > 946_684_800);
}

#[test]
fn comparing_digests_looks_at_every_byte() {
    assert!(constant_time_eq(b"abc", b"abc"));
    assert!(!constant_time_eq(b"abc", b"abd"));
    assert!(!constant_time_eq(b"abc", b"ab"));
    assert!(constant_time_eq(b"", b""));
}

#[test]
fn a_record_is_active_until_it_is_revoked() {
    let t = Timestamp::new(1_700_000_000, 0).unwrap();
    let mut store = KeyStore::new();
    store.create("a", Role::Reader, "default");
    let (b, _) = store.create("b", Role::Reader, "default");
    assert!(store.revoke_at(&b.id, t));
    assert!(store.keys[0].is_active());
    assert!(!store.keys[1].is_active());
    assert_eq!(store.keys[1].revoked_at, Some(t));
    assert!(store.has_active_keys());
    assert!(!store.revoke_at("no-such-key", t));
}

#[test]
fn an_anonymous_caller_may_do_everything() {
    let p = Principal::anonymous();
    assert_eq!(p.key_id, "anonymous");
    assert_eq!(p.role, Role::Admin);
    assert_eq!(p.tenant, "default");
}

#[test]
fn auth_off_lets_everything_through() {
    let keys = KeyStore::new();
    let d = authorize(AuthMode::Off, &keys, "GET", "/api/v1/traces", &headers(None, None, None));
    assert!(allowed(&d));
    let d = authorize(AuthMode::Off, &keys, "POST", "/v1/traces", &headers(None, None, None));
    assert!(allowed(&d));
}

#[test]
fn required_auth_rejects_missing_and_bad_keys() {
    let mut keys = KeyStore::new();
    keys.create("k", Role::Reader, "default");
    let d = authorize(AuthMode::Required, &keys, "GET", "/api/v1/traces", &headers(None, None, None));
    assert!(matches!(d, Decision::MissingKey));
    let d = authorize(
        AuthMode::Required,
        &keys,
        "GET",
        "/api/v1/traces",
        &headers(Some("Bearer tael_r_nope"), None, None),
    );
    assert!(matches!(d, Decision::InvalidKey));
}

#[test]
fn reader_keys_can_read_but_not_write() {
    let mut keys = KeyStore::new();
    let (_, key) = keys.create("k", Role::Reader, "default");
    let bearer = format!("Bearer {key}");
    let h = headers(Some(&bearer), None, None);
    assert!(allowed(&authorize(AuthMode::Required, &keys, "GET", "/api/v1/traces", &h)));
    let d = authorize(AuthMode::Required, &keys, "POST", "/v1/traces", &h);
    assert!(matches!(d, Decision::Forbidden { have: Role::Reader, need: Role::Writer }));
    assert!(forbidden(Role::Reader, Role::Writer).contains("writer"));
}

#[test]
fn writer_keys_can_ingest() {
    let mut keys = KeyStore::new();
    let (_, key) = keys.create("k", Role::Writer, "default");
    let bearer = format!("Bearer {key}");
    let d = authorize(
        AuthMode::Required,
        &keys,
        "POST",
        "/v1/traces",
        &headers(Some(&bearer), None, None),
    );
    assert!(allowed(&d));
    assert!(allowed(&authorize_grpc(AuthMode::Required, &keys, &Some(bearer), &None)));
    assert!(matches!(
        authorize_grpc(AuthMode::Required, &keys, &None, &None),
        Decision::MissingKey
    ));
    assert!(allowed(&authorize_grpc(AuthMode::Off, &keys, &None, &None)));
}

#[test]
fn health_endpoints_stay_public_under_required_auth() {
    let keys = KeyStore::new();
    for path in ["/healthz", "/readyz"] {
        assert!(is_public(path));
        let d = authorize(AuthMode::Required, &keys, "GET", path, &headers(None, None, None));
        assert!(allowed(&d), "{path}");
    }
    assert!(!is_public("/api/v1/traces"));
}

#[test]
fn dd_api_key_header_is_accepted() {
    let mut keys = KeyStore::new();
    let (_, key) = keys.create("k", Role::Writer, "default");
    let d = authorize(
        AuthMode::Required,
        &keys,
        "PUT",
        "/v0.4/traces",
        &headers(None, None, Some(&key)),
    );
    assert!(allowed(&d));
}

#[test]
fn a_key_is_looked_for_in_three_headers() {
    assert_eq!(presented_key(&headers(None, None, None)), None);
    assert_eq!(
        presented_key(&headers(Some("Bearer abc"), Some("def"), Some("ghi"))).as_deref(),
        Some("abc")
    );
    assert_eq!(
        presented_key(&headers(None, Some("def"), Some("ghi"))).as_deref(),
        Some("def")
    );
    assert_eq!(presented_key(&headers(None, None, Some("ghi"))).as_deref(), Some("ghi"));
}

#[test]
fn reads_and_writes_need_different_roles() {
    assert_eq!(required_role("GET", "/api/v1/traces"), Role::Reader);
    assert_eq!(required_role("POST", "/v1/traces"), Role::Writer);
}

#[test]
fn a_made_up_record_authenticates_nothing() {
    let t = Timestamp::new(0, 0).unwrap();
    let store = KeyStore {
        keys: vec![ApiKeyRecord {
            id: "key_1".into(),
            name: "n".into(),
            role: Role::Admin,
            hash: "00".into(),
            salt: "11".into(),
            created_at: t,
            revoked_at: None,
            tenant: "default".into(),
        }],
    };
    assert!(store.has_active_keys());
    assert!(store.authenticate("tael_a_00").is_none());
}

#[test]
fn every_key_that_stands_authenticates() {
    let mut store = KeyStore::new();
    let keys: Vec<_> = ["a", "b", "c"]
        .into_iter()
        .map(|name| store.create(name, Role::Reader, "default"))
        .collect();
    assert!(store.revoke(&keys[1].0.id));
    store.create("d", Role::Admin, "default");
    for (i, (record, plaintext)) in keys.iter().enumerate() {
        let id = store.authenticate(&format!(" {plaintext}\n")).map(|p| p.key_id);
        assert_eq!(id, if i == 1 { None } else { Some(record.id.clone()) });
    }
    assert!(!store.revoke(&keys[1].0.id));
}
