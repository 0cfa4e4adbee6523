use tael_server::auth::Role;
use tael_server::ingest::kafka::{admissible, advance, attached_principal, header_principal, judge_refusal, record_headers, signal_of, Applied, KafkaError, KafkaMode, KafkaSettings, OffsetStore, RecordHeaders, Signal};
use tael_server::ingest::otlp_http::ServiceCode;
use tael_server::labels::Labels;

fn env(pairs: &[(&str, &str)]) -> Labels {
    let mut l = Labels::new();
    for (k, v) in pairs {
        l.insert(k.to_string(), v.to_string());
    }
    l
}

#[test]
fn offsets_survive_reopen_and_track_per_partition() {
    let entries = {
        let mut store = OffsetStore::open(Vec::new());
        assert_eq!(store.next_offset("t", 0), None);
        store.commit("t", 0, 41);
        store.commit("t", 3, 7);
        store.commit("t", 0, 42);
        store.entries().clone()
    };
    let store = OffsetStore::open(entries);
    assert_eq!(store.next_offset("t", 0), Some(42));
    assert_eq!(store.next_offset("t", 3), Some(7));
    assert_eq!(store.next_offset("other", 0), None);
}

#[test]
fn header_principal_reconstructs_the_edge_tenant() {
    let mut headers = RecordHeaders {
        signal: None,
        tenant: None,
    };
    assert!(header_principal(&headers).is_none());
    headers.tenant = Some(b"team-a".to_vec());
    let p = header_principal(&headers).unwrap();
    assert_eq!(p.tenant, "team-a");
    assert_eq!(p.role, Role::Writer);
}

#[test]
fn settings_parse_and_validate() {
    let s = KafkaSettings {
        mode: KafkaMode::Consume,
        brokers: vec!["localhost:9092".into()],
        topic: "tael-ingest".into(),
        partitions: vec![0, 1],
    };
    assert_eq!(s.mode, KafkaMode::Consume);
    assert_eq!(s.partitions, vec![0, 1]);
}

#[test]
fn settings_are_read_from_the_environment() {
    assert!(matches!(KafkaSettings::from_env(&env(&[])), Ok(None)));
    let s = KafkaSettings::from_env(&env(&[
        ("TAEL_KAFKA_MODE", "consume"),
        ("TAEL_KAFKA_BROKERS", "a:1, b:2"),
        ("TAEL_KAFKA_PARTITIONS", "0,3"),
    ]))
    .unwrap()
    .unwrap();
    assert_eq!(s.mode, KafkaMode::Consume);
    assert_eq!(s.brokers, vec!["a:1".to_string(), "b:2".to_string()]);
    assert_eq!(s.partitions, vec![0, 3]);
    let bad = |pairs: &[(&str, &str)]| KafkaSettings::from_env(&env(pairs)).unwrap_err();
    assert!(matches!(bad(&[("TAEL_KAFKA_MODE", "both")]), KafkaError::UnknownMode(_)));
    assert!(matches!(bad(&[("TAEL_KAFKA_MODE", "produce")]), KafkaError::NoBrokers));
    assert!(matches!(
        bad(&[("TAEL_KAFKA_MODE", "consume"), ("TAEL_KAFKA_BROKERS", "a")]),
        KafkaError::NoPartitions
    ));
    assert!(matches!(
        bad(&[
            ("TAEL_KAFKA_MODE", "consume"),
            ("TAEL_KAFKA_BROKERS", "a"),
            ("TAEL_KAFKA_PARTITIONS", "x")
        ]),
        KafkaError::BadPartition
    ));
    assert!(!bad(&[("TAEL_KAFKA_MODE", "both")]).message().is_empty());
}

#[test]
fn headers_carry_the_signal_and_the_tenant() {
    for signal in [Signal::Traces, Signal::Logs, Signal::Metrics] {
        let h = record_headers(signal, &Some("team-a".to_string()));
        assert!(signal_of(&h) == Some(signal));
        assert_eq!(header_principal(&h).unwrap().tenant, "team-a");
        assert!(admissible(true, &h) == Some(signal));
        assert!(admissible(false, &h).is_none());
        let writer = attached_principal(true, &h).unwrap();
        assert_eq!((writer.key_id.as_str(), writer.name.as_str()), ("kafka-buffer", "kafka-buffer"));
        assert_eq!((writer.role, writer.tenant.as_str()), (Role::Writer, "team-a"));
        assert!(attached_principal(false, &h).is_none());
    }
    let h = record_headers(Signal::Traces, &None);
    assert!(h.tenant.is_none());
    let odd = RecordHeaders {
        signal: Some(b"smoke".to_vec()),
        tenant: Some(vec![0x66, 0xff]),
    };
    assert!(signal_of(&odd).is_none());
    assert_eq!(header_principal(&odd).unwrap().tenant, "f\u{fffd}");
}

#[test]
fn only_settled_records_advance() {
    assert_eq!(advance(5, 9, Applied::Done), 10);
    assert_eq!(advance(5, 9, Applied::Poison), 10);
    assert_eq!(advance(5, 9, Applied::Retry), 5);
    assert!(matches!(judge_refusal(ServiceCode::InvalidArgument), Applied::Poison));
    assert!(matches!(judge_refusal(ServiceCode::ResourceExhausted), Applied::Retry));
}
