use rmpv::Value;
use tael_server::ingest::datadog::{convert_chunk, convert_chunks, decode_v05, decoding, take_payload, DdSpan, Decoding, TableError, TracesVersion};
use tael_server::labels::Labels;
use tael_server::spans::{SpanDuration, SpanKind, SpanStatus};

fn labels(pairs: &[(&str, &str)]) -> Labels {
    let mut l = Labels::new();
    for (k, v) in pairs {
        l.insert(k.to_string(), v.to_string());
    }
    l
}

fn s(v: &str) -> Value {
    Value::from(v)
}

fn encode(v: &Value) -> Vec<u8> {
    let mut buf = Vec::new();
    rmpv::encode::write_value(&mut buf, v).unwrap();
    buf
}

fn table_span() -> Value {
    Value::Array(vec![
        Value::from(1u64),
        Value::from(2u64),
        Value::from(3u64),
        Value::from(42u64),
        Value::from(7u64),
        Value::from(0u64),
        Value::from(1_700_000_000_000_000_000_i64),
        Value::from(5_000_000_i64),
        Value::from(0),
        Value::Map(vec![(Value::from(5u64), Value::from(6u64))]),
        Value::Map(vec![]),
        Value::from(4u64),
    ])
}

fn strings() -> Value {
    Value::Array(vec![
        s(""),
        s("billing"),
        s("db.query"),
        s("SELECT 1"),
        s("sql"),
        s("peer.host"),
        s("db1"),
    ])
}

#[test]
fn decodes_v05_string_table_payload() {
    let payload = Value::Array(vec![
        strings(),
        Value::Array(vec![Value::Array(vec![table_span()])]),
    ]);
    let chunks = decode_v05(&encode(&payload)).unwrap();
    let dd = &chunks[0][0];
    assert_eq!(dd.service, "billing");
    assert_eq!(dd.name, "db.query");
    assert_eq!(dd.resource, "SELECT 1");
    assert_eq!(dd.span_type, "sql");
    assert_eq!(dd.meta.get("peer.host").map(String::as_str), Some("db1"));
    assert_eq!(dd.trace_id, 42);
    assert_eq!(dd.duration, 5_000_000);
}

fn fault(v: Value) -> String {
    decode_v05(&encode(&v)).unwrap_err().message()
}

#[test]
fn malformed_tables_say_what_is_wrong() {
    assert!(matches!(decode_v05(&vec![]), Err(TableError::Malformed)));
    let one = decode_v05(&encode(&Value::Array(vec![strings()])));
    assert!(matches!(one, Err(TableError::NotAPair)));
    let e = decode_v05(&encode(&Value::Array(vec![s("x"), Value::Array(vec![])])));
    assert!(matches!(e, Err(TableError::TableNotAnArray)));
    let e = decode_v05(&encode(&Value::Array(vec![strings(), s("x")])));
    assert!(matches!(e, Err(TableError::TracesNotAnArray)));
    let e = decode_v05(&encode(&Value::Array(vec![strings(), Value::Array(vec![s("x")])])));
    assert!(matches!(e, Err(TableError::TraceNotAnArray)));
    let e = decode_v05(&encode(&Value::Array(vec![
        strings(),
        Value::Array(vec![Value::Array(vec![s("x")])]),
    ])));
    assert!(matches!(e, Err(TableError::SpanNotAnArray)));
    let short = Value::Array(vec![
        strings(),
        Value::Array(vec![Value::Array(vec![Value::Array(vec![s("x")])])]),
    ]);
    assert!(fault(short).contains('1'));
}

#[test]
fn a_payload_is_decoded_by_version_and_content_type() {
    let json = Some("application/json".to_string());
    assert!(matches!(decoding(TracesVersion::V04, &json), Decoding::Json));
    assert!(matches!(decoding(TracesVersion::V04, &None), Decoding::MsgpackMaps));
    assert!(matches!(decoding(TracesVersion::V05, &None), Decoding::MsgpackTable));
}

#[test]
fn converts_span_fields() {
    let dd = DdSpan {
        service: "billing".into(),
        name: "http.request".into(),
        resource: "GET /users/:id".into(),
        trace_id: 42,
        span_id: 7,
        parent_id: 3,
        start: 1_700_000_000_000_000_000,
        duration: 250_000_000,
        error: 1,
        meta: labels(&[("span.kind", "server")]),
        metrics: labels(&[("retries", &2.0f64.to_string())]),
        span_type: "web".into(),
    };
    let spans = convert_chunk(&vec![dd]);
    let span = &spans[0];
    assert_eq!(span.trace_id, format!("{:016x}{:016x}", 0, 42));
    assert_eq!(span.span_id, format!("{:016x}", 7));
    assert_eq!(span.parent_span_id.as_deref(), Some("0000000000000003"));
    assert_eq!(span.service, "billing");
    assert_eq!(span.operation, "http.request");
    assert_eq!(span.duration, SpanDuration::Nanos(250_000_000));
    assert_eq!(span.status, SpanStatus::Error);
    assert_eq!(span.kind, SpanKind::Server);
    assert_eq!(
        span.attributes.get("resource.name").map(String::as_str),
        Some("GET /users/:id")
    );
    assert_eq!(
        span.attributes.get("span.type").map(String::as_str),
        Some("web")
    );
    assert_eq!(
        span.attributes.get("retries").map(String::as_str),
        Some("2")
    );
    assert_eq!(span.end_time.nanos_since(&span.start_time) / 1_000_000, 250);
}

#[test]
fn widens_trace_id_from_chunk_root_tid_tag() {
    let root = DdSpan {
        trace_id: 42,
        span_id: 1,
        meta: labels(&[("_dd.p.tid", "640cfd8d00000000")]),
        ..Default::default()
    };
    let child = DdSpan {
        trace_id: 42,
        span_id: 2,
        parent_id: 1,
        ..Default::default()
    };
    let spans = convert_chunk(&vec![root, child]);
    assert_eq!(spans[0].trace_id, "640cfd8d00000000000000000000002a");
    assert_eq!(spans[1].trace_id, spans[0].trace_id);
}

#[test]
fn promotes_genai_meta_to_llm_span() {
    let dd = DdSpan {
        service: "agent".into(),
        name: "llm.call".into(),
        trace_id: 1,
        span_id: 1,
        meta: labels(&[
            ("gen_ai.system", "anthropic"),
            ("gen_ai.request.model", "model-5"),
        ]),
        ..Default::default()
    };
    let spans = convert_chunk(&vec![dd]);
    assert_eq!(spans[0].kind, SpanKind::Llm);
    let llm = spans[0].llm.as_ref().expect("LLM extension");
    assert_eq!(llm.provider, "anthropic");
    assert_eq!(llm.model, "model-5");
}

#[test]
fn empty_service_falls_back_to_unknown() {
    let spans = convert_chunk(&vec![DdSpan {
        trace_id: 1,
        span_id: 1,
        ..Default::default()
    }]);
    assert_eq!(spans[0].service, "unknown");
}

#[test]
fn a_string_tag_wins_over_a_number_of_the_same_name() {
    let dd = DdSpan {
        meta: labels(&[("n", "text")]),
        metrics: labels(&[("n", "1"), ("m", "2")]),
        ..Default::default()
    };
    let spans = convert_chunk(&vec![dd]);
    assert_eq!(spans[0].attributes.get("n").map(String::as_str), Some("text"));
    assert_eq!(spans[0].attributes.get("m").map(String::as_str), Some("2"));
}

#[test]
fn chunks_are_converted_in_order() {
    let span = |id: u64| DdSpan {
        span_id: id,
        ..Default::default()
    };
    let spans = convert_chunks(&vec![vec![span(1), span(2)], vec![], vec![span(3)]]);
    let ids: Vec<&str> = spans.iter().map(|s| s.span_id.as_str()).collect();
    assert_eq!(
        ids,
        vec!["0000000000000001", "0000000000000002", "0000000000000003"]
    );
}

#[test]
fn a_payload_leaves_the_attributes() {
    let dd = DdSpan {
        meta: labels(&[("gen_ai.system", "anthropic"), ("gen_ai.prompt", "hi")]),
        ..Default::default()
    };
    let mut spans = convert_chunk(&vec![dd]);
    let draft = take_payload(spans.remove(0));
    assert_eq!(draft.prompt.as_deref(), Some("hi"));
    assert_eq!(draft.completion, None);
    assert!(draft.span.attributes.get("gen_ai.prompt").is_none());
}
