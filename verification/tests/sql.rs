use tael_server::labels::Labels;
use tael_server::metrics::{MetricPoint, MetricType};
use tael_server::sql::{comments_batch, contribution, guard_read_only, logs_batch, metrics_batch, row_limit, row_value, source_queries, spans_batch, Cell, Column, ColumnKind, GuardError, MetricRow, RowValue, Scalar, SpanRow, TraceComment};
use tael_server::spans::LogRecord;
use tael_server::time::Timestamp;

#[test]
fn mutations_are_rejected() {
    for sql in [
        "DROP TABLE spans",
        "DELETE FROM spans",
        "INSERT INTO spans VALUES (1)",
        "UPDATE spans SET service = 'x'",
        "CREATE TABLE evil (a INT)",
    ] {
        assert!(guard_read_only(sql).is_err(), "`{sql}` should be rejected");
    }
}

#[test]
fn a_second_statement_cannot_ride_along() {
    assert!(guard_read_only("SELECT 1; DROP TABLE spans").is_err());
    assert!(guard_read_only("SELECT COUNT(*) AS n FROM spans;").is_ok());
    assert!(guard_read_only("SELECT 'a;b' AS s").is_ok());
}

#[test]
fn with_and_explain_are_allowed() {
    assert!(guard_read_only("WITH t AS (SELECT 1 AS n) SELECT COUNT(*) AS c FROM t").is_ok());
    assert!(guard_read_only("EXPLAIN SELECT * FROM spans").is_ok());
}

#[test]
fn a_refused_statement_says_why() {
    let e = guard_read_only("  drop table spans").unwrap_err();
    assert!(matches!(e, GuardError::NotARead(_)));
    assert!(e.message().contains("DROP"));
    let e = guard_read_only("select 1; select 2").unwrap_err();
    assert_eq!(e.message(), "multiple SQL statements are not allowed");
    assert!(guard_read_only("select 1 ; ").is_ok());
    assert!(guard_read_only("SELECT 1 AS \"a'\"; DROP TABLE spans").is_err());
    assert!(guard_read_only("SELECT 1 AS `a'`; DROP TABLE spans").is_err());
    assert!(guard_read_only("SELECT 1 -- it's one\n; DROP TABLE spans").is_err());
    assert!(guard_read_only("SELECT /* it's /* 1 */ ' */ 1; DROP TABLE spans").is_err());
    assert!(guard_read_only("SELECT 1 AS \"a'\", 'it''s; one' - 1 AS s").is_ok());
    assert!(guard_read_only("SELECT '--', 4 / 2, ';' AS s").is_ok());
    assert!(guard_read_only("").is_err());
}

fn at(secs: i64) -> Timestamp {
    Timestamp::new(secs, 0).unwrap()
}

fn column<'a>(columns: &'a [Column], name: &str) -> &'a Column {
    columns.iter().find(|c| c.name == name).unwrap()
}

fn text_of(c: &Cell) -> Option<&str> {
    match c {
        Cell::Text(s) => Some(s),
        _ => None,
    }
}

#[test]
fn llm_fields_are_columns_of_their_own() {
    let mut attributes = Labels::new();
    attributes.insert("b".into(), "2".into());
    attributes.insert("a\"".into(), "1\n".into());
    let row = SpanRow {
        trace_id: "t".into(),
        span_id: "s".into(),
        parent_span_id: None,
        service: "svc".into(),
        operation: "op".into(),
        start_time: at(0),
        end_time: at(1),
        duration_ms: 1000.0f64.to_bits(),
        status: "ok".into(),
        kind: "llm".into(),
        attributes,
        events: "[]".into(),
        llm: Some("{}".into()),
        llm_provider: Some("anthropic".into()),
        llm_model: Some("m".into()),
        input_tokens: Some(5),
        output_tokens: None,
        total_tokens: Some(5),
        cost_usd: Some(0.5f64.to_bits()),
    };
    let columns = spans_batch(&vec![row]);
    assert!(columns.iter().all(|c| c.cells.len() == 1));
    assert_eq!(text_of(&column(&columns, "start_time").cells[0]), Some("1970-01-01T00:00:00+00:00"));
    assert_eq!(
        text_of(&column(&columns, "attributes").cells[0]),
        Some("{\"a\\\"\":\"1\\n\",\"b\":\"2\"}")
    );
    assert!(matches!(column(&columns, "parent_span_id").cells[0], Cell::Null));
    assert!(column(&columns, "parent_span_id").nullable);
    assert!(!column(&columns, "trace_id").nullable);
    assert!(matches!(column(&columns, "duration_ms").kind, ColumnKind::Double));
    let tokens: Vec<&Column> = columns.iter().filter(|c| matches!(c.kind, ColumnKind::Integer)).collect();
    assert_eq!(tokens.len(), 3);
}

#[test]
fn empty_tables_still_answer() {
    assert!(spans_batch(&vec![]).iter().all(|c| c.cells.is_empty()));
    assert!(!logs_batch(&vec![]).is_empty());
    assert!(!metrics_batch(&vec![]).is_empty());
    assert!(!comments_batch(&vec![]).is_empty());
}

#[test]
fn every_signal_has_a_table() {
    let logs = logs_batch(&vec![LogRecord {
        timestamp: at(0),
        observed_timestamp: at(0),
        trace_id: Some("t".into()),
        span_id: None,
        severity: "error".into(),
        severity_text: "ERROR".into(),
        body: "boom".into(),
        service: "svc".into(),
        attributes: Labels::new(),
        body_sha256: None,
    }]);
    assert_eq!(text_of(&column(&logs, "body").cells[0]), Some("boom"));
    assert_eq!(text_of(&column(&logs, "attributes").cells[0]), Some("{}"));
    let metrics = metrics_batch(&vec![MetricRow {
        point: MetricPoint {
            timestamp: at(0),
            service: "svc".into(),
            name: "m".into(),
            metric_type: MetricType::Gauge,
            value: 2.5f64.to_bits(),
            unit: String::new(),
            attributes: Labels::new(),
            histogram: None,
        },
        metric_type: "gauge".into(),
    }]);
    assert!(matches!(column(&metrics, "value").cells[0], Cell::Double(b) if b == 2.5f64.to_bits()));
    let comments = comments_batch(&vec![TraceComment {
        id: "1".into(),
        trace_id: "t".into(),
        span_id: None,
        author: "me".into(),
        body: "note".into(),
        created_at: "now".into(),
    }]);
    assert_eq!(text_of(&column(&comments, "author").cells[0]), Some("me"));
}

#[test]
fn values_come_back_as_json_has_them() {
    assert!(matches!(row_value(Scalar::Null), RowValue::Null));
    assert!(matches!(row_value(Scalar::Flag(true)), RowValue::Flag(true)));
    assert!(matches!(row_value(Scalar::Integer(-1)), RowValue::Integer(-1)));
    assert!(matches!(row_value(Scalar::Double(f64::NAN.to_bits())), RowValue::Null));
    assert!(matches!(row_value(Scalar::Shown("x".into())), RowValue::Text(s) if s == "x"));
    let (traces, logs, metrics) = source_queries();
    assert_eq!(traces.limit, Some(row_limit()));
    let part = contribution("spans", 199_999);
    assert_eq!((part.table.as_str(), part.rows, part.truncated), ("spans", 199_999, false));
    assert!(contribution("logs", 200_000).truncated);
    assert_eq!(logs.limit, metrics.limit);
}
