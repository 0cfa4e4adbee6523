//! OTLP log intake: what the records of an export request become.

use crate::crypto::hex_encode;
use crate::ingest::otlp::{attribute_map, kv_to_map, optional_id, service_name, service_of, text_of, value_text, AnyValue, KeyValue};
use crate::spans::{stamp_attributes, stamped, LogModel, LogRecord, TenantStamp};
use crate::text::{is_blank, opt_text, raised, to_upper, trimmed};
use crate::time::{at, Timestamp};
use vstd::prelude::*;

verus! {

/// Log bodies of more bytes than this are offloaded to the blob store.
pub const LOG_BODY_BLOB_THRESHOLD: usize = 8192;

/// A record as OTLP sends it.
#[derive(Debug)]
pub struct OtelLog {
    pub time_unix_nano: u64,
    pub observed_time_unix_nano: u64,
    pub severity_number: i32,
    pub severity_text: String,
    pub body: Option<AnyValue>,
    pub attributes: Vec<KeyValue>,
    pub trace_id: Vec<u8>,
    pub span_id: Vec<u8>,
}

#[derive(Debug)]
pub struct ScopeLogs {
    pub log_records: Vec<OtelLog>,
}

#[derive(Debug)]
pub struct ResourceLogs {
    pub resource: Option<Vec<KeyValue>>,
    pub scope_logs: Vec<ScopeLogs>,
}

pub open spec fn body_of(body: Option<AnyValue>) -> Seq<char> {
    match body {
        Some(v) => match value_text(v) {
            Some(t) => t,
            None => Seq::empty(),
        },
        None => Seq::empty(),
    }
}

/// The name of a severity by its number: OTLP has four numbers to each of six
/// severities, and leaves the others unspecified.
pub open spec fn severity_of(number: i32) -> Seq<char> {
    if 1 <= number <= 4 {
        "trace"@
    } else if 5 <= number <= 8 {
        "debug"@
    } else if 9 <= number <= 12 {
        "info"@
    } else if 13 <= number <= 16 {
        "warn"@
    } else if 17 <= number <= 20 {
        "error"@
    } else if 21 <= number <= 24 {
        "fatal"@
    } else {
        "unspecified"@
    }
}

pub fn severity_name(number: i32) -> (r: &'static str)
    ensures
        r@ == severity_of(number),
{
    if 1 <= number && number <= 4 {
        "trace"
    } else if 5 <= number && number <= 8 {
        "debug"
    } else if 9 <= number && number <= 12 {
        "info"
    } else if 13 <= number && number <= 16 {
        "warn"
    } else if 17 <= number && number <= 20 {
        "error"
    } else if 21 <= number && number <= 24 {
        "fatal"
    } else {
        "unspecified"
    }
}

/// What a record of a service is stored as, with its body still in it. Where
/// the client sends no severity text, the severity's name in upper case
/// stands in for it.
pub open spec fn log_of(service: Seq<char>, l: OtelLog) -> LogModel {
    LogModel {
        instant: at(l.time_unix_nano as int),
        observed: at(l.observed_time_unix_nano as int),
        trace_id: optional_id(l.trace_id@),
        span_id: optional_id(l.span_id@),
        severity: severity_of(l.severity_number),
        severity_text: if l.severity_text@.len() == 0 {
            raised(severity_of(l.severity_number))
        } else {
            l.severity_text@
        },
        body: body_of(l.body),
        service,
        attributes: attribute_map(l.attributes@),
        body_sha256: None,
    }
}

fn encode_id(id: &Vec<u8>) -> (r: Option<String>)
    ensures
        opt_text(r) == optional_id(id@),
{
    if id.len() == 0 {
        None
    } else {
        Some(hex_encode(id))
    }
}

/// Convert one record of a service.
pub fn convert_log(service: &str, l: &OtelLog) -> (r: LogRecord)
    ensures
        r@ == log_of(service@, *l),
{
    let body: String = match &l.body {
        Some(v) => match text_of(v) {
            Some(t) => t,
            None => String::new(),
        },
        None => String::new(),
    };
    assert(body@ =~= body_of(l.body));
    let severity_text = if l.severity_text.as_str().is_empty() {
        to_upper(severity_name(l.severity_number))
    } else {
        l.severity_text.clone()
    };
    LogRecord {
        timestamp: Timestamp::from_unix_nanos(l.time_unix_nano),
        observed_timestamp: Timestamp::from_unix_nanos(l.observed_time_unix_nano),
        trace_id: encode_id(&l.trace_id),
        span_id: encode_id(&l.span_id),
        severity: severity_name(l.severity_number).to_owned(),
        severity_text,
        body,
        service: service.to_owned(),
        attributes: kv_to_map(&l.attributes),
        body_sha256: None,
    }
}

// ── Requests to records ─────────────────────────────────────────────

pub open spec fn scope_logs_of(service: Seq<char>, logs: Seq<OtelLog>) -> Seq<LogModel> {
    logs.map_values(|l: OtelLog| log_of(service, l))
}

pub open spec fn resource_logs_of(service: Seq<char>, scopes: Seq<ScopeLogs>) -> Seq<LogModel>
    decreases scopes.len(),
{
    if scopes.len() == 0 {
        Seq::empty()
    } else {
        resource_logs_of(service, scopes.drop_last()) + scope_logs_of(
            service,
            scopes.last().log_records@,
        )
    }
}

/// The records of a request, in order.
pub open spec fn request_logs(resources: Seq<ResourceLogs>) -> Seq<LogModel>
    decreases resources.len(),
{
    if resources.len() == 0 {
        Seq::empty()
    } else {
        let last = resources.last();
        request_logs(resources.drop_last()) + resource_logs_of(
            service_of(last.resource),
            last.scope_logs@,
        )
    }
}

pub open spec fn log_views(v: Seq<LogRecord>) -> Seq<LogModel> {
    v.map_values(|l: LogRecord| l@)
}

fn convert_scope(service: &str, scope: &ScopeLogs, out: &mut Vec<LogRecord>)
    ensures
        log_views(final(out)@) == log_views(old(out)@) + scope_logs_of(
            service@,
            scope.log_records@,
        ),
{
    let ghost start = log_views(out@);
    let ghost added = scope_logs_of(service@, scope.log_records@);
    let mut i: usize = 0;
    assert(start + added.take(0) =~= start);
    while i < scope.log_records.len()
        invariant
            i <= scope.log_records@.len(),
            added == scope_logs_of(service@, scope.log_records@),
            log_views(out@) == start + added.take(i as int),
        decreases scope.log_records@.len() - i,
    {
        let ghost before = out@;
        let record = convert_log(service, &scope.log_records[i]);
        out.push(record);
        assert(log_views(out@) =~= log_views(before).push(record@));
        assert(record@ == added[i as int]);
        i = i + 1;
        assert(log_views(out@) =~= start + added.take(i as int));
    }
    assert(added.take(scope.log_records@.len() as int) =~= added);
}

/// Convert the records of an export request, in order.
pub fn convert_request(resources: &Vec<ResourceLogs>) -> (r: Vec<LogRecord>)
    ensures
        log_views(r@) == request_logs(resources@),
{
    let mut out: Vec<LogRecord> = Vec::new();
    let mut i: usize = 0;
    assert(resources@.take(0) =~= Seq::<ResourceLogs>::empty());
    assert(log_views(out@) =~= Seq::<LogModel>::empty());
    while i < resources.len()
        invariant
            i <= resources@.len(),
            log_views(out@) == request_logs(resources@.take(i as int)),
        decreases resources@.len() - i,
    {
        let ghost before = request_logs(resources@.take(i as int));
        let rl = &resources[i];
        let service = service_name(&rl.resource);
        proof {
            assert(resources@.take(i as int + 1).drop_last() =~= resources@.take(i as int));
            assert(resources@.take(i as int + 1).last() == *rl);
        }
        let mut j: usize = 0;
        assert(rl.scope_logs@.take(0) =~= Seq::<ScopeLogs>::empty());
        assert(before + resource_logs_of(service@, rl.scope_logs@.take(0)) =~= before);
        while j < rl.scope_logs.len()
            invariant
                j <= rl.scope_logs@.len(),
                log_views(out@) == before + resource_logs_of(
                    service@,
                    rl.scope_logs@.take(j as int),
                ),
            decreases rl.scope_logs@.len() - j,
        {
            convert_scope(service.as_str(), &rl.scope_logs[j], &mut out);
            proof {
                let t = rl.scope_logs@.take(j as int + 1);
                assert(t.drop_last() =~= rl.scope_logs@.take(j as int));
                assert(t.last() == rl.scope_logs@[j as int]);
                assert(log_views(out@) =~= before + resource_logs_of(service@, t));
            }
            j = j + 1;
        }
        assert(rl.scope_logs@.take(rl.scope_logs@.len() as int) =~= rl.scope_logs@);
        i = i + 1;
    }
    assert(resources@.take(resources@.len() as int) =~= resources@);
    out
}

// ── Bodies ──────────────────────────────────────────────────────────

/// Whether a body is so large that it goes to the blob store.
pub open spec fn is_oversized(body: Seq<char>) -> bool {
    vstd::utf8::encode_utf8(body).len() > LOG_BODY_BLOB_THRESHOLD
}

pub fn oversized(body: &str) -> (r: bool)
    ensures
        r == is_oversized(body@),
{
    body.as_bytes().len() > LOG_BODY_BLOB_THRESHOLD
}

/// A record after its body has been dealt with. An oversized body that was
/// stored leaves only its hash; one that could not be stored stays.
pub open spec fn settled(l: LogModel, hash: Option<Seq<char>>) -> LogModel {
    if is_oversized(l.body) && hash is Some {
        LogModel { body: Seq::empty(), body_sha256: hash, ..l }
    } else {
        l
    }
}

/// A record as it is stored, and the body that was taken out of it: the search
/// index still has to see it.
pub fn settle(record: LogRecord, hash: Option<String>) -> (r: (LogRecord, Option<String>))
    ensures
        r.0@ == settled(record@, opt_text(hash)),
        opt_text(r.1) == if is_oversized(record.body@) && hash is Some {
            Some(record.body@)
        } else {
            None
        },
{
    if !oversized(record.body.as_str()) {
        return (record, None);
    }
    match hash {
        Some(h) => {
            let body = record.body.clone();
            let empty = String::new();
            assert(empty@ =~= Seq::<char>::empty());
            let kept = LogRecord { body: empty, body_sha256: Some(h), ..record };
            (kept, Some(body))
        },
        None => (record, None),
    }
}

// ── Search ──────────────────────────────────────────────────────────

/// What a record gives the search index: its trace and its body. Search
/// resolves to traces, so a record with no trace gives nothing, nor does one
/// with a blank body.
pub open spec fn inline_entry(l: LogModel) -> Option<(Seq<char>, Seq<char>)> {
    match l.trace_id {
        Some(t) => if trimmed(l.body).len() > 0 {
            Some((t, l.body))
        } else {
            None
        },
        None => None,
    }
}

pub open spec fn entries_of(logs: Seq<LogModel>) -> Seq<(Seq<char>, Seq<char>)>
    decreases logs.len(),
{
    if logs.len() == 0 {
        Seq::empty()
    } else {
        match inline_entry(logs.last()) {
            Some(e) => entries_of(logs.drop_last()).push(e),
            None => entries_of(logs.drop_last()),
        }
    }
}

/// What offloaded bodies give the search index.
pub open spec fn offloaded_entries(bodies: Seq<(Option<String>, String)>) -> Seq<
    (Seq<char>, Seq<char>),
>
    decreases bodies.len(),
{
    if bodies.len() == 0 {
        Seq::empty()
    } else {
        match bodies.last().0 {
            Some(t) => offloaded_entries(bodies.drop_last()).push((t@, bodies.last().1@)),
            None => offloaded_entries(bodies.drop_last()),
        }
    }
}

pub open spec fn entry_views(v: Seq<(String, String)>) -> Seq<(Seq<char>, Seq<char>)> {
    v.map_values(|e: (String, String)| (e.0@, e.1@))
}

/// What a batch gives the search index: the bodies that stayed in their
/// records, then the ones that were offloaded.
pub fn search_entries(
    logs: &Vec<LogRecord>,
    offloaded: &Vec<(Option<String>, String)>,
) -> (r: Vec<(String, String)>)
    ensures
        entry_views(r@) == entries_of(log_views(logs@)) + offloaded_entries(offloaded@),
{
    let mut out: Vec<(String, String)> = Vec::new();
    let mut i: usize = 0;
    let ghost models = log_views(logs@);
    assert(models.take(0) =~= Seq::<LogModel>::empty());
    assert(entry_views(out@) =~= Seq::<(Seq<char>, Seq<char>)>::empty());
    while i < logs.len()
        invariant
            i <= logs@.len(),
            models == log_views(logs@),
            entry_views(out@) == entries_of(models.take(i as int)),
        decreases logs@.len() - i,
    {
        proof {
            assert(models.take(i as int + 1).drop_last() =~= models.take(i as int));
            assert(models.take(i as int + 1).last() == logs@[i as int]@);
        }
        if let Some(t) = &logs[i].trace_id {
            if !is_blank(logs[i].body.as_str()) {
                let ghost before = out@;
                let entry = (t.clone(), logs[i].body.clone());
                out.push(entry);
                assert(entry_views(out@) =~= entry_views(before).push((entry.0@, entry.1@)));
            }
        }
        i = i + 1;
    }
    assert(models.take(logs@.len() as int) =~= models);
    let ghost inline = entry_views(out@);
    let mut k: usize = 0;
    assert(offloaded@.take(0) =~= Seq::<(Option<String>, String)>::empty());
    assert(inline + offloaded_entries(offloaded@.take(0)) =~= inline);
    while k < offloaded.len()
        invariant
            k <= offloaded@.len(),
            entry_views(out@) == inline + offloaded_entries(offloaded@.take(k as int)),
        decreases offloaded@.len() - k,
    {
        proof {
            assert(offloaded@.take(k as int + 1).drop_last() =~= offloaded@.take(k as int));
            assert(offloaded@.take(k as int + 1).last() == offloaded@[k as int]);
        }
        if let Some(t) = &offloaded[k].0 {
            let ghost before = out@;
            let entry = (t.clone(), offloaded[k].1.clone());
            out.push(entry);
            assert(entry_views(out@) =~= entry_views(before).push((entry.0@, entry.1@)));
            assert(entry_views(out@) =~= inline + offloaded_entries(offloaded@.take(k as int + 1)));
        }
        k = k + 1;
    }
    assert(offloaded@.take(offloaded@.len() as int) =~= offloaded@);
    out
}

/// Records with a stamp on the attributes of each, in the same order.
pub open spec fn stamped_logs(logs: Seq<LogModel>, stamp: Option<TenantStamp>) -> Seq<LogModel> {
    logs.map_values(|l: LogModel| LogModel { attributes: stamped(l.attributes, stamp), ..l })
}

/// Stamps the writer's tenant on every record.
pub fn stamp_logs(logs: Vec<LogRecord>, stamp: &Option<TenantStamp>) -> (r: Vec<LogRecord>)
    ensures
        log_views(r@) == stamped_logs(log_views(logs@), *stamp),
{
    let ghost all = logs@;
    let ghost wanted = stamped_logs(log_views(all), *stamp);
    let mut out: Vec<LogRecord> = Vec::new();
    for l in it: logs
        invariant
            it.seq() == all,
            wanted == stamped_logs(log_views(all), *stamp),
            log_views(out@) == wanted.take(it.index()),
    {
        let ghost before = out@;
        let mut l = l;
        let mut attributes = l.attributes;
        stamp_attributes(&mut attributes, stamp);
        l.attributes = attributes;
        assert(l@ == wanted[it.index()]);
        out.push(l);
        assert(log_views(out@) =~= log_views(before).push(l@));
        assert(log_views(out@) =~= wanted.take(it.index() + 1));
    }
    assert(wanted.take(all.len() as int) =~= wanted);
    out
}

// ── Laws ────────────────────────────────────────────────────────────

/// No body is lost: it is in the record, or stored under the record's hash
/// and handed to the search index.
pub proof fn no_body_is_lost(l: LogModel, hash: Option<Seq<char>>)
    requires
        l.body_sha256 is None,
    ensures
        settled(l, hash).body == l.body || settled(l, hash).body_sha256 == hash && hash is Some
            && is_oversized(l.body),
        settled(l, hash).trace_id == l.trace_id,
        settled(l, hash).attributes == l.attributes,
{
}

/// A record keeps what was sent: its times, its body as text, its attributes, and
/// the ids of its trace and span as spans keep theirs.
pub proof fn records_keep_what_was_sent(service: Seq<char>, l: OtelLog, s: crate::ingest::otlp::OtelSpan)
    ensures
        log_of(service, l).service == service,
        log_of(service, l).instant == at(l.time_unix_nano as int),
        log_of(service, l).observed == at(l.observed_time_unix_nano as int),
        log_of(service, l).attributes == attribute_map(l.attributes@),
        log_of(service, l).body_sha256 is None,
        log_of(service, l).trace_id is None <==> l.trace_id@.len() == 0,
        log_of(service, l).span_id is None <==> l.span_id@.len() == 0,
        l.trace_id@.len() > 0 ==> (log_of(service, l).trace_id == Some(
            crate::ingest::otlp::span_of(service, s).trace_id,
        ) <==> l.trace_id@ == s.trace_id@),
        l.span_id@.len() > 0 ==> (log_of(service, l).span_id == Some(
            crate::ingest::otlp::span_of(service, s).span_id,
        ) <==> l.span_id@ == s.span_id@),
        match l.body {
            Some(AnyValue::Text(t)) => log_of(service, l).body == t@,
            Some(AnyValue::Double(t)) => log_of(service, l).body == t@,
            Some(AnyValue::Integer(n)) => crate::text::signed_literal(log_of(service, l).body)
                == Some(n as int),
            Some(AnyValue::Flag(b)) => log_of(service, l).body == if b {
                "true"@
            } else {
                "false"@
            },
            _ => log_of(service, l).body.len() == 0,
        },
        l.severity_text@.len() > 0 ==> log_of(service, l).severity_text == l.severity_text@,
{
    crate::crypto::hex_reads_back(l.trace_id@, s.trace_id@);
    crate::crypto::hex_reads_back(l.span_id@, s.span_id@);
    if let Some(AnyValue::Integer(n)) = l.body {
        crate::text::signed_decimal_reads_back(n as int);
    }
}

/// Severities come in six bands of four numbers, from trace up to fatal; any
/// other number is unspecified.
pub proof fn severities_come_in_bands(service: Seq<char>, l: OtelLog)
    ensures
        ({
            let n = l.severity_number as int;
            let name = log_of(service, l).severity;
            &&& 1 <= n <= 24 ==> name == seq![
                "trace"@,
                "debug"@,
                "info"@,
                "warn"@,
                "error"@,
                "fatal"@,
            ][(n - 1) / 4]
            &&& n < 1 || n > 24 ==> name == "unspecified"@
        }),
{
}

/// Every record of a request is converted.
pub proof fn no_record_is_lost(resources: Seq<ResourceLogs>, r: int, s: int, k: int)
    requires
        0 <= r < resources.len(),
        0 <= s < resources[r].scope_logs@.len(),
        0 <= k < resources[r].scope_logs@[s].log_records@.len(),
    ensures
        request_logs(resources).contains(
            log_of(
                service_of(resources[r].resource),
                resources[r].scope_logs@[s].log_records@[k],
            ),
        ),
    decreases resources.len(),
{
    let last = resources.last();
    let (head, tail) = (
        request_logs(resources.drop_last()),
        resource_logs_of(service_of(last.resource), last.scope_logs@),
    );
    let item = log_of(
        service_of(resources[r].resource),
        resources[r].scope_logs@[s].log_records@[k],
    );
    if r == resources.len() - 1 {
        no_record_of_a_resource_is_lost(service_of(last.resource), last.scope_logs@, s, k);
        let i = choose|i: int| 0 <= i < tail.len() && tail[i] == item;
        assert((head + tail)[head.len() + i] == item);
    } else {
        no_record_is_lost(resources.drop_last(), r, s, k);
        let i = choose|i: int| 0 <= i < head.len() && head[i] == item;
        assert((head + tail)[i] == item);
    }
}

proof fn no_record_of_a_resource_is_lost(
    service: Seq<char>,
    scopes: Seq<ScopeLogs>,
    s: int,
    k: int,
)
    requires
        0 <= s < scopes.len(),
        0 <= k < scopes[s].log_records@.len(),
    ensures
        resource_logs_of(service, scopes).contains(log_of(service, scopes[s].log_records@[k])),
    decreases scopes.len(),
{
    let (head, tail) = (
        resource_logs_of(service, scopes.drop_last()),
        scope_logs_of(service, scopes.last().log_records@),
    );
    let item = log_of(service, scopes[s].log_records@[k]);
    if s == scopes.len() - 1 {
        assert(tail[k] == item);
        assert((head + tail)[head.len() + k] == item);
    } else {
        no_record_of_a_resource_is_lost(service, scopes.drop_last(), s, k);
        let i = choose|i: int| 0 <= i < head.len() && head[i] == item;
        assert((head + tail)[i] == item);
    }
}

/// A body goes to the store only when it is longer than the limit, and then the
/// record keeps its digest alone; nothing else of the record changes. A body that
/// stays is searched under its trace unless it is blank.
pub proof fn only_long_bodies_leave(l: LogModel, hash: Option<Seq<char>>)
    ensures
        vstd::utf8::encode_utf8(l.body).len() <= 8192 ==> settled(l, hash) == l,
        vstd::utf8::encode_utf8(l.body).len() > 8192 && hash is Some ==> settled(l, hash).body.len()
            == 0 && settled(l, hash).body_sha256 == hash,
        settled(l, hash).instant == l.instant && settled(l, hash).observed == l.observed,
        settled(l, hash).span_id == l.span_id && settled(l, hash).severity == l.severity,
        settled(l, hash).service == l.service && settled(l, hash).severity_text == l.severity_text,
        inline_entry(l) is Some <==> l.trace_id is Some && trimmed(l.body).len() > 0,
        inline_entry(l) matches Some(e) ==> Some(e.0) == l.trace_id && e.1 == l.body,
{
}

/// What is searched of the records is an entry for each that has one, in order.
pub proof fn entries_are_those_of_the_records(
    logs: Seq<LogModel>,
    bodies: Seq<(Option<String>, String)>,
)
    ensures
        entries_of(logs) == logs.filter(
            |l: LogModel| l.trace_id is Some && trimmed(l.body).len() > 0,
        ).map_values(|l: LogModel| (l.trace_id->0, l.body)),
        offloaded_entries(bodies) == bodies.filter(
            |b: (Option<String>, String)| b.0 is Some,
        ).map_values(|b: (Option<String>, String)| (b.0->0@, b.1@)),
    decreases logs.len() + bodies.len(),
{
    reveal(Seq::filter);
    if logs.len() > 0 {
        entries_are_those_of_the_records(logs.drop_last(), Seq::empty());
    }
    if bodies.len() > 0 {
        entries_are_those_of_the_records(Seq::empty(), bodies.drop_last());
    }
    assert(entries_of(logs) =~= logs.filter(
        |l: LogModel| l.trace_id is Some && trimmed(l.body).len() > 0,
    ).map_values(|l: LogModel| (l.trace_id->0, l.body)));
    assert(offloaded_entries(bodies) =~= bodies.filter(
        |b: (Option<String>, String)| b.0 is Some,
    ).map_values(|b: (Option<String>, String)| (b.0->0@, b.1@)));
}

/// A stamp is put on every record and changes nothing else of it.
pub proof fn stamps_are_put_on_every_record(logs: Seq<LogModel>, stamp: TenantStamp, i: int)
    requires
        0 <= i < logs.len(),
    ensures
        ({
            let r = stamped_logs(logs, Some(stamp));
            &&& r.len() == logs.len()
            &&& r[i].attributes == logs[i].attributes.insert(stamp.attribute@, stamp.tenant@)
            &&& r[i].body == logs[i].body && r[i].trace_id == logs[i].trace_id && r[i].span_id
                == logs[i].span_id && r[i].service == logs[i].service && r[i].severity
                == logs[i].severity && r[i].instant == logs[i].instant
        }),
        stamped_logs(logs, None)[i] == logs[i],
{
}

} // verus!
