//! OTLP trace intake: what the spans of an export request become.

use crate::crypto::{hex_encode, hex_text};
use crate::labels::Labels;
use crate::spans::{event_views, extract_llm_span, llm_of, stamp_attributes, stamped, EventModel, LlmModel, LlmSpan, Span, SpanDuration, SpanEvent, SpanKind, SpanModel, SpanStatus, TenantStamp};
use crate::text::{decimal_i64, is_blank, opt_text, same, signed_decimal, trimmed};
use crate::time::{at, Timestamp};
use vstd::prelude::*;

verus! {

// ── Requests ────────────────────────────────────────────────────────

/// An attribute's value. A double comes as its decimal text.
#[derive(Debug)]
pub enum AnyValue {
    Text(String),
    Flag(bool),
    Integer(i64),
    Double(String),
    /// Bytes, arrays and nested lists.
    Other,
}

#[derive(Debug)]
pub struct KeyValue {
    pub key: String,
    pub value: Option<AnyValue>,
}

#[derive(Debug)]
pub struct OtelEvent {
    pub time_unix_nano: u64,
    pub name: String,
    pub attributes: Vec<KeyValue>,
}

/// A span as OTLP sends it. `kind` and `status` are the protocol's numbers.
#[derive(Debug)]
pub struct OtelSpan {
    pub trace_id: Vec<u8>,
    pub span_id: Vec<u8>,
    pub parent_span_id: Vec<u8>,
    pub name: String,
    pub kind: i32,
    pub start_time_unix_nano: u64,
    pub end_time_unix_nano: u64,
    pub attributes: Vec<KeyValue>,
    pub events: Vec<OtelEvent>,
    pub status: Option<i32>,
}

#[derive(Debug)]
pub struct ScopeSpans {
    pub spans: Vec<OtelSpan>,
}

#[derive(Debug)]
pub struct ResourceSpans {
    pub resource: Option<Vec<KeyValue>>,
    pub scope_spans: Vec<ScopeSpans>,
}

// ── Attributes ──────────────────────────────────────────────────────

/// A value as text; bytes, arrays and nested lists have none.
pub open spec fn value_text(v: AnyValue) -> Option<Seq<char>> {
    match v {
        AnyValue::Text(s) => Some(s@),
        AnyValue::Flag(b) => Some(
            if b {
                "true"@
            } else {
                "false"@
            },
        ),
        AnyValue::Integer(i) => Some(signed_decimal(i as int)),
        AnyValue::Double(d) => Some(d@),
        AnyValue::Other => None,
    }
}

/// A value as text, where it is a text or an integer.
pub open spec fn event_value_text(v: AnyValue) -> Option<Seq<char>> {
    match v {
        AnyValue::Text(s) => Some(s@),
        AnyValue::Integer(i) => Some(signed_decimal(i as int)),
        _ => None,
    }
}

/// The attributes that have a text. A later one outdoes an earlier one of the
/// same key.
pub open spec fn attribute_map(kvs: Seq<KeyValue>) -> Map<Seq<char>, Seq<char>>
    decreases kvs.len(),
{
    if kvs.len() == 0 {
        Map::empty()
    } else {
        let before = attribute_map(kvs.drop_last());
        match kvs.last().value {
            Some(v) => match value_text(v) {
                Some(t) => before.insert(kvs.last().key@, t),
                None => before,
            },
            None => before,
        }
    }
}

/// An event's attributes that are texts or integers.
pub open spec fn event_attribute_map(kvs: Seq<KeyValue>) -> Map<Seq<char>, Seq<char>>
    decreases kvs.len(),
{
    if kvs.len() == 0 {
        Map::empty()
    } else {
        let before = event_attribute_map(kvs.drop_last());
        match kvs.last().value {
            Some(v) => match event_value_text(v) {
                Some(t) => before.insert(kvs.last().key@, t),
                None => before,
            },
            None => before,
        }
    }
}

pub(crate) fn text_of(v: &AnyValue) -> (r: Option<String>)
    ensures
        opt_text(r) == value_text(*v),
{
    match v {
        AnyValue::Text(s) => Some(s.clone()),
        AnyValue::Flag(b) => Some(
            if *b {
                "true".to_owned()
            } else {
                "false".to_owned()
            },
        ),
        AnyValue::Integer(i) => Some(decimal_i64(*i)),
        AnyValue::Double(d) => Some(d.clone()),
        AnyValue::Other => None,
    }
}

/// The attributes that have a text, as a map.
pub fn kv_to_map(kvs: &Vec<KeyValue>) -> (r: Labels)
    ensures
        r@ == attribute_map(kvs@),
{
    let mut out = Labels::new();
    let mut i: usize = 0;
    assert(kvs@.take(0) =~= Seq::<KeyValue>::empty());
    while i < kvs.len()
        invariant
            i <= kvs@.len(),
            out@ == attribute_map(kvs@.take(i as int)),
        decreases kvs@.len() - i,
    {
        assert(kvs@.take(i as int + 1).drop_last() =~= kvs@.take(i as int));
        assert(kvs@.take(i as int + 1).last() == kvs@[i as int]);
        if let Some(v) = &kvs[i].value {
            if let Some(t) = text_of(v) {
                out.insert(kvs[i].key.clone(), t);
            }
        }
        i = i + 1;
    }
    assert(kvs@.take(kvs@.len() as int) =~= kvs@);
    out
}

fn event_kv_to_map(kvs: &Vec<KeyValue>) -> (r: Labels)
    ensures
        r@ == event_attribute_map(kvs@),
{
    let mut out = Labels::new();
    let mut i: usize = 0;
    assert(kvs@.take(0) =~= Seq::<KeyValue>::empty());
    while i < kvs.len()
        invariant
            i <= kvs@.len(),
            out@ == event_attribute_map(kvs@.take(i as int)),
        decreases kvs@.len() - i,
    {
        assert(kvs@.take(i as int + 1).drop_last() =~= kvs@.take(i as int));
        assert(kvs@.take(i as int + 1).last() == kvs@[i as int]);
        match &kvs[i].value {
            Some(AnyValue::Text(s)) => {
                out.insert(kvs[i].key.clone(), s.clone());
            },
            Some(AnyValue::Integer(n)) => {
                out.insert(kvs[i].key.clone(), decimal_i64(*n));
            },
            _ => {},
        }
        i = i + 1;
    }
    assert(kvs@.take(kvs@.len() as int) =~= kvs@);
    out
}

// ── Services ────────────────────────────────────────────────────────

/// What the first `service.name` that has a value says, from a position on. A
/// value that is no text says nothing, as an empty name.
pub open spec fn service_from(kvs: Seq<KeyValue>, from: int) -> Option<Seq<char>>
    decreases kvs.len() - from,
{
    if from < 0 || from >= kvs.len() {
        None
    } else if kvs[from].key@ == "service.name"@ && kvs[from].value is Some {
        match kvs[from].value {
            Some(AnyValue::Text(s)) => Some(s@),
            _ => Some(Seq::empty()),
        }
    } else {
        service_from(kvs, from + 1)
    }
}

/// The service of a resource, `unknown` where it names none.
pub open spec fn service_of(resource: Option<Vec<KeyValue>>) -> Seq<char> {
    match resource {
        Some(kvs) => match service_from(kvs@, 0) {
            Some(s) => s,
            None => "unknown"@,
        },
        None => "unknown"@,
    }
}

pub fn service_name(resource: &Option<Vec<KeyValue>>) -> (r: String)
    ensures
        r@ == service_of(*resource),
{
    if let Some(kvs) = resource {
        let mut i: usize = 0;
        while i < kvs.len()
            invariant
                i <= kvs@.len(),
                *resource == Some(*kvs),
                service_from(kvs@, 0) == service_from(kvs@, i as int),
            decreases kvs@.len() - i,
        {
            if same(kvs[i].key.as_str(), "service.name") {
                match &kvs[i].value {
                    Some(AnyValue::Text(s)) => {
                        return s.clone();
                    },
                    Some(_) => {
                        return String::new();
                    },
                    None => {},
                }
            }
            i = i + 1;
        }
    }
    "unknown".to_owned()
}

// ── Spans ───────────────────────────────────────────────────────────

/// The kind that a number of the protocol stands for.
pub open spec fn kind_of(kind: i32) -> SpanKind {
    if kind == 2 {
        SpanKind::Server
    } else if kind == 3 {
        SpanKind::Client
    } else if kind == 4 {
        SpanKind::Producer
    } else if kind == 5 {
        SpanKind::Consumer
    } else {
        SpanKind::Internal
    }
}

/// Map the protocol's span kind. Unspecified, internal and unknown numbers are
/// all internal.
pub fn map_span_kind(kind: i32) -> (r: SpanKind)
    ensures
        r == kind_of(kind),
{
    if kind == 2 {
        SpanKind::Server
    } else if kind == 3 {
        SpanKind::Client
    } else if kind == 4 {
        SpanKind::Producer
    } else if kind == 5 {
        SpanKind::Consumer
    } else {
        SpanKind::Internal
    }
}

/// The status that a number of the protocol stands for.
pub open spec fn status_of(code: Option<i32>) -> SpanStatus {
    match code {
        Some(c) => if c == 1 {
            SpanStatus::Okay
        } else if c == 2 {
            SpanStatus::Error
        } else {
            SpanStatus::Unset
        },
        None => SpanStatus::Unset,
    }
}

pub open spec fn event_of(e: OtelEvent) -> EventModel {
    EventModel {
        name: e.name@,
        instant: at(e.time_unix_nano as int),
        attributes: event_attribute_map(e.attributes@),
    }
}

pub open spec fn optional_id(id: Seq<u8>) -> Option<Seq<char>> {
    if id.len() == 0 {
        None
    } else {
        Some(hex_text(id))
    }
}

/// A span before its payload has been stored: what goes into the columns, and
/// the prompt and completion that were taken out of it.
#[derive(Debug)]
pub struct SpanDraft {
    pub span: Span,
    pub prompt: Option<String>,
    pub completion: Option<String>,
}

/// Attributes without the payload texts.
pub open spec fn without_payload(m: Map<Seq<char>, Seq<char>>) -> Map<Seq<char>, Seq<char>> {
    m.remove("gen_ai.prompt"@).remove("gen_ai.completion"@)
}

/// What a span of a service is stored as. A call to a language model is of
/// that kind whatever the client says, and its payload texts leave the
/// attributes.
pub open spec fn span_of(service: Seq<char>, s: OtelSpan) -> SpanModel {
    let sent = attribute_map(s.attributes@);
    let llm = llm_of(sent);
    SpanModel {
        trace_id: hex_text(s.trace_id@),
        span_id: hex_text(s.span_id@),
        parent_span_id: optional_id(s.parent_span_id@),
        service,
        operation: s.name@,
        start: at(s.start_time_unix_nano as int),
        end: at(s.end_time_unix_nano as int),
        duration: SpanDuration::Between {
            start: s.start_time_unix_nano,
            end: s.end_time_unix_nano,
        },
        status: status_of(s.status),
        attributes: if llm is Some {
            without_payload(sent)
        } else {
            sent
        },
        events: s.events@.map_values(|e: OtelEvent| event_of(e)),
        kind: if llm is Some {
            SpanKind::Llm
        } else {
            kind_of(s.kind)
        },
        llm,
    }
}

pub open spec fn is_draft_of(d: SpanDraft, service: Seq<char>, s: OtelSpan) -> bool {
    let sent = attribute_map(s.attributes@);
    &&& d.span@ == span_of(service, s)
    &&& opt_text(d.prompt) == if llm_of(sent) is Some {
        crate::spans::under(sent, "gen_ai.prompt"@)
    } else {
        None
    }
    &&& opt_text(d.completion) == if llm_of(sent) is Some {
        crate::spans::under(sent, "gen_ai.completion"@)
    } else {
        None
    }
}

fn convert_events(events: &Vec<OtelEvent>) -> (r: Vec<SpanEvent>)
    ensures
        event_views(r@) == events@.map_values(|e: OtelEvent| event_of(e)),
{
    let ghost wanted = events@.map_values(|e: OtelEvent| event_of(e));
    let mut out: Vec<SpanEvent> = Vec::new();
    let mut i: usize = 0;
    while i < events.len()
        invariant
            i <= events@.len(),
            wanted == events@.map_values(|e: OtelEvent| event_of(e)),
            event_views(out@) == wanted.take(i as int),
        decreases events@.len() - i,
    {
        let ghost before = out@;
        let e = &events[i];
        let event = SpanEvent {
            name: e.name.clone(),
            timestamp: Timestamp::from_unix_nanos(e.time_unix_nano),
            attributes: event_kv_to_map(&e.attributes),
        };
        out.push(event);
        assert(event_views(out@) =~= event_views(before).push(event@));
        assert(event@ == wanted[i as int]);
        i = i + 1;
        assert(event_views(out@) =~= wanted.take(i as int));
    }
    assert(wanted.take(events@.len() as int) =~= wanted);
    out
}

fn encode_id(id: &Vec<u8>) -> (r: Option<String>)
    ensures
        opt_text(r) == optional_id(id@),
{
    if id.len() == 0 {
        None
    } else {
        Some(hex_encode(id))
    }
}

/// Convert one span of a service.
pub fn convert_span(service: &str, s: &OtelSpan) -> (r: SpanDraft)
    ensures
        is_draft_of(r, service@, *s),
{
    let mut attributes = kv_to_map(&s.attributes);
    let llm = extract_llm_span(&attributes);
    let mut prompt: Option<String> = None;
    let mut completion: Option<String> = None;
    let kind = if llm.is_some() {
        SpanKind::Llm
    } else {
        map_span_kind(s.kind)
    };
    if llm.is_some() {
        // Take the payload text out of the columnar attributes.
        prompt = attributes.remove("gen_ai.prompt");
        completion = attributes.remove("gen_ai.completion");
        proof {
            reveal_strlit("gen_ai.prompt");
            reveal_strlit("gen_ai.completion");
            assert("gen_ai.prompt"@.len() != "gen_ai.completion"@.len());
        }
    }
    let status = match s.status {
        Some(c) => {
            if c == 1 {
                SpanStatus::Okay
            } else if c == 2 {
                SpanStatus::Error
            } else {
                SpanStatus::Unset
            }
        },
        None => SpanStatus::Unset,
    };
    let span = Span {
        trace_id: hex_encode(&s.trace_id),
        span_id: hex_encode(&s.span_id),
        parent_span_id: encode_id(&s.parent_span_id),
        service: service.to_owned(),
        operation: s.name.clone(),
        start_time: Timestamp::from_unix_nanos(s.start_time_unix_nano),
        end_time: Timestamp::from_unix_nanos(s.end_time_unix_nano),
        duration: SpanDuration::Between {
            start: s.start_time_unix_nano,
            end: s.end_time_unix_nano,
        },
        status,
        attributes,
        events: convert_events(&s.events),
        kind,
        llm,
    };
    SpanDraft { span, prompt, completion }
}

// ── Requests to spans ───────────────────────────────────────────────

/// The spans of a scope, each with its service.
pub open spec fn scope_items(service: Seq<char>, spans: Seq<OtelSpan>) -> Seq<
    (Seq<char>, OtelSpan),
> {
    spans.map_values(|s: OtelSpan| (service, s))
}

/// The spans of the scopes of a resource, each with its service, in order.
pub open spec fn resource_items(service: Seq<char>, scopes: Seq<ScopeSpans>) -> Seq<
    (Seq<char>, OtelSpan),
>
    decreases scopes.len(),
{
    if scopes.len() == 0 {
        Seq::empty()
    } else {
        resource_items(service, scopes.drop_last()) + scope_items(service, scopes.last().spans@)
    }
}

/// The spans of a request, each with its service, in order.
pub open spec fn request_items(resources: Seq<ResourceSpans>) -> Seq<(Seq<char>, OtelSpan)>
    decreases resources.len(),
{
    if resources.len() == 0 {
        Seq::empty()
    } else {
        let last = resources.last();
        request_items(resources.drop_last()) + resource_items(
            service_of(last.resource),
            last.scope_spans@,
        )
    }
}

pub open spec fn are_drafts_of(drafts: Seq<SpanDraft>, items: Seq<(Seq<char>, OtelSpan)>) -> bool {
    &&& drafts.len() == items.len()
    &&& forall|i: int|
        0 <= i < drafts.len() ==> is_draft_of(#[trigger] drafts[i], items[i].0, items[i].1)
}

fn convert_scope(service: &str, scope: &ScopeSpans, out: &mut Vec<SpanDraft>)
    ensures
        forall|items: Seq<(Seq<char>, OtelSpan)>| #[trigger]
            are_drafts_of(old(out)@, items) ==> are_drafts_of(
                final(out)@,
                items + scope_items(service@, scope.spans@),
            ),
{
    let ghost start = out@;
    let ghost added = scope_items(service@, scope.spans@);
    let mut i: usize = 0;
    while i < scope.spans.len()
        invariant
            i <= scope.spans@.len(),
            added == scope_items(service@, scope.spans@),
            out@.len() == start.len() + i,
            forall|k: int| 0 <= k < start.len() ==> out@[k] == start[k],
            forall|k: int|
                start.len() <= k < out@.len() ==> is_draft_of(
                    #[trigger] out@[k],
                    service@,
                    scope.spans@[k - start.len()],
                ),
        decreases scope.spans@.len() - i,
    {
        let draft = convert_span(service, &scope.spans[i]);
        out.push(draft);
        i = i + 1;
    }
    proof {
        assert forall|items: Seq<(Seq<char>, OtelSpan)>| #[trigger]
            are_drafts_of(start, items) implies are_drafts_of(out@, items + added) by {
            assert forall|k: int| 0 <= k < out@.len() implies is_draft_of(
                #[trigger] out@[k],
                (items + added)[k].0,
                (items + added)[k].1,
            ) by {
                if k < start.len() {
                    assert(out@[k] == start[k]);
                } else {
                    assert((items + added)[k] == added[k - start.len()]);
                }
            }
        }
    }
}

/// Convert the spans of an export request, in order.
pub fn convert_request(resources: &Vec<ResourceSpans>) -> (r: Vec<SpanDraft>)
    ensures
        are_drafts_of(r@, request_items(resources@)),
{
    let mut out: Vec<SpanDraft> = Vec::new();
    let mut i: usize = 0;
    assert(resources@.take(0) =~= Seq::<ResourceSpans>::empty());
    while i < resources.len()
        invariant
            i <= resources@.len(),
            are_drafts_of(out@, request_items(resources@.take(i as int))),
        decreases resources@.len() - i,
    {
        let ghost before = request_items(resources@.take(i as int));
        let rs = &resources[i];
        let service = service_name(&rs.resource);
        proof {
            assert(resources@.take(i as int + 1).drop_last() =~= resources@.take(i as int));
            assert(resources@.take(i as int + 1).last() == *rs);
        }
        let mut j: usize = 0;
        assert(rs.scope_spans@.take(0) =~= Seq::<ScopeSpans>::empty());
        assert(before + resource_items(service@, rs.scope_spans@.take(0)) =~= before);
        while j < rs.scope_spans.len()
            invariant
                j <= rs.scope_spans@.len(),
                are_drafts_of(
                    out@,
                    before + resource_items(service@, rs.scope_spans@.take(j as int)),
                ),
            decreases rs.scope_spans@.len() - j,
        {
            let ghost sofar = before + resource_items(service@, rs.scope_spans@.take(j as int));
            convert_scope(service.as_str(), &rs.scope_spans[j], &mut out);
            proof {
                let t = rs.scope_spans@.take(j as int + 1);
                assert(t.drop_last() =~= rs.scope_spans@.take(j as int));
                assert(t.last() == rs.scope_spans@[j as int]);
                assert(before + resource_items(service@, t) =~= sofar + scope_items(
                    service@,
                    rs.scope_spans@[j as int].spans@,
                ));
            }
            j = j + 1;
        }
        assert(rs.scope_spans@.take(rs.scope_spans@.len() as int) =~= rs.scope_spans@);
        i = i + 1;
    }
    assert(resources@.take(resources@.len() as int) =~= resources@);
    out
}

// ── Payloads ────────────────────────────────────────────────────────

/// The payload that goes to the blob store: one that is there and not empty.
pub open spec fn blob_payload(value: Option<Seq<char>>) -> Option<Seq<char>> {
    match value {
        Some(v) => if v.len() > 0 {
            Some(v)
        } else {
            None
        },
        None => None,
    }
}

pub fn blob_value(value: &Option<String>) -> (r: Option<&String>)
    ensures
        match r {
            Some(v) => blob_payload(opt_text(*value)) == Some(v@),
            None => blob_payload(opt_text(*value)) is None,
        },
{
    match value {
        Some(v) => {
            if v.as_str().is_empty() {
                None
            } else {
                Some(v)
            }
        },
        None => None,
    }
}

/// The text under which a span's payload is found: prompt, a space, completion.
pub open spec fn search_text_of(prompt: Option<Seq<char>>, completion: Option<Seq<char>>) -> Seq<
    char,
> {
    (match prompt {
        Some(p) => p.push(' '),
        None => Seq::empty(),
    }) + (match completion {
        Some(c) => c,
        None => Seq::empty(),
    })
}

/// The payload text to index before it leaves memory, unless it is blank.
pub fn search_text(draft: &SpanDraft) -> (r: Option<String>)
    ensures
        ({
            let t = search_text_of(opt_text(draft.prompt), opt_text(draft.completion));
            match r {
                Some(s) => s@ == t && trimmed(t).len() > 0,
                None => trimmed(t).len() == 0,
            }
        }),
{
    let mut out = String::new();
    if let Some(p) = &draft.prompt {
        out.append(p.as_str());
        out.push(' ');
    }
    if let Some(c) = &draft.completion {
        out.append(c.as_str());
    }
    assert(out@ =~= search_text_of(opt_text(draft.prompt), opt_text(draft.completion)));
    if is_blank(out.as_str()) {
        None
    } else {
        Some(out)
    }
}

/// What a span is once its payload has been stored and it has been stamped.
pub open spec fn sealed(
    s: SpanModel,
    prompt_sha256: Option<Seq<char>>,
    completion_sha256: Option<Seq<char>>,
    stamp: Option<TenantStamp>,
) -> SpanModel {
    SpanModel {
        llm: match s.llm {
            Some(l) => Some(LlmModel { prompt_sha256, completion_sha256, ..l }),
            None => None,
        },
        attributes: stamped(s.attributes, stamp),
        ..s
    }
}

/// The span to store: with the hashes under which its payloads were stored,
/// where they were, and with the writer's tenant stamped on it last.
pub fn seal(
    draft: SpanDraft,
    prompt_sha256: Option<String>,
    completion_sha256: Option<String>,
    stamp: &Option<TenantStamp>,
) -> (r: Span)
    ensures
        r@ == sealed(draft.span@, opt_text(prompt_sha256), opt_text(completion_sha256), *stamp),
{
    let mut span = draft.span;
    let llm = match span.llm {
        Some(l) => Some(LlmSpan { prompt_sha256, completion_sha256, ..l }),
        None => None,
    };
    let mut attributes = span.attributes;
    stamp_attributes(&mut attributes, stamp);
    Span {
        trace_id: span.trace_id,
        span_id: span.span_id,
        parent_span_id: span.parent_span_id,
        service: span.service,
        operation: span.operation,
        start_time: span.start_time,
        end_time: span.end_time,
        duration: span.duration,
        status: span.status,
        attributes,
        events: span.events,
        kind: span.kind,
        llm,
    }
}

// ── Laws ────────────────────────────────────────────────────────────

/// Every span of a request is converted, none is added.
pub proof fn no_span_is_lost(resources: Seq<ResourceSpans>, r: int, s: int, k: int)
    requires
        0 <= r < resources.len(),
        0 <= s < resources[r].scope_spans@.len(),
        0 <= k < resources[r].scope_spans@[s].spans@.len(),
    ensures
        request_items(resources).contains(
            (service_of(resources[r].resource), resources[r].scope_spans@[s].spans@[k]),
        ),
    decreases resources.len(),
{
    let item = (service_of(resources[r].resource), resources[r].scope_spans@[s].spans@[k]);
    let last = resources.last();
    let head = request_items(resources.drop_last());
    let tail = resource_items(service_of(last.resource), last.scope_spans@);
    if r == resources.len() - 1 {
        scope_is_in_resource(item.0, last.scope_spans@, s, k);
        let i = choose|i: int| 0 <= i < tail.len() && tail[i] == item;
        assert((head + tail)[head.len() + i] == item);
    } else {
        no_span_is_lost(resources.drop_last(), r, s, k);
        let i = choose|i: int| 0 <= i < head.len() && head[i] == item;
        assert((head + tail)[i] == item);
    }
}

proof fn scope_is_in_resource(service: Seq<char>, scopes: Seq<ScopeSpans>, s: int, k: int)
    requires
        0 <= s < scopes.len(),
        0 <= k < scopes[s].spans@.len(),
    ensures
        resource_items(service, scopes).contains((service, scopes[s].spans@[k])),
    decreases scopes.len(),
{
    let item = (service, scopes[s].spans@[k]);
    let head = resource_items(service, scopes.drop_last());
    let tail = scope_items(service, scopes.last().spans@);
    if s == scopes.len() - 1 {
        assert(tail[k] == item);
        assert((head + tail)[head.len() + k] == item);
    } else {
        scope_is_in_resource(service, scopes.drop_last(), s, k);
        let i = choose|i: int| 0 <= i < head.len() && head[i] == item;
        assert((head + tail)[i] == item);
    }
}

/// No payload text stays among the attributes of a language-model call, and
/// its typed part is what the attributes that were sent say.
pub proof fn payload_leaves_the_columns(service: Seq<char>, s: OtelSpan)
    requires
        llm_of(attribute_map(s.attributes@)) is Some,
    ensures
        !span_of(service, s).attributes.dom().contains("gen_ai.prompt"@),
        !span_of(service, s).attributes.dom().contains("gen_ai.completion"@),
        span_of(service, s).kind == SpanKind::Llm,
        span_of(service, s).llm == llm_of(attribute_map(s.attributes@)),
{
}

/// A span that was sent with a parent is stored with the id under which that
/// parent is stored, in the same trace; one is stored without a parent exactly
/// when it was sent without.
pub proof fn children_name_their_parent(
    parent: SpanDraft,
    child: SpanDraft,
    parent_service: Seq<char>,
    child_service: Seq<char>,
    p: OtelSpan,
    c: OtelSpan,
)
    requires
        is_draft_of(parent, parent_service, p),
        is_draft_of(child, child_service, c),
    ensures
        child.span@.parent_span_id is None <==> c.parent_span_id@.len() == 0,
        c.parent_span_id@.len() > 0 ==> (child.span@.parent_span_id == Some(parent.span@.span_id)
            <==> c.parent_span_id@ == p.span_id@),
        child.span@.trace_id == parent.span@.trace_id <==> c.trace_id@ == p.trace_id@,
        child.span@.span_id == parent.span@.span_id <==> c.span_id@ == p.span_id@,
{
    crate::crypto::hex_reads_back(c.parent_span_id@, p.span_id@);
    crate::crypto::hex_reads_back(c.trace_id@, p.trace_id@);
    crate::crypto::hex_reads_back(c.span_id@, p.span_id@);
}

/// A span keeps what was sent: its ids as two digits a byte, its name, its service
/// and its times, and each of its events in order.
pub proof fn spans_keep_what_was_sent(d: SpanDraft, service: Seq<char>, s: OtelSpan)
    requires
        is_draft_of(d, service, s),
    ensures
        d.span@.service == service,
        d.span@.operation == s.name@,
        d.span@.start == at(s.start_time_unix_nano as int),
        d.span@.end == at(s.end_time_unix_nano as int),
        d.span@.duration == (SpanDuration::Between {
            start: s.start_time_unix_nano,
            end: s.end_time_unix_nano,
        }),
        forall|i: int|
            0 <= i < s.trace_id@.len() ==> #[trigger] s.trace_id@[i] == 16
                * crate::crypto::hex_value(d.span@.trace_id[2 * i]) + crate::crypto::hex_value(
                d.span@.trace_id[2 * i + 1],
            ),
        forall|i: int|
            0 <= i < s.span_id@.len() ==> #[trigger] s.span_id@[i] == 16 * crate::crypto::hex_value(
                d.span@.span_id[2 * i],
            ) + crate::crypto::hex_value(d.span@.span_id[2 * i + 1]),
        d.span@.events.len() == s.events@.len(),
        forall|i: int|
            0 <= i < s.events@.len() ==> (#[trigger] d.span@.events[i]).name == s.events@[i].name@
                && d.span@.events[i].instant == at(s.events@[i].time_unix_nano as int)
                && d.span@.events[i].attributes == event_attribute_map(s.events@[i].attributes@),
{
    crate::crypto::hex_reads_back(s.trace_id@, s.trace_id@);
    crate::crypto::hex_reads_back(s.span_id@, s.span_id@);
}

/// Status and kind are those that the numbers sent stand for; a span that names a
/// model or its provider is a call to one, whatever kind it claims.
pub proof fn codes_have_their_names(d: SpanDraft, service: Seq<char>, s: OtelSpan)
    requires
        is_draft_of(d, service, s),
    ensures
        s.status == Some(1i32) <==> d.span@.status.word() == "ok"@,
        s.status == Some(2i32) <==> d.span@.status.word() == "error"@,
        s.status is None || (s.status != Some(1i32) && s.status != Some(2i32))
            ==> d.span@.status.word() == "unset"@,
        ({
            let sent = attribute_map(s.attributes@).dom();
            let calls = sent.contains("gen_ai.system"@) || sent.contains("gen_ai.request.model"@)
                || sent.contains("gen_ai.response.model"@);
            &&& calls <==> d.span@.kind.word() == "llm"@
            &&& calls <==> d.span@.llm is Some
            &&& !calls && s.kind == 2 ==> d.span@.kind.word() == "server"@
            &&& !calls && s.kind == 3 ==> d.span@.kind.word() == "client"@
            &&& !calls && s.kind == 4 ==> d.span@.kind.word() == "producer"@
            &&& !calls && s.kind == 5 ==> d.span@.kind.word() == "consumer"@
            &&& !calls && !(2 <= s.kind <= 5) ==> d.span@.kind.word() == "internal"@
        }),
{
    crate::spans::names_are_read_back(SpanStatus::Okay, SpanKind::Llm);
    crate::spans::names_are_read_back(SpanStatus::Error, SpanKind::Server);
    crate::spans::names_are_read_back(SpanStatus::Unset, SpanKind::Client);
    crate::spans::names_are_read_back(SpanStatus::Unset, SpanKind::Producer);
    crate::spans::names_are_read_back(SpanStatus::Unset, SpanKind::Consumer);
    crate::spans::names_are_read_back(SpanStatus::Unset, SpanKind::Internal);
}

/// Of a call to a model, the prompt and the completion are set apart, and every
/// other attribute stays; of any other span all stay.
pub proof fn payload_is_set_apart(d: SpanDraft, service: Seq<char>, s: OtelSpan, key: Seq<char>)
    requires
        is_draft_of(d, service, s),
    ensures
        ({
            let sent = attribute_map(s.attributes@);
            &&& d.span@.llm is None ==> d.span@.attributes == sent && d.prompt is None
                && d.completion is None
            &&& d.span@.llm is Some ==> {
                &&& match d.prompt {
                    Some(p) => sent.dom().contains("gen_ai.prompt"@) && sent["gen_ai.prompt"@]
                        == p@,
                    None => !sent.dom().contains("gen_ai.prompt"@),
                }
                &&& match d.completion {
                    Some(c) => sent.dom().contains("gen_ai.completion"@)
                        && sent["gen_ai.completion"@] == c@,
                    None => !sent.dom().contains("gen_ai.completion"@),
                }
                &&& key != "gen_ai.prompt"@ && key != "gen_ai.completion"@ ==> (
                d.span@.attributes.dom().contains(key) <==> sent.dom().contains(key)) && (
                sent.dom().contains(key) ==> d.span@.attributes[key] == sent[key])
            }
        }),
{
}

/// The attribute stored under a key is the last value sent under it that has a
/// text: a text itself, a number as it is written, a flag by its word.
pub proof fn attributes_read_back(kvs: Seq<KeyValue>, i: int)
    requires
        0 <= i < kvs.len(),
        kvs[i].value is Some,
        !(kvs[i].value->0 is Other),
        forall|j: int|
            i < j < kvs.len() && (#[trigger] kvs[j]).key@ == kvs[i].key@ ==> kvs[j].value is None
                || kvs[j].value->0 is Other,
    ensures
        attribute_map(kvs).dom().contains(kvs[i].key@),
        match kvs[i].value->0 {
            AnyValue::Text(s) => attribute_map(kvs)[kvs[i].key@] == s@,
            AnyValue::Flag(b) => attribute_map(kvs)[kvs[i].key@] == if b {
                "true"@
            } else {
                "false"@
            },
            AnyValue::Integer(n) => crate::text::signed_literal(attribute_map(kvs)[kvs[i].key@])
                == Some(n as int),
            AnyValue::Double(d) => attribute_map(kvs)[kvs[i].key@] == d@,
            AnyValue::Other => true,
        },
    decreases kvs.len(),
{
    if i == kvs.len() - 1 {
        if let AnyValue::Integer(n) = kvs[i].value->0 {
            crate::text::signed_decimal_reads_back(n as int);
        }
    } else {
        let init = kvs.drop_last();
        assert forall|j: int|
            i < j < init.len() && (#[trigger] init[j]).key@ == init[i].key@ implies init[j].value is None
            || init[j].value->0 is Other by {
            assert(init[j] == kvs[j]);
        }
        attributes_read_back(init, i);
        assert(kvs[kvs.len() - 1] == kvs.last());
    }
}

/// No attribute is stored that was not sent.
pub proof fn attributes_were_sent(kvs: Seq<KeyValue>, key: Seq<char>)
    ensures
        attribute_map(kvs).dom().contains(key) ==> exists|i: int|
            0 <= i < kvs.len() && (#[trigger] kvs[i]).key@ == key && kvs[i].value is Some && !(
            kvs[i].value->0 is Other),
        event_attribute_map(kvs).dom().contains(key) ==> exists|i: int|
            0 <= i < kvs.len() && (#[trigger] kvs[i]).key@ == key && (kvs[i].value matches Some(v)
                && (v is Text || v is Integer)),
    decreases kvs.len(),
{
    if kvs.len() > 0 {
        let init = kvs.drop_last();
        attributes_were_sent(init, key);
        assert(kvs[kvs.len() - 1] == kvs.last());
        if attribute_map(init).dom().contains(key) {
            let i = choose|i: int|
                0 <= i < init.len() && (#[trigger] init[i]).key@ == key && init[i].value is Some
                    && !(init[i].value->0 is Other);
            assert(kvs[i] == init[i]);
        }
        if event_attribute_map(init).dom().contains(key) {
            let i = choose|i: int|
                0 <= i < init.len() && (#[trigger] init[i]).key@ == key && (
                init[i].value matches Some(v) && (v is Text || v is Integer));
            assert(kvs[i] == init[i]);
        }
    }
}

/// An event keeps the texts and integers that were last sent with it.
pub proof fn event_attributes_read_back(kvs: Seq<KeyValue>, i: int)
    requires
        0 <= i < kvs.len(),
        kvs[i].value matches Some(v) && (v is Text || v is Integer),
        forall|j: int|
            i < j < kvs.len() ==> (#[trigger] kvs[j]).key@ != kvs[i].key@,
    ensures
        event_attribute_map(kvs).dom().contains(kvs[i].key@),
        match kvs[i].value->0 {
            AnyValue::Text(s) => event_attribute_map(kvs)[kvs[i].key@] == s@,
            AnyValue::Integer(n) => crate::text::signed_literal(
                event_attribute_map(kvs)[kvs[i].key@],
            ) == Some(n as int),
            _ => true,
        },
    decreases kvs.len(),
{
    if i == kvs.len() - 1 {
        if let AnyValue::Integer(n) = kvs[i].value->0 {
            crate::text::signed_decimal_reads_back(n as int);
        }
    } else {
        let init = kvs.drop_last();
        assert forall|j: int| i < j < init.len() implies (#[trigger] init[j]).key@ != init[i].key@ by {
            assert(init[j] == kvs[j]);
        }
        event_attributes_read_back(init, i);
        assert(kvs[kvs.len() - 1] == kvs.last());
    }
}

/// The service of a resource is the text of the first `service.name` that has a
/// value; a resource without one is unknown.
pub proof fn services_are_named_by_the_resource(kvs: Vec<KeyValue>, i: int)
    ensures
        service_of(None) == "unknown"@,
        (forall|j: int|
            0 <= j < kvs@.len() ==> (#[trigger] kvs@[j]).key@ != "service.name"@ || kvs@[j].value is None)
            ==> service_of(Some(kvs)) == "unknown"@,
        0 <= i < kvs@.len() && kvs@[i].key@ == "service.name"@ && (forall|j: int|
            0 <= j < i ==> (#[trigger] kvs@[j]).key@ != "service.name"@ || kvs@[j].value is None)
            ==> (kvs@[i].value matches Some(AnyValue::Text(s)) ==> service_of(Some(kvs)) == s@),
{
    service_is_first(kvs@, 0, i);
}

proof fn service_is_first(kvs: Seq<KeyValue>, from: int, i: int)
    requires
        0 <= from,
    ensures
        (forall|j: int|
            from <= j < kvs.len() ==> (#[trigger] kvs[j]).key@ != "service.name"@ || kvs[j].value is None)
            ==> service_from(kvs, from) is None,
        from <= i < kvs.len() && kvs[i].key@ == "service.name"@ && (forall|j: int|
            from <= j < i ==> (#[trigger] kvs[j]).key@ != "service.name"@ || kvs[j].value is None)
            ==> (kvs[i].value matches Some(AnyValue::Text(s)) ==> service_from(kvs, from) == Some(s@)),
    decreases kvs.len() - from,
{
    if from < kvs.len() {
        service_is_first(kvs, from + 1, i);
        assert(kvs[from] == kvs[from]);
    }
}

/// Sealing a span puts each digest in its place and changes nothing else but for
/// the tenant's stamp.
pub proof fn seals_keep_the_span(
    s: SpanModel,
    prompt: Option<Seq<char>>,
    completion: Option<Seq<char>>,
    stamp: Option<TenantStamp>,
)
    ensures
        ({
            let r = sealed(s, prompt, completion, stamp);
            &&& r.trace_id == s.trace_id && r.span_id == s.span_id && r.parent_span_id
                == s.parent_span_id
            &&& r.service == s.service && r.operation == s.operation && r.start == s.start && r.end
                == s.end
            &&& r.duration == s.duration && r.status == s.status && r.events == s.events && r.kind
                == s.kind
            &&& r.llm is Some <==> s.llm is Some
            &&& r.llm is Some ==> r.llm->0.prompt_sha256 == prompt && r.llm->0.completion_sha256
                == completion && r.llm->0.input_tokens == s.llm->0.input_tokens
                && r.llm->0.output_tokens == s.llm->0.output_tokens && r.llm->0.total_tokens
                == s.llm->0.total_tokens && r.llm->0.provider == s.llm->0.provider && r.llm->0.model
                == s.llm->0.model && r.llm->0.cost_usd == s.llm->0.cost_usd
            &&& stamp is None ==> r.attributes == s.attributes
            &&& stamp matches Some(t) ==> r.attributes == s.attributes.insert(
                t.attribute@,
                t.tenant@,
            )
        }),
{
}

/// What is searched of a call is its prompt, a space, and its completion.
pub proof fn searches_read_prompt_then_completion(p: Seq<char>, c: Seq<char>)
    ensures
        search_text_of(Some(p), Some(c)) == p + seq![' '] + c,
        search_text_of(None, Some(c)) == c,
        search_text_of(Some(p), None) == p + seq![' '],
{
    assert(search_text_of(Some(p), Some(c)) =~= p + seq![' '] + c);
    assert(search_text_of(None, Some(c)) =~= c);
    assert(search_text_of(Some(p), None) =~= p + seq![' ']);
}

} // verus!
