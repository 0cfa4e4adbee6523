//! Stored spans and log records.

use crate::labels::Labels;
use crate::time::{Instant, Timestamp};
use crate::text::{opt_text, same};
use vstd::prelude::*;

verus! {

#[derive(Debug, Clone, Copy, PartialEq, Eq, Structural)]
pub enum SpanStatus {
    Unset,
    Okay,
    Error,
}

#[derive(Debug, Clone, Copy, PartialEq, Eq, Structural)]
pub enum SpanKind {
    Internal,
    Server,
    Client,
    Producer,
    Consumer,
    /// A call to a language model.
    Llm,
}

impl SpanStatus {
    pub open spec fn word(self) -> Seq<char> {
        match self {
            SpanStatus::Unset => "unset"@,
            SpanStatus::Okay => "ok"@,
            SpanStatus::Error => "error"@,
        }
    }

    /// The name by which a status is stored and asked for.
    pub fn as_str(self) -> (r: &'static str)
        ensures
            r@ == self.word(),
    {
        match self {
            SpanStatus::Unset => "unset",
            SpanStatus::Okay => "ok",
            SpanStatus::Error => "error",
        }
    }

    /// The status of a name; one that is no status leaves it unset.
    pub fn named(name: &str) -> (r: SpanStatus)
        ensures
            r == status_named(name@),
    {
        if same(name, "ok") {
            SpanStatus::Okay
        } else if same(name, "error") {
            SpanStatus::Error
        } else {
            SpanStatus::Unset
        }
    }
}

pub open spec fn status_named(name: Seq<char>) -> SpanStatus {
    if name == "ok"@ {
        SpanStatus::Okay
    } else if name == "error"@ {
        SpanStatus::Error
    } else {
        SpanStatus::Unset
    }
}

impl SpanKind {
    pub open spec fn word(self) -> Seq<char> {
        match self {
            SpanKind::Internal => "internal"@,
            SpanKind::Server => "server"@,
            SpanKind::Client => "client"@,
            SpanKind::Producer => "producer"@,
            SpanKind::Consumer => "consumer"@,
            SpanKind::Llm => "llm"@,
        }
    }

    /// The name by which a kind is stored.
    pub fn as_str(self) -> (r: &'static str)
        ensures
            r@ == self.word(),
    {
        match self {
            SpanKind::Internal => "internal",
            SpanKind::Server => "server",
            SpanKind::Client => "client",
            SpanKind::Producer => "producer",
            SpanKind::Consumer => "consumer",
            SpanKind::Llm => "llm",
        }
    }

    /// The kind of a name; one that is no kind is internal.
    pub fn named(name: &str) -> (r: SpanKind)
        ensures
            r == kind_named(name@),
    {
        if same(name, "server") {
            SpanKind::Server
        } else if same(name, "client") {
            SpanKind::Client
        } else if same(name, "producer") {
            SpanKind::Producer
        } else if same(name, "consumer") {
            SpanKind::Consumer
        } else if same(name, "llm") {
            SpanKind::Llm
        } else {
            SpanKind::Internal
        }
    }
}

pub open spec fn kind_named(name: Seq<char>) -> SpanKind {
    if name == "server"@ {
        SpanKind::Server
    } else if name == "client"@ {
        SpanKind::Client
    } else if name == "producer"@ {
        SpanKind::Producer
    } else if name == "consumer"@ {
        SpanKind::Consumer
    } else if name == "llm"@ {
        SpanKind::Llm
    } else {
        SpanKind::Internal
    }
}

/// A status and a kind are read back from their names.
pub proof fn names_are_read_back(status: SpanStatus, kind: SpanKind)
    ensures
        status_named(status.word()) == status,
        kind_named(kind.word()) == kind,
{
    reveal_strlit("unset");
    reveal_strlit("ok");
    reveal_strlit("error");
    reveal_strlit("internal");
    reveal_strlit("server");
    reveal_strlit("client");
    reveal_strlit("producer");
    reveal_strlit("consumer");
    reveal_strlit("llm");
    assert("ok"@.len() == 2 && "unset"@.len() == 5 && "error"@.len() == 5);
    assert("llm"@.len() == 3 && "server"@.len() == 6 && "client"@.len() == 6);
    assert("internal"@.len() == 8 && "producer"@.len() == 8 && "consumer"@.len() == 8);
    assert("unset"@[0] != "error"@[0]);
    assert("server"@[0] != "client"@[0]);
    assert("producer"@[0] != "consumer"@[0]);
    assert("internal"@[0] != "producer"@[0] && "internal"@[0] != "consumer"@[0]);
}

#[derive(Debug)]
pub struct SpanEvent {
    pub name: String,
    pub timestamp: Timestamp,
    pub attributes: Labels,
}

/// What a call to a language model did.
#[derive(Debug, PartialEq, Eq)]
pub enum LlmOperation {
    Chat,
    /// The span names no operation.
    Unspecified,
    Other(String),
}

/// The typed part of a span that is a call to a language model. Numbers that
/// are not whole are kept in the form in which they were sent.
#[derive(Debug)]
pub struct LlmSpan {
    pub provider: String,
    pub model: String,
    pub operation: LlmOperation,
    pub input_tokens: Option<u32>,
    pub output_tokens: Option<u32>,
    pub total_tokens: Option<u32>,
    pub cost_usd: Option<String>,
    pub ttft_ms: Option<String>,
    pub inter_token_ms: Option<String>,
    pub prompt_sha256: Option<String>,
    pub completion_sha256: Option<String>,
    pub finish_reason: Option<String>,
    pub temperature: Option<String>,
}

/// How long a span took, in the numbers in which it was reported.
#[derive(Debug, Clone, Copy, PartialEq, Eq, Structural)]
pub enum SpanDuration {
    /// From one instant to another, in nanoseconds since the epoch.
    Between { start: u64, end: u64 },
    /// Nanoseconds.
    Nanos(i64),
    /// Microseconds.
    Micros(i64),
    /// The bits of a double of milliseconds.
    Millis(u64),
}

#[derive(Debug)]
pub struct Span {
    pub trace_id: String,
    pub span_id: String,
    pub parent_span_id: Option<String>,
    pub service: String,
    pub operation: String,
    pub start_time: Timestamp,
    pub end_time: Timestamp,
    pub duration: SpanDuration,
    pub status: SpanStatus,
    pub attributes: Labels,
    pub events: Vec<SpanEvent>,
    pub kind: SpanKind,
    pub llm: Option<LlmSpan>,
}

#[derive(Debug)]
pub struct LogRecord {
    pub timestamp: Timestamp,
    pub observed_timestamp: Timestamp,
    pub trace_id: Option<String>,
    pub span_id: Option<String>,
    pub severity: String,
    pub severity_text: String,
    pub body: String,
    pub service: String,
    pub attributes: Labels,
    pub body_sha256: Option<String>,
}

// ── Models ──────────────────────────────────────────────────────────

pub enum OperationModel {
    Chat,
    Unspecified,
    Other(Seq<char>),
}

pub struct LlmModel {
    pub provider: Seq<char>,
    pub model: Seq<char>,
    pub operation: OperationModel,
    pub input_tokens: Option<u32>,
    pub output_tokens: Option<u32>,
    pub total_tokens: Option<u32>,
    pub cost_usd: Option<Seq<char>>,
    pub ttft_ms: Option<Seq<char>>,
    pub inter_token_ms: Option<Seq<char>>,
    pub prompt_sha256: Option<Seq<char>>,
    pub completion_sha256: Option<Seq<char>>,
    pub finish_reason: Option<Seq<char>>,
    pub temperature: Option<Seq<char>>,
}

pub struct EventModel {
    pub name: Seq<char>,
    pub instant: Instant,
    pub attributes: Map<Seq<char>, Seq<char>>,
}

pub struct SpanModel {
    pub trace_id: Seq<char>,
    pub span_id: Seq<char>,
    pub parent_span_id: Option<Seq<char>>,
    pub service: Seq<char>,
    pub operation: Seq<char>,
    pub start: Instant,
    pub end: Instant,
    pub duration: SpanDuration,
    pub status: SpanStatus,
    pub attributes: Map<Seq<char>, Seq<char>>,
    pub events: Seq<EventModel>,
    pub kind: SpanKind,
    pub llm: Option<LlmModel>,
}

pub struct LogModel {
    pub instant: Instant,
    pub observed: Instant,
    pub trace_id: Option<Seq<char>>,
    pub span_id: Option<Seq<char>>,
    pub severity: Seq<char>,
    pub severity_text: Seq<char>,
    pub body: Seq<char>,
    pub service: Seq<char>,
    pub attributes: Map<Seq<char>, Seq<char>>,
    pub body_sha256: Option<Seq<char>>,
}

impl View for LlmOperation {
    type V = OperationModel;

    open spec fn view(&self) -> OperationModel {
        match self {
            LlmOperation::Chat => OperationModel::Chat,
            LlmOperation::Unspecified => OperationModel::Unspecified,
            LlmOperation::Other(s) => OperationModel::Other(s@),
        }
    }
}

impl View for LlmSpan {
    type V = LlmModel;

    open spec fn view(&self) -> LlmModel {
        LlmModel {
            provider: self.provider@,
            model: self.model@,
            operation: self.operation@,
            input_tokens: self.input_tokens,
            output_tokens: self.output_tokens,
            total_tokens: self.total_tokens,
            cost_usd: opt_text(self.cost_usd),
            ttft_ms: opt_text(self.ttft_ms),
            inter_token_ms: opt_text(self.inter_token_ms),
            prompt_sha256: opt_text(self.prompt_sha256),
            completion_sha256: opt_text(self.completion_sha256),
            finish_reason: opt_text(self.finish_reason),
            temperature: opt_text(self.temperature),
        }
    }
}

impl View for SpanEvent {
    type V = EventModel;

    open spec fn view(&self) -> EventModel {
        EventModel {
            name: self.name@,
            instant: self.timestamp@,
            attributes: self.attributes@,
        }
    }
}

pub open spec fn span_views(v: Seq<Span>) -> Seq<SpanModel> {
    v.map_values(|s: Span| s@)
}

pub open spec fn event_views(v: Seq<SpanEvent>) -> Seq<EventModel> {
    v.map_values(|e: SpanEvent| e@)
}

pub open spec fn opt_llm(v: Option<LlmSpan>) -> Option<LlmModel> {
    match v {
        Some(l) => Some(l@),
        None => None,
    }
}

impl View for Span {
    type V = SpanModel;

    open spec fn view(&self) -> SpanModel {
        SpanModel {
            trace_id: self.trace_id@,
            span_id: self.span_id@,
            parent_span_id: opt_text(self.parent_span_id),
            service: self.service@,
            operation: self.operation@,
            start: self.start_time@,
            end: self.end_time@,
            duration: self.duration,
            status: self.status,
            attributes: self.attributes@,
            events: event_views(self.events@),
            kind: self.kind,
            llm: opt_llm(self.llm),
        }
    }
}

impl View for LogRecord {
    type V = LogModel;

    open spec fn view(&self) -> LogModel {
        LogModel {
            instant: self.timestamp@,
            observed: self.observed_timestamp@,
            trace_id: opt_text(self.trace_id),
            span_id: opt_text(self.span_id),
            severity: self.severity@,
            severity_text: self.severity_text@,
            body: self.body@,
            service: self.service@,
            attributes: self.attributes@,
            body_sha256: opt_text(self.body_sha256),
        }
    }
}

// ── Language-model calls ────────────────────────────────────────────

/// What a map holds under one of two names, the first one first.
pub open spec fn either(m: Map<Seq<char>, Seq<char>>, a: Seq<char>, b: Seq<char>) -> Option<
    Seq<char>,
> {
    if m.dom().contains(a) {
        Some(m[a])
    } else if m.dom().contains(b) {
        Some(m[b])
    } else {
        None
    }
}

pub open spec fn under(m: Map<Seq<char>, Seq<char>>, a: Seq<char>) -> Option<Seq<char>> {
    if m.dom().contains(a) {
        Some(m[a])
    } else {
        None
    }
}

/// A 32-bit count in a text.
pub open spec fn count_in(s: Option<Seq<char>>) -> Option<u32> {
    match s {
        Some(t) => match crate::text::unsigned_literal(t) {
            Some(n) => if n <= u32::MAX {
                Some(n as u32)
            } else {
                None
            },
            None => None,
        },
        None => None,
    }
}

/// A text that denotes a number.
pub open spec fn number_in(s: Option<Seq<char>>) -> Option<Seq<char>> {
    match s {
        Some(t) => if crate::number::is_float(t) {
            Some(t)
        } else {
            None
        },
        None => None,
    }
}

/// The typed part of a span with the given attributes, if it is a call to a
/// language model: one that names a provider or a model. The total of tokens
/// is the sum of input and output where both are known, wrapping at 32 bits.
pub open spec fn llm_of(m: Map<Seq<char>, Seq<char>>) -> Option<LlmModel> {
    let provider = under(m, "gen_ai.system"@);
    let model = either(m, "gen_ai.request.model"@, "gen_ai.response.model"@);
    if provider is None && model is None {
        None
    } else {
        let input = count_in(
            either(m, "gen_ai.usage.input_tokens"@, "gen_ai.usage.prompt_tokens"@),
        );
        let output = count_in(
            either(m, "gen_ai.usage.output_tokens"@, "gen_ai.usage.completion_tokens"@),
        );
        Some(
            LlmModel {
                provider: match provider {
                    Some(p) => p,
                    None => Seq::empty(),
                },
                model: match model {
                    Some(p) => p,
                    None => Seq::empty(),
                },
                operation: match under(m, "gen_ai.operation.name"@) {
                    Some(s) => if s == "chat"@ {
                        OperationModel::Chat
                    } else {
                        OperationModel::Other(s)
                    },
                    None => OperationModel::Unspecified,
                },
                input_tokens: input,
                output_tokens: output,
                total_tokens: match (input, output) {
                    (Some(i), Some(o)) => Some(i.wrapping_add(o)),
                    _ => count_in(under(m, "gen_ai.usage.total_tokens"@)),
                },
                cost_usd: number_in(either(m, "gen_ai.usage.cost"@, "gen_ai.usage.cost_usd"@)),
                ttft_ms: number_in(under(m, "gen_ai.response.time_to_first_token_ms"@)),
                inter_token_ms: None,
                prompt_sha256: None,
                completion_sha256: None,
                finish_reason: either(
                    m,
                    "gen_ai.response.finish_reasons"@,
                    "gen_ai.response.finish_reason"@,
                ),
                temperature: number_in(under(m, "gen_ai.request.temperature"@)),
            },
        )
    }
}

fn first_of<'a>(attrs: &'a Labels, a: &str, b: &str) -> (r: Option<&'a String>)
    ensures
        match r {
            Some(v) => either(attrs@, a@, b@) == Some(v@),
            None => either(attrs@, a@, b@) is None,
        },
{
    match attrs.get(a) {
        Some(v) => Some(v),
        None => attrs.get(b),
    }
}

fn copied(v: Option<&String>) -> (r: Option<String>)
    ensures
        match v {
            Some(s) => opt_text(r) == Some(s@),
            None => r is None,
        },
{
    match v {
        Some(s) => Some(s.clone()),
        None => None,
    }
}

fn read_count(v: Option<&String>) -> (r: Option<u32>)
    ensures
        r == count_in(
            match v {
                Some(s) => Some(s@),
                None => None,
            },
        ),
{
    match v {
        Some(s) => match crate::text::parse_unsigned(s.as_str(), 0xffff_ffff) {
            Some(n) => Some(n as u32),
            None => None,
        },
        None => None,
    }
}

fn read_number(v: Option<&String>) -> (r: Option<String>)
    ensures
        opt_text(r) == number_in(
            match v {
                Some(s) => Some(s@),
                None => None,
            },
        ),
{
    match v {
        Some(s) => {
            if crate::number::float_literal(s.as_str()) {
                Some(s.clone())
            } else {
                None
            }
        },
        None => None,
    }
}

/// Build the typed part of a span from its GenAI attributes (`gen_ai.*`).
/// Returns `None` when the span is not a call to a language model. The
/// attributes stay as they are, so filters on them keep working.
pub fn extract_llm_span(attrs: &Labels) -> (r: Option<LlmSpan>)
    ensures
        opt_llm(r) == llm_of(attrs@),
{
    let provider = copied(attrs.get("gen_ai.system"));
    let model = copied(first_of(attrs, "gen_ai.request.model", "gen_ai.response.model"));
    if provider.is_none() && model.is_none() {
        return None;
    }
    let input_tokens: Option<u32> = read_count(
        first_of(attrs, "gen_ai.usage.input_tokens", "gen_ai.usage.prompt_tokens"),
    );
    let output_tokens: Option<u32> = read_count(
        first_of(attrs, "gen_ai.usage.output_tokens", "gen_ai.usage.completion_tokens"),
    );
    let total_tokens: Option<u32> = match (input_tokens, output_tokens) {
        (Some(i), Some(o)) => Some(i.wrapping_add(o)),
        _ => read_count(attrs.get("gen_ai.usage.total_tokens")),
    };
    let operation = match attrs.get("gen_ai.operation.name") {
        Some(s) => {
            if crate::text::same(s.as_str(), "chat") {
                LlmOperation::Chat
            } else {
                LlmOperation::Other(s.clone())
            }
        },
        None => LlmOperation::Unspecified,
    };
    Some(
        LlmSpan {
            provider: match provider {
                Some(p) => p,
                None => String::new(),
            },
            model: match model {
                Some(m) => m,
                None => String::new(),
            },
            operation,
            input_tokens,
            output_tokens,
            total_tokens,
            cost_usd: read_number(first_of(attrs, "gen_ai.usage.cost", "gen_ai.usage.cost_usd")),
            ttft_ms: read_number(attrs.get("gen_ai.response.time_to_first_token_ms")),
            inter_token_ms: None,
            prompt_sha256: None,
            completion_sha256: None,
            finish_reason: copied(
                first_of(
                    attrs,
                    "gen_ai.response.finish_reasons",
                    "gen_ai.response.finish_reason",
                ),
            ),
            temperature: read_number(attrs.get("gen_ai.request.temperature")),
        },
    )
}

// ── Tenants ─────────────────────────────────────────────────────────

/// The attribute that says whose a record is, and whose it is.
#[derive(Debug, Clone)]
pub struct TenantStamp {
    pub attribute: String,
    pub tenant: String,
}

/// Attributes with a stamp put on them last, so that it overrides whatever the
/// client sent: the attribute is an authorization boundary, not client data.
pub open spec fn stamped(
    attributes: Map<Seq<char>, Seq<char>>,
    stamp: Option<TenantStamp>,
) -> Map<Seq<char>, Seq<char>> {
    match stamp {
        Some(s) => attributes.insert(s.attribute@, s.tenant@),
        None => attributes,
    }
}

pub fn stamp_attributes(attributes: &mut Labels, stamp: &Option<TenantStamp>)
    ensures
        final(attributes)@ == stamped(old(attributes)@, *stamp),
{
    if let Some(s) = stamp {
        attributes.insert(s.attribute.clone(), s.tenant.clone());
    }
}

/// A tenant that a client claims makes no difference to a stamped record.
pub proof fn the_stamp_overrides_a_forged_tenant(
    attributes: Map<Seq<char>, Seq<char>>,
    forged: Seq<char>,
    stamp: TenantStamp,
)
    ensures
        stamped(attributes.insert(stamp.attribute@, forged), Some(stamp)) == stamped(
            attributes,
            Some(stamp),
        ),
        stamped(attributes, Some(stamp))[stamp.attribute@] == stamp.tenant@,
        stamped(attributes, None) == attributes,
{
    assert(attributes.insert(stamp.attribute@, forged).insert(stamp.attribute@, stamp.tenant@)
        =~= attributes.insert(stamp.attribute@, stamp.tenant@));
}

/// Each figure of a call to a model is read from the attribute of its name: the
/// tokens that went in, those that came out, and their sum, or the total that was
/// sent where one of the two is missing.
pub proof fn calls_are_counted_by_name(m: Map<Seq<char>, Seq<char>>, n: nat, k: nat)
    requires
        llm_of(m) is Some,
        n + k <= u32::MAX,
    ensures
        m.dom().contains("gen_ai.usage.input_tokens"@) && m["gen_ai.usage.input_tokens"@]
            == crate::text::decimal(n) ==> llm_of(m)->0.input_tokens == Some(n as u32),
        m.dom().contains("gen_ai.usage.output_tokens"@) && m["gen_ai.usage.output_tokens"@]
            == crate::text::decimal(k) ==> llm_of(m)->0.output_tokens == Some(k as u32),
        m.dom().contains("gen_ai.usage.prompt_tokens"@) && !m.dom().contains(
            "gen_ai.usage.input_tokens"@,
        ) && m["gen_ai.usage.prompt_tokens"@] == crate::text::decimal(n) ==> llm_of(
            m,
        )->0.input_tokens == Some(n as u32),
        m.dom().contains("gen_ai.usage.completion_tokens"@) && !m.dom().contains(
            "gen_ai.usage.output_tokens"@,
        ) && m["gen_ai.usage.completion_tokens"@] == crate::text::decimal(k) ==> llm_of(
            m,
        )->0.output_tokens == Some(k as u32),
        llm_of(m)->0.input_tokens == Some(n as u32) && llm_of(m)->0.output_tokens == Some(k as u32)
            ==> llm_of(m)->0.total_tokens == Some((n + k) as u32),
        m.dom().contains("gen_ai.usage.total_tokens"@) && m["gen_ai.usage.total_tokens"@]
            == crate::text::decimal(n) && (llm_of(m)->0.input_tokens is None || llm_of(
            m,
        )->0.output_tokens is None) ==> llm_of(m)->0.total_tokens == Some(n as u32),
        !m.dom().contains("gen_ai.usage.input_tokens"@) && !m.dom().contains(
            "gen_ai.usage.prompt_tokens"@,
        ) ==> llm_of(m)->0.input_tokens is None,
        !m.dom().contains("gen_ai.usage.output_tokens"@) && !m.dom().contains(
            "gen_ai.usage.completion_tokens"@,
        ) ==> llm_of(m)->0.output_tokens is None,
{
    crate::text::decimal_reads_back(n);
    crate::text::decimal_reads_back(k);
    assert(crate::text::decimal(n)[0] != '+');
    assert(crate::text::decimal(k)[0] != '+');
}

/// A call to a model is a span that names one or its provider, and keeps both
/// names, what it does, why it ended and what it cost as they were sent.
pub proof fn calls_keep_what_was_sent(m: Map<Seq<char>, Seq<char>>)
    ensures
        llm_of(m) is Some <==> m.dom().contains("gen_ai.system"@) || m.dom().contains(
            "gen_ai.request.model"@,
        ) || m.dom().contains("gen_ai.response.model"@),
        llm_of(m) matches Some(l) ==> {
            &&& m.dom().contains("gen_ai.system"@) ==> l.provider == m["gen_ai.system"@]
            &&& m.dom().contains("gen_ai.request.model"@) ==> l.model == m["gen_ai.request.model"@]
            &&& !m.dom().contains("gen_ai.request.model"@) && m.dom().contains(
                "gen_ai.response.model"@,
            ) ==> l.model == m["gen_ai.response.model"@]
            &&& m.dom().contains("gen_ai.operation.name"@) ==> (m["gen_ai.operation.name"@]
                == "chat"@ <==> l.operation == OperationModel::Chat)
            &&& m.dom().contains("gen_ai.operation.name"@) && m["gen_ai.operation.name"@]
                != "chat"@ ==> l.operation == OperationModel::Other(m["gen_ai.operation.name"@])
            &&& l.operation == OperationModel::Unspecified <==> !m.dom().contains(
                "gen_ai.operation.name"@,
            )
            &&& l.cost_usd matches Some(c) ==> (m.dom().contains("gen_ai.usage.cost"@) && c
                == m["gen_ai.usage.cost"@]) || (m.dom().contains("gen_ai.usage.cost_usd"@) && c
                == m["gen_ai.usage.cost_usd"@])
            &&& m.dom().contains("gen_ai.usage.cost"@) && crate::number::is_float(
                m["gen_ai.usage.cost"@],
            ) ==> l.cost_usd == Some(m["gen_ai.usage.cost"@])
            &&& l.ttft_ms matches Some(t) ==> m.dom().contains(
                "gen_ai.response.time_to_first_token_ms"@,
            ) && t == m["gen_ai.response.time_to_first_token_ms"@]
            &&& m.dom().contains("gen_ai.response.time_to_first_token_ms"@)
                && crate::number::is_float(m["gen_ai.response.time_to_first_token_ms"@])
                ==> l.ttft_ms is Some
            &&& l.temperature matches Some(t) ==> m.dom().contains("gen_ai.request.temperature"@)
                && t == m["gen_ai.request.temperature"@]
            &&& m.dom().contains("gen_ai.request.temperature"@) && crate::number::is_float(
                m["gen_ai.request.temperature"@],
            ) ==> l.temperature is Some
            &&& m.dom().contains("gen_ai.response.finish_reasons"@) ==> l.finish_reason == Some(
                m["gen_ai.response.finish_reasons"@],
            )
            &&& !m.dom().contains("gen_ai.response.finish_reasons"@) && m.dom().contains(
                "gen_ai.response.finish_reason"@,
            ) ==> l.finish_reason == Some(m["gen_ai.response.finish_reason"@])
            &&& l.prompt_sha256 is None && l.completion_sha256 is None && l.inter_token_ms is None
        },
{
}

/// A span, a record and a call are seen as what their fields hold.
pub proof fn views_show_the_fields(s: Span, l: LogRecord, c: LlmSpan)
    ensures
        s@.trace_id == s.trace_id@ && s@.span_id == s.span_id@ && s@.service == s.service@
            && s@.operation == s.operation@,
        s@.start == s.start_time@ && s@.end == s.end_time@ && s@.status == s.status && s@.kind
            == s.kind && s@.duration == s.duration,
        s@.attributes == s.attributes@ && s@.events.len() == s.events@.len(),
        s.parent_span_id is None <==> s@.parent_span_id is None,
        s.parent_span_id matches Some(p) ==> s@.parent_span_id == Some(p@),
        s.llm is None <==> s@.llm is None,
        s.llm matches Some(m) ==> s@.llm == Some(m@),
        c@.input_tokens == c.input_tokens && c@.output_tokens == c.output_tokens && c@.total_tokens
            == c.total_tokens,
        c@.provider == c.provider@ && c@.model == c.model@,
        c.prompt_sha256 matches Some(h) ==> c@.prompt_sha256 == Some(h@),
        c.completion_sha256 matches Some(h) ==> c@.completion_sha256 == Some(h@),
        c.cost_usd matches Some(h) ==> c@.cost_usd == Some(h@),
        c.ttft_ms matches Some(h) ==> c@.ttft_ms == Some(h@),
        c.temperature matches Some(h) ==> c@.temperature == Some(h@),
        c.finish_reason matches Some(h) ==> c@.finish_reason == Some(h@),
        l@.instant == l.timestamp@ && l@.observed == l.observed_timestamp@ && l@.severity
            == l.severity@ && l@.severity_text == l.severity_text@ && l@.body == l.body@
            && l@.service == l.service@ && l@.attributes == l.attributes@,
        l.trace_id matches Some(t) ==> l@.trace_id == Some(t@),
        l.span_id matches Some(t) ==> l@.span_id == Some(t@),
        l.body_sha256 matches Some(t) ==> l@.body_sha256 == Some(t@),
{
}

} // verus!
