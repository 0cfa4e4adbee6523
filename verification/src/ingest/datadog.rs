//! Trace-agent intake: payloads of dd-trace clients and the spans in them.

use crate::hex_number::{hex_id, hex_id_text, hex_literal, parse_hex, push_hex_id};
use crate::ingest::otlp::{without_payload, SpanDraft};
use crate::labels::{as_map, Labels};
use crate::spans::{span_views, event_views, extract_llm_span, llm_of, under, EventModel, Span, SpanDuration, SpanEvent, SpanKind, SpanModel, SpanStatus};
use crate::text::{contains, decimal, decimal_u64, has_substring, opt_text, same, trim, trimmed};
use crate::time::{at, Timestamp};
use vstd::prelude::*;

verus! {

/// Wire format of a traces payload. `V04` covers v0.3 and v0.4, whose spans
/// are maps; `V05` is the string-table array encoding.
#[derive(Debug, Clone, Copy, PartialEq, Eq, Structural)]
pub enum TracesVersion {
    V04,
    V05,
}

/// One span as a client sends it. `metrics` holds each number as its decimal
/// text.
#[derive(Debug)]
pub struct DdSpan {
    pub service: String,
    pub name: String,
    pub resource: String,
    pub trace_id: u64,
    pub span_id: u64,
    pub parent_id: u64,
    /// Start time, nanoseconds since the Unix epoch.
    pub start: i64,
    /// Duration in nanoseconds.
    pub duration: i64,
    pub error: i32,
    pub meta: Labels,
    pub metrics: Labels,
    pub span_type: String,
}

pub struct DdModel {
    pub service: Seq<char>,
    pub name: Seq<char>,
    pub resource: Seq<char>,
    pub trace_id: u64,
    pub span_id: u64,
    pub parent_id: u64,
    pub start: i64,
    pub duration: i64,
    pub error: i32,
    pub meta: Map<Seq<char>, Seq<char>>,
    pub metrics: Map<Seq<char>, Seq<char>>,
    pub span_type: Seq<char>,
}

impl View for DdSpan {
    type V = DdModel;

    open spec fn view(&self) -> DdModel {
        DdModel {
            service: self.service@,
            name: self.name@,
            resource: self.resource@,
            trace_id: self.trace_id,
            span_id: self.span_id,
            parent_id: self.parent_id,
            start: self.start,
            duration: self.duration,
            error: self.error,
            meta: self.meta@,
            metrics: self.metrics@,
            span_type: self.span_type@,
        }
    }
}

fn empty() -> (r: String)
    ensures
        r@ == Seq::<char>::empty(),
{
    let s = String::new();
    assert(s@ =~= Seq::<char>::empty());
    s
}

impl Default for DdSpan {
    fn default() -> (r: DdSpan)
        ensures
            r@ == (DdModel {
                service: Seq::empty(),
                name: Seq::empty(),
                resource: Seq::empty(),
                trace_id: 0,
                span_id: 0,
                parent_id: 0,
                start: 0,
                duration: 0,
                error: 0,
                meta: Map::empty(),
                metrics: Map::empty(),
                span_type: Seq::empty(),
            }),
    {
        DdSpan {
            service: empty(),
            name: empty(),
            resource: empty(),
            trace_id: 0,
            span_id: 0,
            parent_id: 0,
            start: 0,
            duration: 0,
            error: 0,
            meta: Labels::new(),
            metrics: Labels::new(),
            span_type: empty(),
        }
    }
}

pub open spec fn dd_views(v: Seq<DdSpan>) -> Seq<DdModel> {
    v.map_values(|d: DdSpan| d@)
}

// ── Decoding ────────────────────────────────────────────────────────

/// How a traces payload is to be decoded.
#[derive(Debug, Clone, Copy, PartialEq, Eq, Structural)]
pub enum Decoding {
    Json,
    MsgpackMaps,
    MsgpackTable,
}

/// Maps come as JSON where the content type says so, as msgpack otherwise.
pub open spec fn decoding_for(version: TracesVersion, content_type: Option<Seq<char>>) -> Decoding {
    match version {
        TracesVersion::V05 => Decoding::MsgpackTable,
        TracesVersion::V04 => match content_type {
            Some(ct) => if has_substring(ct, "json"@) {
                Decoding::Json
            } else {
                Decoding::MsgpackMaps
            },
            None => Decoding::MsgpackMaps,
        },
    }
}

pub fn decoding(version: TracesVersion, content_type: &Option<String>) -> (r: Decoding)
    ensures
        r == decoding_for(version, opt_text(*content_type)),
{
    match version {
        TracesVersion::V05 => Decoding::MsgpackTable,
        TracesVersion::V04 => match content_type {
            Some(ct) => if contains(ct.as_str(), "json") {
                Decoding::Json
            } else {
                Decoding::MsgpackMaps
            },
            None => Decoding::MsgpackMaps,
        },
    }
}

/// A msgpack value, as far as a payload is read.
#[derive(Debug)]
pub enum MsgValue {
    /// A number: as an integer of either sign where it is one, and its decimal
    /// text as a double.
    Number { unsigned: Option<u64>, signed: Option<i64>, double: String },
    Text(String),
    Array(Vec<MsgValue>),
    Table(Vec<(MsgValue, MsgValue)>),
    Other,
}

pub enum MsgModel {
    Number { unsigned: Option<u64>, signed: Option<i64>, double: Seq<char> },
    Text(Seq<char>),
    Array(Seq<MsgModel>),
    Table(Seq<(MsgModel, MsgModel)>),
    Other,
}

pub open spec fn msg_model(v: MsgValue) -> MsgModel
    decreases v,
{
    match v {
        MsgValue::Number { unsigned, signed, double } => MsgModel::Number {
            unsigned,
            signed,
            double: double@,
        },
        MsgValue::Text(s) => MsgModel::Text(s@),
        MsgValue::Array(items) => MsgModel::Array(
            Seq::new(
                items@.len(),
                |i: int|
                    if 0 <= i < items@.len() {
                        msg_model(items@[i])
                    } else {
                        MsgModel::Other
                    },
            ),
        ),
        MsgValue::Table(pairs) => MsgModel::Table(
            Seq::new(
                pairs@.len(),
                |i: int|
                    if 0 <= i < pairs@.len() {
                        (msg_model(pairs@[i].0), msg_model(pairs@[i].1))
                    } else {
                        (MsgModel::Other, MsgModel::Other)
                    },
            ),
        ),
        MsgValue::Other => MsgModel::Other,
    }
}

impl View for MsgValue {
    type V = MsgModel;

    open spec fn view(&self) -> MsgModel {
        msg_model(*self)
    }
}

/// A value as the rmpv crate decodes it.
#[verifier::external_type_specification]
#[verifier::external_body]
pub struct ExRmpvValue(rmpv::Value);

/// What a decoded value holds: numbers, texts, arrays and maps. Texts that are
/// not valid UTF-8, and everything else, count as other.
pub uninterp spec fn held(v: rmpv::Value) -> MsgModel;

/// What the rmpv crate reads at the start of some bytes; nothing where they
/// are malformed.
pub uninterp spec fn msgpack(body: Seq<u8>) -> Option<MsgModel>;

/// Calls `rmpv::decode::read_value`. Claims that the value read is a function
/// of the bytes.
#[verifier::external_body]
fn rmpv_read(body: &Vec<u8>) -> (r: Option<rmpv::Value>)
    ensures
        match r {
            Some(v) => msgpack(body@) == Some(held(v)),
            None => msgpack(body@) is None,
        },
{
    rmpv::decode::read_value(&mut body.as_slice()).ok()
}

/// Moves what a value of rmpv holds into a value of this library, through its
/// `as_f64`, `as_u64`, `as_i64` and `into_str`. Claims that the result holds
/// what the value holds.
#[verifier::external_body]
fn rmpv_contents(v: rmpv::Value) -> (r: MsgValue)
    ensures
        r@ == held(v),
{
    match v {
        rmpv::Value::String(s) => s.into_str().map_or(MsgValue::Other, MsgValue::Text),
        rmpv::Value::Array(a) => MsgValue::Array(a.into_iter().map(rmpv_contents).collect()),
        rmpv::Value::Map(m) => MsgValue::Table(
            m.into_iter().map(|(k, v)| (rmpv_contents(k), rmpv_contents(v))).collect(),
        ),
        n => match n.as_f64() {
            Some(d) => MsgValue::Number { unsigned: n.as_u64(), signed: n.as_i64(), double: d.to_string() },
            None => MsgValue::Other,
        },
    }
}

/// What is wrong with a string-table payload.
#[derive(Debug, Clone, Copy, PartialEq, Eq, Structural)]
pub enum TableError {
    Malformed,
    NotAPair,
    TableNotAnArray,
    TracesNotAnArray,
    TraceNotAnArray,
    SpanNotAnArray,
    TooFewFields(usize),
}

impl TableError {
    pub open spec fn text(self) -> Seq<char> {
        match self {
            TableError::Malformed => "msgpack v0.5 decode failed"@,
            TableError::NotAPair => "v0.5 payload must be a 2-element array [strings, traces]"@,
            TableError::TableNotAnArray => "v0.5 string table must be an array"@,
            TableError::TracesNotAnArray => "v0.5 traces must be an array"@,
            TableError::TraceNotAnArray => "v0.5 trace must be an array"@,
            TableError::SpanNotAnArray => "v0.5 span must be an array"@,
            TableError::TooFewFields(n) => "v0.5 span must have 12 fields, got "@ + decimal(
                n as nat,
            ),
        }
    }

    pub fn message(&self) -> (r: String)
        ensures
            r@ == self.text(),
    {
        match self {
            TableError::Malformed => "msgpack v0.5 decode failed".to_owned(),
            TableError::NotAPair =>
                "v0.5 payload must be a 2-element array [strings, traces]".to_owned(),
            TableError::TableNotAnArray => "v0.5 string table must be an array".to_owned(),
            TableError::TracesNotAnArray => "v0.5 traces must be an array".to_owned(),
            TableError::TraceNotAnArray => "v0.5 trace must be an array".to_owned(),
            TableError::SpanNotAnArray => "v0.5 span must be an array".to_owned(),
            TableError::TooFewFields(n) => {
                let mut s = "v0.5 span must have 12 fields, got ".to_owned();
                s.append(decimal_u64(*n as u64).as_str());
                s
            },
        }
    }
}

pub open spec fn text_in(m: MsgModel) -> Seq<char> {
    match m {
        MsgModel::Text(s) => s,
        _ => Seq::empty(),
    }
}

pub open spec fn unsigned_in(m: MsgModel) -> Option<u64> {
    match m {
        MsgModel::Number { unsigned, .. } => unsigned,
        _ => None,
    }
}

pub open spec fn signed_in(m: MsgModel) -> Option<i64> {
    match m {
        MsgModel::Number { signed, .. } => signed,
        _ => None,
    }
}

pub open spec fn or_zero_u64(v: Option<u64>) -> u64 {
    match v {
        Some(n) => n,
        None => 0,
    }
}

pub open spec fn or_zero_i64(v: Option<i64>) -> i64 {
    match v {
        Some(n) => n,
        None => 0,
    }
}

/// The text that an index stands for; what is no index, or points past the
/// table, stands for an empty one.
pub open spec fn looked_up(table: Seq<MsgModel>, m: MsgModel) -> Seq<char> {
    match unsigned_in(m) {
        Some(i) => if i < table.len() {
            text_in(table[i as int])
        } else {
            Seq::empty()
        },
        None => Seq::empty(),
    }
}

pub open spec fn meta_pairs(table: Seq<MsgModel>, pairs: Seq<(MsgModel, MsgModel)>) -> Map<
    Seq<char>,
    Seq<char>,
>
    decreases pairs.len(),
{
    if pairs.len() == 0 {
        Map::empty()
    } else {
        meta_pairs(table, pairs.drop_last()).insert(
            looked_up(table, pairs.last().0),
            looked_up(table, pairs.last().1),
        )
    }
}

pub open spec fn metric_pairs(table: Seq<MsgModel>, pairs: Seq<(MsgModel, MsgModel)>) -> Map<
    Seq<char>,
    Seq<char>,
>
    decreases pairs.len(),
{
    if pairs.len() == 0 {
        Map::empty()
    } else {
        let before = metric_pairs(table, pairs.drop_last());
        match pairs.last().1 {
            MsgModel::Number { double, .. } => before.insert(
                looked_up(table, pairs.last().0),
                double,
            ),
            _ => before,
        }
    }
}

/// The string tags of a span.
pub open spec fn meta_in(table: Seq<MsgModel>, m: MsgModel) -> Map<Seq<char>, Seq<char>> {
    match m {
        MsgModel::Table(pairs) => meta_pairs(table, pairs),
        _ => Map::empty(),
    }
}

/// The numeric tags of a span.
pub open spec fn metrics_in(table: Seq<MsgModel>, m: MsgModel) -> Map<Seq<char>, Seq<char>> {
    match m {
        MsgModel::Table(pairs) => metric_pairs(table, pairs),
        _ => Map::empty(),
    }
}

/// The span in twelve fields.
pub open spec fn span_in(table: Seq<MsgModel>, f: Seq<MsgModel>) -> DdModel {
    DdModel {
        service: looked_up(table, f[0]),
        name: looked_up(table, f[1]),
        resource: looked_up(table, f[2]),
        trace_id: or_zero_u64(unsigned_in(f[3])),
        span_id: or_zero_u64(unsigned_in(f[4])),
        parent_id: or_zero_u64(unsigned_in(f[5])),
        start: or_zero_i64(signed_in(f[6])),
        duration: or_zero_i64(signed_in(f[7])),
        error: #[verifier::truncate] (or_zero_i64(signed_in(f[8])) as i32),
        meta: meta_in(table, f[9]),
        metrics: metrics_in(table, f[10]),
        span_type: looked_up(table, f[11]),
    }
}

pub open spec fn decoded_span(table: Seq<MsgModel>, m: MsgModel) -> Result<DdModel, TableError> {
    match m {
        MsgModel::Array(f) => if f.len() < 12 {
            Err(TableError::TooFewFields(f.len() as usize))
        } else {
            Ok(span_in(table, f))
        },
        _ => Err(TableError::SpanNotAnArray),
    }
}

/// The spans of a trace, or the first error in it.
pub open spec fn decoded_spans(table: Seq<MsgModel>, items: Seq<MsgModel>) -> Result<
    Seq<DdModel>,
    TableError,
>
    decreases items.len(),
{
    if items.len() == 0 {
        Ok(Seq::empty())
    } else {
        match decoded_spans(table, items.drop_last()) {
            Err(e) => Err(e),
            Ok(before) => match decoded_span(table, items.last()) {
                Err(e) => Err(e),
                Ok(s) => Ok(before.push(s)),
            },
        }
    }
}

pub open spec fn decoded_traces(table: Seq<MsgModel>, traces: Seq<MsgModel>) -> Result<
    Seq<Seq<DdModel>>,
    TableError,
>
    decreases traces.len(),
{
    if traces.len() == 0 {
        Ok(Seq::empty())
    } else {
        match decoded_traces(table, traces.drop_last()) {
            Err(e) => Err(e),
            Ok(before) => match traces.last() {
                MsgModel::Array(items) => match decoded_spans(table, items) {
                    Err(e) => Err(e),
                    Ok(chunk) => Ok(before.push(chunk)),
                },
                _ => Err(TableError::TraceNotAnArray),
            },
        }
    }
}

/// The chunks in a string-table payload, or the first thing that is wrong with
/// it.
pub open spec fn table_chunks(m: MsgModel) -> Result<Seq<Seq<DdModel>>, TableError> {
    match m {
        MsgModel::Array(top) => if top.len() != 2 {
            Err(TableError::NotAPair)
        } else {
            match top[0] {
                MsgModel::Array(table) => match top[1] {
                    MsgModel::Array(traces) => decoded_traces(table, traces),
                    _ => Err(TableError::TracesNotAnArray),
                },
                _ => Err(TableError::TableNotAnArray),
            }
        },
        _ => Err(TableError::NotAPair),
    }
}

pub open spec fn chunk_views(v: Seq<Vec<DdSpan>>) -> Seq<Seq<DdModel>> {
    v.map_values(|c: Vec<DdSpan>| dd_views(c@))
}

pub open spec fn msg_models(v: Seq<MsgValue>) -> Seq<MsgModel> {
    v.map_values(|x: MsgValue| x@)
}

pub open spec fn pair_models(v: Seq<(MsgValue, MsgValue)>) -> Seq<(MsgModel, MsgModel)> {
    v.map_values(|x: (MsgValue, MsgValue)| (x.0@, x.1@))
}

proof fn array_model(items: Vec<MsgValue>)
    ensures
        MsgValue::Array(items)@ == MsgModel::Array(msg_models(items@)),
{
    assert(MsgValue::Array(items)@->Array_0 =~= msg_models(items@));
}

proof fn map_model(pairs: Vec<(MsgValue, MsgValue)>)
    ensures
        MsgValue::Table(pairs)@ == MsgModel::Table(pair_models(pairs@)),
{
    assert(MsgValue::Table(pairs)@->Table_0 =~= pair_models(pairs@));
}

fn elements(v: &MsgValue) -> (r: Option<&Vec<MsgValue>>)
    ensures
        match r {
            Some(items) => v@ == MsgModel::Array(msg_models(items@)),
            None => !(v@ is Array),
        },
{
    match v {
        MsgValue::Array(items) => {
            proof {
                array_model(*items);
            }
            Some(items)
        },
        _ => None,
    }
}

fn unsigned_of(v: &MsgValue) -> (r: u64)
    ensures
        r == or_zero_u64(unsigned_in(v@)),
{
    match v {
        MsgValue::Number { unsigned: Some(n), .. } => *n,
        _ => 0,
    }
}

fn signed_of(v: &MsgValue) -> (r: i64)
    ensures
        r == or_zero_i64(signed_in(v@)),
{
    match v {
        MsgValue::Number { signed: Some(n), .. } => *n,
        _ => 0,
    }
}

fn lookup(table: &Vec<MsgValue>, v: &MsgValue) -> (r: String)
    ensures
        r@ == looked_up(msg_models(table@), v@),
{
    if let MsgValue::Number { unsigned: Some(i), .. } = v {
        if *i < table.len() as u64 {
            let at: usize = *i as usize;
            assert(msg_models(table@)[at as int] == table@[at as int]@);
            if let MsgValue::Text(s) = &table[at] {
                return s.clone();
            }
        }
    }
    empty()
}

fn read_meta(table: &Vec<MsgValue>, v: &MsgValue) -> (r: Labels)
    ensures
        r@ == meta_in(msg_models(table@), v@),
{
    let mut out = Labels::new();
    if let MsgValue::Table(pairs) = v {
        let ghost all = pair_models(pairs@);
        let ghost t = msg_models(table@);
        proof {
            map_model(*pairs);
            assert(all.take(0) =~= Seq::<(MsgModel, MsgModel)>::empty());
        }
        let mut i: usize = 0;
        while i < pairs.len()
            invariant
                i <= pairs@.len(),
                all == pair_models(pairs@),
                t == msg_models(table@),
                out@ == meta_pairs(t, all.take(i as int)),
            decreases pairs@.len() - i,
        {
            assert(all.take(i as int + 1).drop_last() =~= all.take(i as int));
            assert(all.take(i as int + 1).last() == (pairs@[i as int].0@, pairs@[i as int].1@));
            let key = lookup(table, &pairs[i].0);
            let value = lookup(table, &pairs[i].1);
            out.insert(key, value);
            i = i + 1;
        }
        assert(all.take(pairs@.len() as int) =~= all);
    }
    out
}

fn read_metrics(table: &Vec<MsgValue>, v: &MsgValue) -> (r: Labels)
    ensures
        r@ == metrics_in(msg_models(table@), v@),
{
    let mut out = Labels::new();
    if let MsgValue::Table(pairs) = v {
        let ghost all = pair_models(pairs@);
        let ghost t = msg_models(table@);
        proof {
            map_model(*pairs);
            assert(all.take(0) =~= Seq::<(MsgModel, MsgModel)>::empty());
        }
        let mut i: usize = 0;
        while i < pairs.len()
            invariant
                i <= pairs@.len(),
                all == pair_models(pairs@),
                t == msg_models(table@),
                out@ == metric_pairs(t, all.take(i as int)),
            decreases pairs@.len() - i,
        {
            assert(all.take(i as int + 1).drop_last() =~= all.take(i as int));
            assert(all.take(i as int + 1).last() == (pairs@[i as int].0@, pairs@[i as int].1@));
            if let MsgValue::Number { double, .. } = &pairs[i].1 {
                let key = lookup(table, &pairs[i].0);
                out.insert(key, double.clone());
            }
            i = i + 1;
        }
        assert(all.take(pairs@.len() as int) =~= all);
    }
    out
}

fn read_span(table: &Vec<MsgValue>, v: &MsgValue) -> (r: Result<DdSpan, TableError>)
    ensures
        match r {
            Ok(s) => decoded_span(msg_models(table@), v@) == Ok::<DdModel, TableError>(s@),
            Err(e) => decoded_span(msg_models(table@), v@) == Err::<DdModel, TableError>(e),
        },
{
    let f = match elements(v) {
        Some(f) => f,
        None => return Err(TableError::SpanNotAnArray),
    };
    if f.len() < 12 {
        return Err(TableError::TooFewFields(f.len()));
    }
    let ghost m = msg_models(f@);
    assert(forall|i: int| 0 <= i < f@.len() ==> #[trigger] m[i] == f@[i]@);
    Ok(
        DdSpan {
            service: lookup(table, &f[0]),
            name: lookup(table, &f[1]),
            resource: lookup(table, &f[2]),
            trace_id: unsigned_of(&f[3]),
            span_id: unsigned_of(&f[4]),
            parent_id: unsigned_of(&f[5]),
            start: signed_of(&f[6]),
            duration: signed_of(&f[7]),
            error: #[verifier::truncate] (signed_of(&f[8]) as i32),
            meta: read_meta(table, &f[9]),
            metrics: read_metrics(table, &f[10]),
            span_type: lookup(table, &f[11]),
        },
    )
}

proof fn spans_stop_at_an_error(table: Seq<MsgModel>, items: Seq<MsgModel>, i: int, e: TableError)
    requires
        0 <= i <= items.len(),
        decoded_spans(table, items.take(i)) == Err::<Seq<DdModel>, TableError>(e),
    ensures
        decoded_spans(table, items) == Err::<Seq<DdModel>, TableError>(e),
    decreases items.len() - i,
{
    if i < items.len() {
        assert(items.take(i + 1).drop_last() =~= items.take(i));
        spans_stop_at_an_error(table, items, i + 1, e);
    } else {
        assert(items.take(i) =~= items);
    }
}

proof fn traces_stop_at_an_error(table: Seq<MsgModel>, items: Seq<MsgModel>, i: int, e: TableError)
    requires
        0 <= i <= items.len(),
        decoded_traces(table, items.take(i)) == Err::<Seq<Seq<DdModel>>, TableError>(e),
    ensures
        decoded_traces(table, items) == Err::<Seq<Seq<DdModel>>, TableError>(e),
    decreases items.len() - i,
{
    if i < items.len() {
        assert(items.take(i + 1).drop_last() =~= items.take(i));
        traces_stop_at_an_error(table, items, i + 1, e);
    } else {
        assert(items.take(i) =~= items);
    }
}

fn read_trace(table: &Vec<MsgValue>, items: &Vec<MsgValue>) -> (r: Result<
    Vec<DdSpan>,
    TableError,
>)
    ensures
        match r {
            Ok(c) => decoded_spans(msg_models(table@), msg_models(items@)) == Ok::<
                Seq<DdModel>,
                TableError,
            >(dd_views(c@)),
            Err(e) => decoded_spans(msg_models(table@), msg_models(items@)) == Err::<
                Seq<DdModel>,
                TableError,
            >(e),
        },
{
    let ghost t = msg_models(table@);
    let ghost all = msg_models(items@);
    let mut out: Vec<DdSpan> = Vec::new();
    let mut i: usize = 0;
    assert(all.take(0) =~= Seq::<MsgModel>::empty());
    assert(dd_views(out@) =~= Seq::<DdModel>::empty());
    while i < items.len()
        invariant
            i <= items@.len(),
            t == msg_models(table@),
            all == msg_models(items@),
            decoded_spans(t, all.take(i as int)) == Ok::<Seq<DdModel>, TableError>(dd_views(out@)),
        decreases items@.len() - i,
    {
        let ghost before = out@;
        assert(all.take(i as int + 1).drop_last() =~= all.take(i as int));
        assert(all.take(i as int + 1).last() == items@[i as int]@);
        match read_span(table, &items[i]) {
            Ok(s) => {
                out.push(s);
                assert(dd_views(out@) =~= dd_views(before).push(s@));
            },
            Err(e) => {
                proof {
                    spans_stop_at_an_error(t, all, i as int + 1, e);
                }
                return Err(e);
            },
        }
        i = i + 1;
    }
    assert(all.take(items@.len() as int) =~= all);
    Ok(out)
}

/// Decode the string-table format, `[strings, traces]`, where each span is a
/// 12-element array with texts replaced by indices into the table.
pub fn decode_table(value: &MsgValue) -> (r: Result<Vec<Vec<DdSpan>>, TableError>)
    ensures
        match r {
            Ok(chunks) => table_chunks(value@) == Ok::<Seq<Seq<DdModel>>, TableError>(
                chunk_views(chunks@),
            ),
            Err(e) => table_chunks(value@) == Err::<Seq<Seq<DdModel>>, TableError>(e),
        },
{
    let top = match elements(value) {
        Some(top) => top,
        None => return Err(TableError::NotAPair),
    };
    if top.len() != 2 {
        return Err(TableError::NotAPair);
    }
    assert(msg_models(top@)[0] == top@[0]@);
    assert(msg_models(top@)[1] == top@[1]@);
    let table = match elements(&top[0]) {
        Some(table) => table,
        None => return Err(TableError::TableNotAnArray),
    };
    let traces = match elements(&top[1]) {
        Some(traces) => traces,
        None => return Err(TableError::TracesNotAnArray),
    };
    let ghost t = msg_models(table@);
    let ghost all = msg_models(traces@);
    let mut out: Vec<Vec<DdSpan>> = Vec::new();
    let mut i: usize = 0;
    assert(all.take(0) =~= Seq::<MsgModel>::empty());
    assert(chunk_views(out@) =~= Seq::<Seq<DdModel>>::empty());
    while i < traces.len()
        invariant
            i <= traces@.len(),
            t == msg_models(table@),
            all == msg_models(traces@),
            table_chunks(value@) == decoded_traces(t, all),
            decoded_traces(t, all.take(i as int)) == Ok::<Seq<Seq<DdModel>>, TableError>(
                chunk_views(out@),
            ),
        decreases traces@.len() - i,
    {
        let ghost before = out@;
        assert(all.take(i as int + 1).drop_last() =~= all.take(i as int));
        assert(all.take(i as int + 1).last() == traces@[i as int]@);
        let items = match elements(&traces[i]) {
            Some(items) => items,
            None => {
                proof {
                    traces_stop_at_an_error(t, all, i as int + 1, TableError::TraceNotAnArray);
                }
                return Err(TableError::TraceNotAnArray);
            },
        };
        match read_trace(table, items) {
            Ok(chunk) => {
                out.push(chunk);
                assert(chunk_views(out@) =~= chunk_views(before).push(dd_views(chunk@)));
            },
            Err(e) => {
                proof {
                    traces_stop_at_an_error(t, all, i as int + 1, e);
                }
                return Err(e);
            },
        }
        i = i + 1;
    }
    assert(all.take(traces@.len() as int) =~= all);
    Ok(out)
}

/// Decode a string-table payload from its bytes.
pub fn decode_v05(body: &Vec<u8>) -> (r: Result<Vec<Vec<DdSpan>>, TableError>)
    ensures
        match (msgpack(body@), r) {
            (None, Err(e)) => e == TableError::Malformed,
            (None, Ok(_)) => false,
            (Some(m), Ok(chunks)) => table_chunks(m) == Ok::<Seq<Seq<DdModel>>, TableError>(
                chunk_views(chunks@),
            ),
            (Some(m), Err(e)) => table_chunks(m) == Err::<Seq<Seq<DdModel>>, TableError>(e),
        },
{
    match rmpv_read(body) {
        None => Err(TableError::Malformed),
        Some(v) => decode_table(&rmpv_contents(v)),
    }
}

// ── Conversion ──────────────────────────────────────────────────────

/// What the propagated tag of a span says of the upper half of its trace's
/// identifier.
pub open spec fn upper_tag(d: DdModel) -> Option<u64> {
    match under(d.meta, "_dd.p.tid"@) {
        Some(s) => match hex_literal(trimmed(s)) {
            Some(n) => if n <= u64::MAX {
                Some(n as u64)
            } else {
                None
            },
            None => None,
        },
        None => None,
    }
}

/// The upper half of a trace's identifier: what the last tag of the trace in
/// the chunk says, zero where there is none.
pub open spec fn upper_of(chunk: Seq<DdModel>, trace_id: u64) -> u64
    decreases chunk.len(),
{
    if chunk.len() == 0 {
        0
    } else if chunk.last().trace_id == trace_id && upper_tag(chunk.last()) is Some {
        upper_tag(chunk.last())->0
    } else {
        upper_of(chunk.drop_last(), trace_id)
    }
}

fn read_tag(d: &DdSpan) -> (r: Option<u64>)
    ensures
        r == upper_tag(d@),
{
    match d.meta.get("_dd.p.tid") {
        Some(s) => parse_hex(trim(s.as_str()).as_str()),
        None => None,
    }
}

fn find_upper(chunk: &Vec<DdSpan>, trace_id: u64) -> (r: u64)
    ensures
        r == upper_of(dd_views(chunk@), trace_id),
{
    let ghost all = dd_views(chunk@);
    let mut n: usize = chunk.len();
    assert(all.take(n as int) =~= all);
    while n > 0
        invariant
            n <= chunk@.len(),
            all == dd_views(chunk@),
            upper_of(all, trace_id) == upper_of(all.take(n as int), trace_id),
        decreases n,
    {
        let d = &chunk[n - 1];
        assert(all.take(n as int).last() == d@);
        assert(all.take(n as int).drop_last() =~= all.take(n as int - 1));
        if d.trace_id == trace_id {
            if let Some(upper) = read_tag(d) {
                return upper;
            }
        }
        n = n - 1;
    }
    0
}

/// The attributes with one more, where its name is still free and its value
/// says something.
pub open spec fn filled(
    m: Map<Seq<char>, Seq<char>>,
    name: Seq<char>,
    value: Seq<char>,
) -> Map<Seq<char>, Seq<char>> {
    if value.len() > 0 && !m.dom().contains(name) {
        m.insert(name, value)
    } else {
        m
    }
}

/// The tags of a span in one namespace. String tags win over numeric ones.
pub open spec fn attributes_of(d: DdModel) -> Map<Seq<char>, Seq<char>> {
    filled(
        filled(d.metrics.union_prefer_right(d.meta), "resource.name"@, d.resource),
        "span.type"@,
        d.span_type,
    )
}

pub open spec fn kind_named(kind: Option<Seq<char>>) -> SpanKind {
    if kind == Some("server"@) {
        SpanKind::Server
    } else if kind == Some("client"@) {
        SpanKind::Client
    } else if kind == Some("producer"@) {
        SpanKind::Producer
    } else if kind == Some("consumer"@) {
        SpanKind::Consumer
    } else {
        SpanKind::Internal
    }
}

/// `start + duration`, held within the range of the clock.
pub open spec fn end_of(start: i64, duration: i64) -> int {
    if start + duration > i64::MAX {
        i64::MAX as int
    } else if start + duration < i64::MIN {
        i64::MIN as int
    } else {
        start + duration
    }
}

/// What a span is stored as, given the upper half of its trace's identifier.
pub open spec fn converted(d: DdModel, upper: u64) -> SpanModel {
    let attributes = attributes_of(d);
    let llm = llm_of(attributes);
    SpanModel {
        trace_id: hex_id(upper) + hex_id(d.trace_id),
        span_id: hex_id(d.span_id),
        parent_span_id: if d.parent_id == 0 {
            None
        } else {
            Some(hex_id(d.parent_id))
        },
        service: if d.service.len() == 0 {
            "unknown"@
        } else {
            d.service
        },
        operation: d.name,
        start: at(d.start as int),
        end: at(end_of(d.start, d.duration)),
        duration: SpanDuration::Nanos(d.duration),
        status: if d.error != 0 {
            SpanStatus::Error
        } else {
            SpanStatus::Unset
        },
        attributes,
        events: Seq::empty(),
        kind: if llm is Some {
            SpanKind::Llm
        } else {
            kind_named(under(d.meta, "span.kind"@))
        },
        llm,
    }
}

fn fill(m: &mut Labels, name: &str, value: &String)
    ensures
        final(m)@ == filled(old(m)@, name@, value@),
{
    if !value.as_str().is_empty() && !m.contains(name) {
        m.insert(name.to_owned(), value.clone());
    }
}

/// The metrics that no string tag hides, added to the string tags.
fn merge_tags(meta: &Labels, metrics: &Labels) -> (r: Labels)
    ensures
        r@ == metrics@.union_prefer_right(meta@),
{
    let mut out = meta.clone();
    let n: usize = metrics.len();
    let ghost pairs = metrics.pairs();
    let mut i: usize = 0;
    assert(as_map(pairs.take(0)) =~= Map::<Seq<char>, Seq<char>>::empty());
    assert(out@ =~= as_map(pairs.take(0)).union_prefer_right(meta@));
    while i < n
        invariant
            i <= n,
            n == pairs.len(),
            pairs == metrics.pairs(),
            out@ == as_map(pairs.take(i as int)).union_prefer_right(meta@),
        decreases n - i,
    {
        let name = metrics.name_at(i);
        let ghost added = pairs[i as int];
        proof {
            let t = pairs.take(i as int + 1);
            assert(t.drop_last() =~= pairs.take(i as int));
            assert(t.last() == added);
            assert(as_map(t) == as_map(pairs.take(i as int)).insert(added.0, added.1));
        }
        if !meta.contains(name.as_str()) {
            out.insert(name.clone(), metrics.value_at(i).clone());
        }
        i = i + 1;
        assert(out@ =~= as_map(pairs.take(i as int)).union_prefer_right(meta@));
    }
    assert(pairs.take(n as int) =~= pairs);
    out
}

/// Convert one span, given the upper half of its trace's identifier.
pub fn convert_span(d: &DdSpan, upper: u64) -> (r: Span)
    ensures
        r@ == converted(d@, upper),
{
    let mut trace_id = String::new();
    assert(trace_id@ =~= Seq::<char>::empty());
    push_hex_id(upper, &mut trace_id);
    push_hex_id(d.trace_id, &mut trace_id);
    assert(trace_id@ =~= hex_id(upper) + hex_id(d.trace_id));
    let parent_span_id = if d.parent_id == 0 {
        None
    } else {
        Some(hex_id_text(d.parent_id))
    };
    let end: i64 = match d.start.checked_add(d.duration) {
        Some(t) => t,
        None => if d.duration > 0 {
            i64::MAX
        } else {
            i64::MIN
        },
    };
    let mut attributes = merge_tags(&d.meta, &d.metrics);
    fill(&mut attributes, "resource.name", &d.resource);
    fill(&mut attributes, "span.type", &d.span_type);
    let llm = extract_llm_span(&attributes);
    let kind = if llm.is_some() {
        SpanKind::Llm
    } else {
        match d.meta.get("span.kind") {
            Some(k) => if same(k.as_str(), "server") {
                SpanKind::Server
            } else if same(k.as_str(), "client") {
                SpanKind::Client
            } else if same(k.as_str(), "producer") {
                SpanKind::Producer
            } else if same(k.as_str(), "consumer") {
                SpanKind::Consumer
            } else {
                SpanKind::Internal
            },
            None => SpanKind::Internal,
        }
    };
    let service = if d.service.as_str().is_empty() {
        "unknown".to_owned()
    } else {
        d.service.clone()
    };
    let events: Vec<SpanEvent> = Vec::new();
    assert(event_views(events@) =~= Seq::<EventModel>::empty());
    Span {
        trace_id,
        span_id: hex_id_text(d.span_id),
        parent_span_id,
        service,
        operation: d.name.clone(),
        start_time: Timestamp::from_signed_nanos(d.start),
        end_time: Timestamp::from_signed_nanos(end),
        duration: SpanDuration::Nanos(d.duration),
        status: if d.error != 0 {
            SpanStatus::Error
        } else {
            SpanStatus::Unset
        },
        attributes,
        events,
        kind,
        llm,
    }
}

pub open spec fn chunk_spans(chunk: Seq<DdModel>) -> Seq<SpanModel> {
    chunk.map_values(|d: DdModel| converted(d, upper_of(chunk, d.trace_id)))
}

/// Convert one trace chunk. The propagated tag is only set on the chunk's
/// root: resolving it for the chunk keeps every span of the trace on the same
/// identifier.
pub fn convert_chunk(chunk: &Vec<DdSpan>) -> (r: Vec<Span>)
    ensures
        span_views(r@) == chunk_spans(dd_views(chunk@)),
{
    let ghost wanted = chunk_spans(dd_views(chunk@));
    let mut out: Vec<Span> = Vec::new();
    let mut i: usize = 0;
    while i < chunk.len()
        invariant
            i <= chunk@.len(),
            wanted == chunk_spans(dd_views(chunk@)),
            span_views(out@) == wanted.take(i as int),
        decreases chunk@.len() - i,
    {
        let ghost before = out@;
        let d = &chunk[i];
        let span = convert_span(d, find_upper(chunk, d.trace_id));
        assert(dd_views(chunk@)[i as int] == d@);
        assert(span@ == wanted[i as int]);
        out.push(span);
        assert(span_views(out@) =~= span_views(before).push(span@));
        i = i + 1;
        assert(span_views(out@) =~= wanted.take(i as int));
    }
    assert(wanted.take(chunk@.len() as int) =~= wanted);
    out
}

/// The spans of all chunks, in order.
pub open spec fn payload_spans(chunks: Seq<Seq<DdModel>>) -> Seq<SpanModel>
    decreases chunks.len(),
{
    if chunks.len() == 0 {
        Seq::empty()
    } else {
        payload_spans(chunks.drop_last()) + chunk_spans(chunks.last())
    }
}

pub fn convert_chunks(chunks: &Vec<Vec<DdSpan>>) -> (r: Vec<Span>)
    ensures
        span_views(r@) == payload_spans(chunk_views(chunks@)),
{
    let ghost all = chunk_views(chunks@);
    let mut out: Vec<Span> = Vec::new();
    let mut i: usize = 0;
    assert(all.take(0) =~= Seq::<Seq<DdModel>>::empty());
    assert(span_views(out@) =~= Seq::<SpanModel>::empty());
    while i < chunks.len()
        invariant
            i <= chunks@.len(),
            all == chunk_views(chunks@),
            span_views(out@) == payload_spans(all.take(i as int)),
        decreases chunks@.len() - i,
    {
        let ghost before = out@;
        let mut spans = convert_chunk(&chunks[i]);
        let ghost added = spans@;
        out.append(&mut spans);
        proof {
            assert(all.take(i as int + 1).drop_last() =~= all.take(i as int));
            assert(all.take(i as int + 1).last() == dd_views(chunks@[i as int]@));
            assert(span_views(out@) =~= span_views(before) + span_views(added));
        }
        i = i + 1;
    }
    assert(all.take(chunks@.len() as int) =~= all);
    out
}

/// A span with its payload texts taken out of the columns, where it is a call
/// to a language model.
pub fn take_payload(span: Span) -> (r: SpanDraft)
    ensures
        r.span@ == (SpanModel {
            attributes: if span.llm is Some {
                without_payload(span.attributes@)
            } else {
                span.attributes@
            },
            ..span@
        }),
        opt_text(r.prompt) == if span.llm is Some {
            under(span.attributes@, "gen_ai.prompt"@)
        } else {
            None
        },
        opt_text(r.completion) == if span.llm is Some {
            under(span.attributes@, "gen_ai.completion"@)
        } else {
            None
        },
{
    if span.llm.is_none() {
        return SpanDraft { span, prompt: None, completion: None };
    }
    let mut span = span;
    let mut attributes = span.attributes;
    let prompt = attributes.remove("gen_ai.prompt");
    let completion = attributes.remove("gen_ai.completion");
    proof {
        reveal_strlit("gen_ai.prompt");
        reveal_strlit("gen_ai.completion");
        assert("gen_ai.prompt"@ != "gen_ai.completion"@) by {
            assert("gen_ai.prompt"@.len() != "gen_ai.completion"@.len());
        }
    }
    span.attributes = attributes;
    SpanDraft { span, prompt, completion }
}

// ── Answers ─────────────────────────────────────────────────────────

/// What became of a payload.
#[derive(Debug)]
pub enum TracesOutcome {
    /// An empty body, which a client sends to keep its connection alive.
    Empty,
    Undecodable(String),
    NotStored(String),
    Stored,
}

/// The sampling rates that every accepted payload is answered with: everything
/// of every service, so that clients keep sending all of it.
pub const SAMPLING_RATES: &'static str = "{\"rate_by_service\":{\"service:,env:\":1.0}}";

/// The HTTP status and the body that a payload is answered with.
pub fn traces_answer(outcome: &TracesOutcome) -> (r: (u16, String))
    ensures
        match *outcome {
            TracesOutcome::Empty => r.0 == 200 && r.1@ == SAMPLING_RATES@,
            TracesOutcome::Stored => r.0 == 200 && r.1@ == SAMPLING_RATES@,
            TracesOutcome::Undecodable(e) => r.0 == 400 && r.1@ == "trace decode error: "@ + e@,
            TracesOutcome::NotStored(e) => r.0 == 500 && r.1@ == "storage error: "@ + e@,
        },
{
    match outcome {
        TracesOutcome::Empty => (200, SAMPLING_RATES.to_owned()),
        TracesOutcome::Stored => (200, SAMPLING_RATES.to_owned()),
        TracesOutcome::Undecodable(e) => {
            let mut body = "trace decode error: ".to_owned();
            body.append(e.as_str());
            (400, body)
        },
        TracesOutcome::NotStored(e) => {
            let mut body = "storage error: ".to_owned();
            body.append(e.as_str());
            (500, body)
        },
    }
}

// ── Laws ────────────────────────────────────────────────────────────

/// Every span of a trace in a chunk lands on the same identifier, whichever of
/// them carries the tag; spans of different traces land on different ones.
pub proof fn a_trace_keeps_one_identifier(chunk: Seq<DdModel>, i: int, j: int)
    requires
        0 <= i < chunk.len(),
        0 <= j < chunk.len(),
    ensures
        chunk[i].trace_id == chunk[j].trace_id <==> chunk_spans(chunk)[i].trace_id == chunk_spans(
            chunk,
        )[j].trace_id,
{
    let a = chunk[i].trace_id;
    let b = chunk[j].trace_id;
    let ua = upper_of(chunk, a);
    let ub = upper_of(chunk, b);
    if chunk_spans(chunk)[i].trace_id == chunk_spans(chunk)[j].trace_id {
        id_lengths(ua);
        id_lengths(ub);
        id_lengths(a);
        id_lengths(b);
        assert((hex_id(ua) + hex_id(a)).skip(16) =~= hex_id(a));
        assert((hex_id(ub) + hex_id(b)).skip(16) =~= hex_id(b));
        crate::hex_number::ids_tell_apart(a, b);
    }
}

proof fn id_lengths(n: u64)
    ensures
        hex_id(n).len() == 16,
{
    reveal_with_fuel(crate::hex_number::hex_digits, 17);
}

/// A string tag is never hidden by a numeric tag, nor by the resource or the
/// type.
pub proof fn string_tags_win(d: DdModel, name: Seq<char>)
    requires
        d.meta.dom().contains(name),
    ensures
        attributes_of(d).dom().contains(name),
        attributes_of(d)[name] == d.meta[name],
{
}

/// A conversion loses no span.
pub proof fn conversion_loses_no_span(chunk: Seq<DdModel>)
    ensures
        chunk_spans(chunk).len() == chunk.len(),
{
}

/// A span is stored under the id under which its children name it, in the trace
/// that all of its chunk share; only one sent without a parent is stored without.
pub proof fn children_name_their_parent(chunk: Seq<DdModel>, i: int, j: int)
    requires
        0 <= i < chunk.len(),
        0 <= j < chunk.len(),
    ensures
        chunk_spans(chunk)[i].parent_span_id is None <==> chunk[i].parent_id == 0,
        chunk[i].parent_id != 0 ==> (chunk_spans(chunk)[i].parent_span_id == Some(
            chunk_spans(chunk)[j].span_id,
        ) <==> chunk[i].parent_id == chunk[j].span_id),
        chunk_spans(chunk)[i].span_id == chunk_spans(chunk)[j].span_id <==> chunk[i].span_id
            == chunk[j].span_id,
{
    if hex_id(chunk[i].parent_id) == hex_id(chunk[j].span_id) {
        crate::hex_number::ids_tell_apart(chunk[i].parent_id, chunk[j].span_id);
    }
    if hex_id(chunk[i].span_id) == hex_id(chunk[j].span_id) {
        crate::hex_number::ids_tell_apart(chunk[i].span_id, chunk[j].span_id);
    }
}

/// A span keeps what was sent: its service, its name, when it began, how long it
/// took and whether it failed. It ends as long after it began as it took.
pub proof fn spans_keep_what_was_sent(d: DdModel, upper: u64)
    ensures
        ({
            let s = converted(d, upper);
            &&& d.service.len() > 0 ==> s.service == d.service
            &&& d.service.len() == 0 ==> s.service == "unknown"@
            &&& s.operation == d.name
            &&& s.start == at(d.start as int)
            &&& i64::MIN <= d.start + d.duration <= i64::MAX ==> crate::time::elapsed(
                s.start,
                s.end,
            ) == d.duration
            &&& s.duration == SpanDuration::Nanos(d.duration)
            &&& s.status.word() == "error"@ <==> d.error != 0
            &&& s.status.word() == "unset"@ <==> d.error == 0
            &&& s.events.len() == 0
        }),
{
    crate::time::instants_are_a_line(d.start as int, d.start + d.duration, 0);
    crate::spans::names_are_read_back(SpanStatus::Error, SpanKind::Llm);
    crate::spans::names_are_read_back(SpanStatus::Unset, SpanKind::Llm);
}

/// A span that names a model or its provider is a call to one; any other is of the
/// kind that its `span.kind` tag names.
pub proof fn kinds_are_named_by_the_tag(d: DdModel, upper: u64)
    ensures
        ({
            let s = converted(d, upper);
            let tagged = d.meta.dom().contains("span.kind"@);
            let kind = d.meta["span.kind"@];
            &&& s.llm is Some <==> s.kind == SpanKind::Llm
            &&& s.llm is None && tagged && kind == "server"@ ==> s.kind == SpanKind::Server
            &&& s.llm is None && tagged && kind == "client"@ ==> s.kind == SpanKind::Client
            &&& s.llm is None && tagged && kind == "producer"@ ==> s.kind == SpanKind::Producer
            &&& s.llm is None && tagged && kind == "consumer"@ ==> s.kind == SpanKind::Consumer
            &&& s.llm is None && !tagged ==> s.kind == SpanKind::Internal
            &&& s.llm == llm_of(s.attributes)
        }),
{
    crate::spans::names_are_read_back(SpanStatus::Error, SpanKind::Server);
    crate::spans::names_are_read_back(SpanStatus::Error, SpanKind::Client);
    crate::spans::names_are_read_back(SpanStatus::Error, SpanKind::Producer);
    crate::spans::names_are_read_back(SpanStatus::Error, SpanKind::Consumer);
    assert(SpanKind::Server.word() == "server"@ && SpanKind::Client.word() == "client"@
        && SpanKind::Producer.word() == "producer"@ && SpanKind::Consumer.word() == "consumer"@);
}

/// The attributes are the string tags, the number tags beneath them, and the
/// resource and the type of the span where no tag has their name.
pub proof fn attributes_come_from_the_tags(d: DdModel, name: Seq<char>)
    ensures
        ({
            let a = attributes_of(d);
            &&& d.meta.dom().contains(name) ==> a.dom().contains(name) && a[name] == d.meta[name]
            &&& !d.meta.dom().contains(name) && d.metrics.dom().contains(name) ==> a.dom().contains(
                name,
            ) && a[name] == d.metrics[name]
            &&& !d.meta.dom().contains(name) && !d.metrics.dom().contains(name) && name
                != "resource.name"@ && name != "span.type"@ ==> !a.dom().contains(name)
            &&& !d.meta.dom().contains("resource.name"@) && !d.metrics.dom().contains(
                "resource.name"@,
            ) && d.resource.len() > 0 ==> a.dom().contains("resource.name"@) && a["resource.name"@]
                == d.resource
            &&& !d.meta.dom().contains("span.type"@) && !d.metrics.dom().contains("span.type"@)
                && d.span_type.len() > 0 ==> a.dom().contains("span.type"@) && a["span.type"@]
                == d.span_type
        }),
{
    reveal_strlit("resource.name");
    reveal_strlit("span.type");
    assert("resource.name"@.len() == 13 && "span.type"@.len() == 9);
}

/// In the table encoding a span is twelve fields in a fixed order, its texts given
/// by their places in the table; fewer are refused.
pub proof fn table_spans_read_by_position(
    table: Seq<MsgModel>,
    f: Seq<MsgModel>,
    place: u64,
    t: Seq<char>,
    n: i64,
    m: u64,
    double: Seq<char>,
)
    requires
        place < table.len(),
        table[place as int] == MsgModel::Text(t),
    ensures
        f.len() < 12 ==> decoded_span(table, MsgModel::Array(f)) is Err,
        f.len() >= 12 ==> (decoded_span(table, MsgModel::Array(f)) matches Ok(d) && {
            let text = MsgModel::Number { unsigned: Some(place), signed: Some(n), double };
            let unsigned = MsgModel::Number { unsigned: Some(m), signed: None, double };
            let signed = MsgModel::Number { unsigned: None, signed: Some(n), double };
            &&& f[0] == text ==> d.service == t
            &&& f[1] == text ==> d.name == t
            &&& f[2] == text ==> d.resource == t
            &&& f[3] == unsigned ==> d.trace_id == m
            &&& f[4] == unsigned ==> d.span_id == m
            &&& f[5] == unsigned ==> d.parent_id == m
            &&& f[6] == signed ==> d.start == n
            &&& f[7] == signed ==> d.duration == n
            &&& f[8] == signed && i32::MIN <= n <= i32::MAX ==> d.error == n
            &&& f[11] == text ==> d.span_type == t
        }),
        f.len() >= 12 ==> decoded_span(table, MsgModel::Array(f))->Ok_0.meta == meta_in(table, f[9])
            && decoded_span(table, MsgModel::Array(f))->Ok_0.metrics == metrics_in(table, f[10]),
{
    let small = n as i32;
    if i32::MIN <= n <= i32::MAX {
        assert(small == n);
    }
}

/// Tags are told by the texts at their places, the last of a name winning: string
/// tags by two places, number tags by a place and a number.
pub proof fn table_tags_read_by_place(
    table: Seq<MsgModel>,
    pairs: Seq<(MsgModel, MsgModel)>,
    key: MsgModel,
    value: MsgModel,
)
    ensures
        meta_in(table, MsgModel::Table(pairs.push((key, value)))) == meta_in(
            table,
            MsgModel::Table(pairs),
        ).insert(looked_up(table, key), looked_up(table, value)),
        value matches MsgModel::Number { double: d, .. } ==> metrics_in(
            table,
            MsgModel::Table(pairs.push((key, value))),
        ) == metrics_in(table, MsgModel::Table(pairs)).insert(looked_up(table, key), d),
        meta_in(table, MsgModel::Table(Seq::empty())) == Map::<Seq<char>, Seq<char>>::empty(),
        metrics_in(table, MsgModel::Table(Seq::empty())) == Map::<Seq<char>, Seq<char>>::empty(),
{
    assert(pairs.push((key, value)).drop_last() =~= pairs);
}

/// Every span of every chunk is converted, in order; a payload in the table
/// encoding is read whole or refused.
pub proof fn no_span_of_a_payload_is_lost(chunks: Seq<Seq<DdModel>>, c: int, k: int)
    requires
        0 <= c < chunks.len(),
        0 <= k < chunks[c].len(),
    ensures
        payload_spans(chunks).contains(converted(chunks[c][k], upper_of(chunks[c], chunks[c][k].trace_id))),
    decreases chunks.len(),
{
    let (head, tail) = (payload_spans(chunks.drop_last()), chunk_spans(chunks.last()));
    let span = converted(chunks[c][k], upper_of(chunks[c], chunks[c][k].trace_id));
    if c == chunks.len() - 1 {
        assert(tail[k] == span);
        assert((head + tail)[head.len() + k] == span);
    } else {
        no_span_of_a_payload_is_lost(chunks.drop_last(), c, k);
        let i = choose|i: int| 0 <= i < head.len() && head[i] == span;
        assert((head + tail)[i] == span);
    }
}

/// What is decoded is one span for each item, in order.
pub proof fn items_decode_one_by_one(table: Seq<MsgModel>, items: Seq<MsgModel>, i: int)
    ensures
        decoded_spans(table, items) matches Ok(spans) ==> spans.len() == items.len() && (0 <= i
            < items.len() ==> decoded_span(table, items[i]) == Ok::<DdModel, TableError>(spans[i])),
        (forall|k: int|
            0 <= k < items.len() ==> decoded_span(table, #[trigger] items[k]) is Ok)
            ==> decoded_spans(table, items) is Ok,
        decoded_traces(table, items) matches Ok(chunks) ==> chunks.len() == items.len() && (0 <= i
            < items.len() ==> (items[i] matches MsgModel::Array(inner) && decoded_spans(
            table,
            inner,
        ) == Ok::<Seq<DdModel>, TableError>(chunks[i]))),
    decreases items.len(),
{
    if items.len() > 0 {
        let init = items.drop_last();
        items_decode_one_by_one(table, init, i);
        assert(items[items.len() - 1] == items.last());
        if 0 <= i < init.len() {
            assert(init[i] == items[i]);
        }
        if forall|k: int| 0 <= k < items.len() ==> decoded_span(table, #[trigger] items[k]) is Ok {
            assert forall|k: int| 0 <= k < init.len() implies decoded_span(
                table,
                #[trigger] init[k],
            ) is Ok by {
                assert(init[k] == items[k]);
            }
        }
    }
}

/// The upper half of a trace id is what the last span of the trace with the tag
/// says, and nothing where none has it.
pub proof fn upper_halves_come_from_the_tag(chunk: Seq<DdModel>, i: int)
    requires
        0 <= i < chunk.len(),
    ensures
        upper_tag(chunk[i]) is Some && (forall|k: int|
            i < k < chunk.len() && (#[trigger] chunk[k]).trace_id == chunk[i].trace_id
                ==> upper_tag(chunk[k]) is None) ==> upper_of(chunk, chunk[i].trace_id)
            == upper_tag(chunk[i])->0,
        (forall|k: int|
            0 <= k < chunk.len() && (#[trigger] chunk[k]).trace_id == chunk[i].trace_id
                ==> upper_tag(chunk[k]) is None) ==> upper_of(chunk, chunk[i].trace_id) == 0,
        !chunk[i].meta.dom().contains("_dd.p.tid"@) ==> upper_tag(chunk[i]) is None,
{
    upper_is_last(chunk, chunk[i].trace_id, i);
}

proof fn upper_is_last(chunk: Seq<DdModel>, id: u64, i: int)
    ensures
        0 <= i < chunk.len() && chunk[i].trace_id == id && upper_tag(chunk[i]) is Some && (forall|
            k: int,
        |
            i < k < chunk.len() && (#[trigger] chunk[k]).trace_id == id ==> upper_tag(
                chunk[k],
            ) is None) ==> upper_of(chunk, id) == upper_tag(chunk[i])->0,
        (forall|k: int|
            0 <= k < chunk.len() && (#[trigger] chunk[k]).trace_id == id ==> upper_tag(
                chunk[k],
            ) is None) ==> upper_of(chunk, id) == 0,
    decreases chunk.len(),
{
    if chunk.len() > 0 {
        let init = chunk.drop_last();
        upper_is_last(init, id, i);
        assert(chunk[chunk.len() - 1] == chunk.last());
        assert forall|k: int| 0 <= k < init.len() implies init[k] == #[trigger] chunk[k] by {}
    }
}

/// How a payload is read is decided by its version and, of the older one, by
/// whether what it says of itself holds `json`.
pub proof fn payloads_are_read_by_version(
    content_type: Option<Seq<char>>,
    a: Seq<char>,
    b: Seq<char>,
)
    ensures
        decoding_for(TracesVersion::V05, content_type) == Decoding::MsgpackTable,
        decoding_for(TracesVersion::V04, None) == Decoding::MsgpackMaps,
        decoding_for(TracesVersion::V04, Some(a + "json"@ + b)) == Decoding::Json,
        (forall|i: int| 0 <= i < a.len() ==> #[trigger] a[i] != 'j') ==> decoding_for(
            TracesVersion::V04,
            Some(a),
        ) == Decoding::MsgpackMaps,
{
    reveal_strlit("json");
    let s = a + "json"@ + b;
    assert(s.subrange(a.len() as int, a.len() as int + 4) =~= "json"@);
    assert(crate::text::starts_with_at(s, a.len() as int, "json"@));
    if has_substring(a, "json"@) {
        let i = choose|i: int| 0 <= i <= a.len() && #[trigger] crate::text::starts_with_at(a, i, "json"@);
        assert(a.subrange(i, i + 4)[0] == a[i]);
    }
}

} // verus!
