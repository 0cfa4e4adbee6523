//! Scores and runner spans that clients post.

use crate::labels::Labels;
use crate::metrics::{MetricPoint, MetricType, PointModel};
use crate::spans::{event_views, EventModel, Span, SpanDuration, SpanEvent, SpanKind, SpanModel, SpanStatus};
use crate::text::{decimal, decimal_u64, is_blank, opt_text, trimmed};
use crate::time::{elapsed, Instant, Timestamp};
use vstd::prelude::*;

verus! {

// ── Scores ──────────────────────────────────────────────────────────

/// A score as a client posts it; its value the bits of a double.
#[derive(Debug)]
pub struct AddEvalScoreBody {
    pub suite_id: Option<String>,
    pub run_id: String,
    pub case_id: String,
    pub trace_id: Option<String>,
    pub span_id: Option<String>,
    pub metric: String,
    pub value: u64,
    pub scorer: Option<String>,
    pub label: Option<String>,
    pub rationale_sha256: Option<String>,
    pub source: Option<String>,
}

/// Attributes with one more, where it says something.
pub open spec fn with_text(
    m: Map<Seq<char>, Seq<char>>,
    name: Seq<char>,
    value: Option<Seq<char>>,
) -> Map<Seq<char>, Seq<char>> {
    match value {
        Some(v) => if v.len() == 0 {
            m
        } else {
            m.insert(name, v)
        },
        None => m,
    }
}

/// The attributes that a score is stored with.
pub open spec fn score_attributes(b: AddEvalScoreBody) -> Map<Seq<char>, Seq<char>> {
    let m = with_text(Map::empty(), "suite_id"@, opt_text(b.suite_id));
    let m = m.insert("run_id"@, b.run_id@).insert("case_id"@, b.case_id@).insert(
        "metric"@,
        b.metric@,
    );
    let m = with_text(m, "trace_id"@, opt_text(b.trace_id));
    let m = with_text(m, "span_id"@, opt_text(b.span_id));
    let m = with_text(m, "scorer"@, opt_text(b.scorer));
    let m = with_text(m, "label"@, opt_text(b.label));
    let m = with_text(m, "rationale_sha256"@, opt_text(b.rationale_sha256));
    with_text(m, "source"@, opt_text(b.source))
}

/// Whether a score names what it has to: a run, a case and a metric.
pub open spec fn names_a_score(b: AddEvalScoreBody) -> bool {
    trimmed(b.run_id@).len() > 0 && trimmed(b.case_id@).len() > 0 && trimmed(b.metric@).len() > 0
}

fn add_text(m: &mut Labels, name: &str, value: &Option<String>)
    ensures
        final(m)@ == with_text(old(m)@, name@, opt_text(*value)),
{
    if let Some(v) = value {
        if !v.as_str().is_empty() {
            m.insert(name.to_owned(), v.clone());
        }
    }
}

/// The point that a score is stored as; nothing where it does not name what it
/// has to.
pub fn score_point(b: &AddEvalScoreBody, now: Timestamp) -> (r: Option<MetricPoint>)
    ensures
        match r {
            None => !names_a_score(*b),
            Some(p) => names_a_score(*b) && p@ == (PointModel {
                instant: now@,
                service: "tael-eval"@,
                name: "tael_eval_score"@,
                metric_type: MetricType::Gauge,
                value: b.value,
                unit: "score"@,
                attributes: score_attributes(*b),
                histogram: None,
            }),
        },
{
    if is_blank(b.run_id.as_str()) || is_blank(b.case_id.as_str()) || is_blank(b.metric.as_str()) {
        return None;
    }
    let mut attributes = Labels::new();
    add_text(&mut attributes, "suite_id", &b.suite_id);
    attributes.insert("run_id".to_owned(), b.run_id.clone());
    attributes.insert("case_id".to_owned(), b.case_id.clone());
    attributes.insert("metric".to_owned(), b.metric.clone());
    add_text(&mut attributes, "trace_id", &b.trace_id);
    add_text(&mut attributes, "span_id", &b.span_id);
    add_text(&mut attributes, "scorer", &b.scorer);
    add_text(&mut attributes, "label", &b.label);
    add_text(&mut attributes, "rationale_sha256", &b.rationale_sha256);
    add_text(&mut attributes, "source", &b.source);
    Some(
        MetricPoint {
            timestamp: now,
            service: "tael-eval".to_owned(),
            name: "tael_eval_score".to_owned(),
            metric_type: MetricType::Gauge,
            value: b.value,
            unit: "score".to_owned(),
            attributes,
            histogram: None,
        },
    )
}

// ── Runner spans ────────────────────────────────────────────────────

/// A runner's span as a client posts it. `status` is what the store makes of
/// the posted status; a duration is the bits of a double of milliseconds.
#[derive(Debug)]
pub struct AddEvalRunnerSpanBody {
    pub suite_id: String,
    pub run_id: String,
    pub case_id: String,
    pub trace_id: String,
    pub span_id: String,
    pub case_index: Option<usize>,
    pub case_count: Option<usize>,
    pub code_version: Option<String>,
    pub status: Option<SpanStatus>,
    pub start_time: Option<String>,
    pub end_time: Option<String>,
    pub duration_ms: Option<u64>,
}

/// The seconds and nanoseconds since the epoch that chrono reads in a text.
pub uninterp spec fn rfc3339_parts(s: Seq<char>) -> Option<(i64, u32)>;

/// Calls chrono's `DateTime::parse_from_rfc3339` and gives the instant's seconds
/// and nanoseconds. Claims that they are a function of the text.
#[verifier::external_body]
fn chrono_parse(s: &str) -> (r: Option<(i64, u32)>)
    ensures
        r == rfc3339_parts(s@),
{
    chrono::DateTime::parse_from_rfc3339(s).ok().map(|t| (t.timestamp(), t.timestamp_subsec_nanos()))
}

/// The instant of some parts; nothing where there is none. Nanoseconds beyond a
/// second are a leap second's.
pub open spec fn instant_of(parts: Option<(i64, u32)>) -> Option<Instant> {
    match parts {
        Some((secs, nanos)) => {
            let t = Instant { secs: secs as int, nanos: nanos as int };
            if t.exists_in_time() {
                Some(t)
            } else {
                None
            }
        },
        None => None,
    }
}

/// The instant of some parts.
pub fn instant_from(parts: Option<(i64, u32)>) -> (r: Option<Timestamp>)
    ensures
        match r {
            Some(t) => instant_of(parts) == Some(t@),
            None => instant_of(parts) is None,
        },
{
    match parts {
        Some((secs, nanos)) => Timestamp::new(secs, nanos),
        None => None,
    }
}

/// The instant that a text names; nothing where it cannot be read.
pub open spec fn posted_instant(s: Option<Seq<char>>) -> Option<Instant> {
    match s {
        Some(t) => instant_of(rfc3339_parts(t)),
        None => None,
    }
}

fn read_instant(s: &Option<String>) -> (r: Option<Timestamp>)
    ensures
        match r {
            Some(t) => posted_instant(opt_text(*s)) == Some(t@),
            None => posted_instant(opt_text(*s)) is None,
        },
{
    match s {
        Some(t) => instant_from(chrono_parse(t.as_str())),
        None => None,
    }
}

/// How long a span took: what the client says, or else from its start to its
/// end in whole microseconds, and nothing where it ended before it started.
pub open spec fn runner_duration(
    given: Option<u64>,
    start: Instant,
    end: Instant,
) -> SpanDuration {
    match given {
        Some(d) => SpanDuration::Millis(d),
        None => {
            let nanos = elapsed(start, end);
            let us = nanos / 1000;
            if nanos < 0 || us > i64::MAX {
                SpanDuration::Micros(0)
            } else {
                SpanDuration::Micros(us as i64)
            }
        },
    }
}

pub open spec fn with_count(
    m: Map<Seq<char>, Seq<char>>,
    name: Seq<char>,
    n: Option<usize>,
) -> Map<Seq<char>, Seq<char>> {
    match n {
        Some(k) => m.insert(name, decimal(k as nat)),
        None => m,
    }
}

/// The attributes of a runner's span.
pub open spec fn runner_attributes(b: AddEvalRunnerSpanBody) -> Map<Seq<char>, Seq<char>> {
    let m = Map::<Seq<char>, Seq<char>>::empty().insert(
        "tael.eval.suite_id"@,
        b.suite_id@,
    ).insert("tael.eval.run_id"@, b.run_id@).insert("tael.eval.case_id"@, b.case_id@).insert(
        "tael.eval.role"@,
        "runner"@,
    );
    let m = with_count(m, "tael.eval.case_index"@, b.case_index);
    let m = with_count(m, "tael.eval.case_count"@, b.case_count);
    with_text(m, "tael.eval.code_version"@, opt_text(b.code_version))
}

/// Whether a runner's span names what it has to.
pub open spec fn names_a_span(b: AddEvalRunnerSpanBody) -> bool {
    &&& trimmed(b.suite_id@).len() > 0
    &&& trimmed(b.run_id@).len() > 0
    &&& trimmed(b.case_id@).len() > 0
    &&& trimmed(b.trace_id@).len() > 0
    &&& trimmed(b.span_id@).len() > 0
}

/// The span that a runner's post is stored as, given the instants it names. It
/// starts now where it names no start, and ends as it starts where it names no
/// end.
pub open spec fn runner_model(
    b: AddEvalRunnerSpanBody,
    start: Option<Instant>,
    end: Option<Instant>,
    now: Instant,
) -> SpanModel {
    let from = match start {
        Some(t) => t,
        None => now,
    };
    let until = match end {
        Some(t) => t,
        None => from,
    };
    SpanModel {
        trace_id: b.trace_id@,
        span_id: b.span_id@,
        parent_span_id: None,
        service: "tael-eval-runner"@,
        operation: "tael eval case"@,
        start: from,
        end: until,
        duration: runner_duration(b.duration_ms, from, until),
        status: match b.status {
            Some(s) => s,
            None => SpanStatus::Unset,
        },
        attributes: runner_attributes(b),
        events: Seq::empty(),
        kind: SpanKind::Internal,
        llm: None,
    }
}

fn measure(given: Option<u64>, start: &Timestamp, end: &Timestamp) -> (r: SpanDuration)
    ensures
        r == runner_duration(given, start@, end@),
{
    match given {
        Some(d) => SpanDuration::Millis(d),
        None => {
            let d: i128 = end.nanos_since(start);
            if d < 0 {
                return SpanDuration::Micros(0);
            }
            let us: i128 = d / 1000;
            if us > i64::MAX as i128 {
                SpanDuration::Micros(0)
            } else {
                SpanDuration::Micros(us as i64)
            }
        },
    }
}

fn add_count(m: &mut Labels, name: &str, n: Option<usize>)
    ensures
        final(m)@ == with_count(old(m)@, name@, n),
{
    if let Some(k) = n {
        m.insert(name.to_owned(), decimal_u64(k as u64));
    }
}

/// Put a runner's span together, given the instants that it names.
pub fn build_runner_span(
    b: &AddEvalRunnerSpanBody,
    start: Option<Timestamp>,
    end: Option<Timestamp>,
    now: Timestamp,
) -> (r: Span)
    ensures
        r@ == runner_model(
            *b,
            match start {
                Some(t) => Some(t@),
                None => None,
            },
            match end {
                Some(t) => Some(t@),
                None => None,
            },
            now@,
        ),
{
    let start_time = match start {
        Some(t) => t,
        None => now,
    };
    let end_time = match end {
        Some(t) => t,
        None => start_time,
    };
    let duration = measure(b.duration_ms, &start_time, &end_time);
    let mut attributes = Labels::new();
    attributes.insert("tael.eval.suite_id".to_owned(), b.suite_id.clone());
    attributes.insert("tael.eval.run_id".to_owned(), b.run_id.clone());
    attributes.insert("tael.eval.case_id".to_owned(), b.case_id.clone());
    attributes.insert("tael.eval.role".to_owned(), "runner".to_owned());
    add_count(&mut attributes, "tael.eval.case_index", b.case_index);
    add_count(&mut attributes, "tael.eval.case_count", b.case_count);
    add_text(&mut attributes, "tael.eval.code_version", &b.code_version);
    let events: Vec<SpanEvent> = Vec::new();
    assert(event_views(events@) =~= Seq::<EventModel>::empty());
    Span {
        trace_id: b.trace_id.clone(),
        span_id: b.span_id.clone(),
        parent_span_id: None,
        service: "tael-eval-runner".to_owned(),
        operation: "tael eval case".to_owned(),
        start_time,
        end_time,
        duration,
        status: match b.status {
            Some(s) => s,
            None => SpanStatus::Unset,
        },
        attributes,
        events,
        kind: SpanKind::Internal,
        llm: None,
    }
}

/// The span that a runner's post is stored as; nothing where it does not name
/// what it has to.
pub fn runner_span(b: &AddEvalRunnerSpanBody, now: Timestamp) -> (r: Option<Span>)
    ensures
        match r {
            None => !names_a_span(*b),
            Some(s) => names_a_span(*b) && s@ == runner_model(
                *b,
                posted_instant(opt_text(b.start_time)),
                posted_instant(opt_text(b.end_time)),
                now@,
            ),
        },
{
    if is_blank(b.suite_id.as_str()) || is_blank(b.run_id.as_str()) || is_blank(
        b.case_id.as_str(),
    ) || is_blank(b.trace_id.as_str()) || is_blank(b.span_id.as_str()) {
        return None;
    }
    let start = read_instant(&b.start_time);
    let end = read_instant(&b.end_time);
    Some(build_runner_span(b, start, end, now))
}

// ── Laws ────────────────────────────────────────────────────────────

/// What is posted is found again: a stored score holds the run, the case and
/// the metric that were posted.
pub proof fn posted_scores_are_found(b: AddEvalScoreBody)
    ensures
        score_attributes(b).dom().contains("run_id"@),
        score_attributes(b)["run_id"@] == b.run_id@,
        score_attributes(b).dom().contains("case_id"@),
        score_attributes(b)["case_id"@] == b.case_id@,
        score_attributes(b).dom().contains("metric"@),
        score_attributes(b)["metric"@] == b.metric@,
{
    reveal_strlit("run_id");
    reveal_strlit("case_id");
    reveal_strlit("metric");
    reveal_strlit("suite_id");
    reveal_strlit("trace_id");
    reveal_strlit("span_id");
    reveal_strlit("scorer");
    reveal_strlit("label");
    reveal_strlit("rationale_sha256");
    reveal_strlit("source");
    assert("run_id"@[0] == 'r' && "run_id"@[1] == 'u');
    assert("case_id"@[0] == 'c');
    assert("metric"@[0] == 'm');
    assert("suite_id"@[0] == 's');
    assert("trace_id"@[0] == 't');
    assert("span_id"@[0] == 's');
    assert("scorer"@[0] == 's');
    assert("label"@[0] == 'l');
    assert("rationale_sha256"@[0] == 'r' && "rationale_sha256"@[1] == 'a');
    assert("source"@[0] == 's');
}

/// A score that is posted is read back as it was posted: the same run, case,
/// metric and value, and whatever else was given with it.
pub proof fn posted_scores_read_back(b: AddEvalScoreBody, p: MetricPoint)
    requires
        p.attributes@ == score_attributes(b),
        p.value == b.value,
    ensures
        crate::api::evals::score_in(p) matches Some(s) && {
            &&& s.run_id == b.run_id@ && s.case_id == b.case_id@ && s.metric == b.metric@ && s.value
                == b.value
            &&& b.suite_id matches Some(t) ==> (t@.len() > 0 ==> s.suite_id == Some(t@))
            &&& b.trace_id matches Some(t) ==> (t@.len() > 0 ==> s.trace_id == Some(t@))
            &&& b.span_id matches Some(t) ==> (t@.len() > 0 ==> s.span_id == Some(t@))
            &&& b.scorer matches Some(t) ==> (t@.len() > 0 ==> s.scorer == Some(t@))
            &&& b.label matches Some(t) ==> (t@.len() > 0 ==> s.label == Some(t@))
            &&& b.suite_id is None ==> s.suite_id is None
            &&& b.trace_id is None ==> s.trace_id is None
            &&& b.span_id is None ==> s.span_id is None
            &&& b.scorer is None ==> s.scorer is None
            &&& b.label is None ==> s.label is None
        },
        b.source matches Some(t) ==> (t@.len() > 0 ==> p.attributes@.dom().contains("source"@)
            && p.attributes@["source"@] == t@),
        b.rationale_sha256 matches Some(t) ==> (t@.len() > 0 ==> p.attributes@.dom().contains(
            "rationale_sha256"@,
        ) && p.attributes@["rationale_sha256"@] == t@),
{
    reveal_strlit("suite_id");
    reveal_strlit("run_id");
    reveal_strlit("case_id");
    reveal_strlit("metric");
    reveal_strlit("trace_id");
    reveal_strlit("span_id");
    reveal_strlit("scorer");
    reveal_strlit("label");
    reveal_strlit("rationale_sha256");
    reveal_strlit("source");
    assert("suite_id"@.len() == 8 && "run_id"@.len() == 6 && "case_id"@.len() == 7 && "metric"@.len()
        == 6 && "trace_id"@.len() == 8 && "span_id"@.len() == 7 && "scorer"@.len() == 6
        && "label"@.len() == 5 && "rationale_sha256"@.len() == 16 && "source"@.len() == 6);
    assert("suite_id"@[0] == 's' && "trace_id"@[0] == 't' && "case_id"@[0] == 'c' && "span_id"@[0]
        == 's' && "run_id"@[0] == 'r' && "metric"@[0] == 'm' && "scorer"@[0] == 's'
        && "source"@[0] == 's' && "scorer"@[1] == 'c' && "source"@[1] == 'o');
}

/// A runner's span that is posted tells of the run and the case that it was posted
/// for, of how many cases there are and of what is evaluated, and whether it failed.
pub proof fn posted_spans_read_back(
    b: AddEvalRunnerSpanBody,
    start: Option<Instant>,
    end: Option<Instant>,
    now: Instant,
    s: Span,
    duration: u64,
)
    requires
        s@ == runner_model(b, start, end, now),
    ensures
        crate::api::evals::span_signal(s, duration) matches Some(g) && {
            &&& g.run_id == b.run_id@ && g.case_id == b.case_id@ && g.suite_id == Some(b.suite_id@)
                && g.trace_id == Some(b.trace_id@)
            &&& b.case_count matches Some(n) ==> g.case_count == Some(n as u64)
            &&& b.case_count is None ==> g.case_count is None
            &&& b.code_version matches Some(t) ==> (t@.len() > 0 ==> g.code_version == Some(t@))
            &&& b.code_version is None ==> g.code_version is None
            &&& g.failed <==> b.status == Some(SpanStatus::Error)
        },
{
    reveal_strlit("tael.eval.suite_id");
    reveal_strlit("tael.eval.run_id");
    reveal_strlit("tael.eval.case_id");
    reveal_strlit("tael.eval.role");
    reveal_strlit("tael.eval.case_index");
    reveal_strlit("tael.eval.case_count");
    reveal_strlit("tael.eval.code_version");
    assert("tael.eval.suite_id"@.len() == 18 && "tael.eval.run_id"@.len() == 16
        && "tael.eval.case_id"@.len() == 17 && "tael.eval.role"@.len() == 14
        && "tael.eval.case_index"@.len() == 20 && "tael.eval.case_count"@.len() == 20
        && "tael.eval.code_version"@.len() == 22);
    assert("tael.eval.case_index"@[15] == 'i' && "tael.eval.case_count"@[15] == 'c');
    let a = runner_attributes(b);
    assert(s.attributes@ == a);
    if let Some(n) = b.case_count {
        crate::text::decimal_reads_back(n as nat);
        assert(decimal(n as nat)[0] != '+');
        assert(a["tael.eval.case_count"@] == decimal(n as nat));
    }
}

/// A runner's span lasts from when it is said to start, or now, to when it is said
/// to end, or no longer; how long it took is what was said, else what lies between.
pub proof fn runner_spans_last_as_posted(
    b: AddEvalRunnerSpanBody,
    start: Option<Instant>,
    end: Option<Instant>,
    now: Instant,
)
    ensures
        ({
            let m = runner_model(b, start, end, now);
            &&& start matches Some(t) ==> m.start == t
            &&& start is None ==> m.start == now
            &&& end matches Some(t) ==> m.end == t
            &&& end is None ==> m.end == m.start
            &&& m.trace_id == b.trace_id@ && m.span_id == b.span_id@ && m.parent_span_id is None
            &&& b.status matches Some(s) ==> m.status == s
            &&& b.status is None ==> m.status == SpanStatus::Unset
            &&& b.duration_ms matches Some(d) ==> m.duration == SpanDuration::Millis(d)
            &&& b.duration_ms is None ==> (m.duration matches SpanDuration::Micros(us) && us >= 0
                && (0 <= elapsed(m.start, m.end) / 1000 <= i64::MAX ==> us == elapsed(
                m.start,
                m.end,
            ) / 1000))
        }),
{
}

} // verus!
