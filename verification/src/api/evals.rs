//! Eval runs, cases and scores, as spans and metric points show them. Numbers
//! are the bits of doubles.

use crate::doubles::{at_least, greater, greater_of, is_at_least};
use crate::grouping::{group_by, group_views, grouping, picked, regroup, regrouped, Group};
use crate::metrics::MetricPoint;
use crate::ranking::{as_ints, rank, ranking};
use crate::spans::{under, Span, SpanStatus};
use crate::text::{less, opt_text, parse_unsigned, same, text_less, texts, unsigned_literal};
use crate::time::instant_text;
use vstd::prelude::*;

verus! {

// ── Signals ─────────────────────────────────────────────────────────

/// A score as it is reported.
#[derive(Debug)]
pub struct EvalScoreView {
    pub timestamp: String,
    pub run_id: String,
    pub suite_id: Option<String>,
    pub case_id: String,
    pub trace_id: Option<String>,
    pub span_id: Option<String>,
    pub metric: String,
    pub scorer: Option<String>,
    pub label: Option<String>,
    pub value: u64,
}

pub struct ScoreModel {
    pub timestamp: Seq<char>,
    pub run_id: Seq<char>,
    pub suite_id: Option<Seq<char>>,
    pub case_id: Seq<char>,
    pub trace_id: Option<Seq<char>>,
    pub span_id: Option<Seq<char>>,
    pub metric: Seq<char>,
    pub scorer: Option<Seq<char>>,
    pub label: Option<Seq<char>>,
    pub value: u64,
}

impl View for EvalScoreView {
    type V = ScoreModel;

    open spec fn view(&self) -> ScoreModel {
        ScoreModel {
            timestamp: self.timestamp@,
            run_id: self.run_id@,
            suite_id: opt_text(self.suite_id),
            case_id: self.case_id@,
            trace_id: opt_text(self.trace_id),
            span_id: opt_text(self.span_id),
            metric: self.metric@,
            scorer: opt_text(self.scorer),
            label: opt_text(self.label),
            value: self.value,
        }
    }
}

/// The score that a point holds: one needs a run, a case and a metric.
pub open spec fn score_in(p: MetricPoint) -> Option<ScoreModel> {
    let a = p.attributes@;
    match (under(a, "run_id"@), under(a, "case_id"@), under(a, "metric"@)) {
        (Some(run_id), Some(case_id), Some(metric)) => Some(
            ScoreModel {
                timestamp: instant_text(p.timestamp@),
                run_id,
                suite_id: under(a, "suite_id"@),
                case_id,
                trace_id: under(a, "trace_id"@),
                span_id: under(a, "span_id"@),
                metric,
                scorer: under(a, "scorer"@),
                label: under(a, "label"@),
                value: p.value,
            },
        ),
        _ => None,
    }
}

fn attribute(a: &crate::labels::Labels, name: &str) -> (r: Option<String>)
    ensures
        opt_text(r) == under(a@, name@),
{
    match a.get(name) {
        Some(v) => Some(v.clone()),
        None => None,
    }
}

pub fn metric_to_eval_score(point: &MetricPoint) -> (r: Option<EvalScoreView>)
    ensures
        match r {
            Some(s) => score_in(*point) == Some(s@),
            None => score_in(*point) is None,
        },
{
    let a = &point.attributes;
    let run_id = match attribute(a, "run_id") {
        Some(v) => v,
        None => return None,
    };
    let case_id = match attribute(a, "case_id") {
        Some(v) => v,
        None => return None,
    };
    let metric = match attribute(a, "metric") {
        Some(v) => v,
        None => return None,
    };
    Some(
        EvalScoreView {
            timestamp: point.timestamp.to_rfc3339(),
            run_id,
            suite_id: attribute(a, "suite_id"),
            case_id,
            trace_id: attribute(a, "trace_id"),
            span_id: attribute(a, "span_id"),
            metric,
            scorer: attribute(a, "scorer"),
            label: attribute(a, "label"),
            value: point.value,
        },
    )
}

/// What a span or a score says of a case.
#[derive(Debug)]
pub struct Signal {
    pub run_id: String,
    pub case_id: String,
    pub suite_id: Option<String>,
    pub trace_id: Option<String>,
    pub from: String,
    pub until: String,
    /// Of a span: how long it took.
    pub duration: Option<u64>,
    /// Of a span: whether it failed.
    pub failed: bool,
    /// Of a span: how many cases its run has.
    pub case_count: Option<u64>,
    /// Of a span: the version of what is evaluated.
    pub code_version: Option<String>,
    /// Of a score: its metric.
    pub metric: Option<String>,
    /// Of a score: its label.
    pub label: Option<String>,
    /// Of a score: its value.
    pub value: u64,
}

pub struct SignalModel {
    pub run_id: Seq<char>,
    pub case_id: Seq<char>,
    pub suite_id: Option<Seq<char>>,
    pub trace_id: Option<Seq<char>>,
    pub from: Seq<char>,
    pub until: Seq<char>,
    pub duration: Option<u64>,
    pub failed: bool,
    pub case_count: Option<u64>,
    pub code_version: Option<Seq<char>>,
    pub metric: Option<Seq<char>>,
    pub label: Option<Seq<char>>,
    pub value: u64,
}

impl View for Signal {
    type V = SignalModel;

    open spec fn view(&self) -> SignalModel {
        SignalModel {
            run_id: self.run_id@,
            case_id: self.case_id@,
            suite_id: opt_text(self.suite_id),
            trace_id: opt_text(self.trace_id),
            from: self.from@,
            until: self.until@,
            duration: self.duration,
            failed: self.failed,
            case_count: self.case_count,
            code_version: opt_text(self.code_version),
            metric: opt_text(self.metric),
            label: opt_text(self.label),
            value: self.value,
        }
    }
}

pub open spec fn signal_views(v: Seq<Signal>) -> Seq<SignalModel> {
    v.map_values(|s: Signal| s@)
}

/// A number of cases.
pub open spec fn count_of(s: Option<Seq<char>>) -> Option<u64> {
    match s {
        Some(t) => match unsigned_literal(t) {
            Some(n) => if n <= u64::MAX {
                Some(n as u64)
            } else {
                None
            },
            None => None,
        },
        None => None,
    }
}

/// What a span says of a case: it needs to name the run and the case.
pub open spec fn span_signal(s: Span, duration: u64) -> Option<SignalModel> {
    let a = s.attributes@;
    match (under(a, "tael.eval.run_id"@), under(a, "tael.eval.case_id"@)) {
        (Some(run_id), Some(case_id)) => Some(
            SignalModel {
                run_id,
                case_id,
                suite_id: under(a, "tael.eval.suite_id"@),
                trace_id: Some(s.trace_id@),
                from: instant_text(s.start_time@),
                until: instant_text(s.end_time@),
                duration: Some(duration),
                failed: s.status == SpanStatus::Error,
                case_count: count_of(under(a, "tael.eval.case_count"@)),
                code_version: under(a, "tael.eval.code_version"@),
                metric: None,
                label: None,
                value: 0,
            },
        ),
        _ => None,
    }
}

/// What a score says of its case.
pub open spec fn score_signal(s: ScoreModel) -> SignalModel {
    SignalModel {
        run_id: s.run_id,
        case_id: s.case_id,
        suite_id: s.suite_id,
        trace_id: s.trace_id,
        from: s.timestamp,
        until: s.timestamp,
        duration: None,
        failed: false,
        case_count: None,
        code_version: None,
        metric: Some(s.metric),
        label: s.label,
        value: s.value,
    }
}

pub open spec fn span_signals(spans: Seq<Span>, durations: Seq<u64>) -> Seq<SignalModel>
    decreases spans.len(),
{
    if spans.len() == 0 {
        Seq::empty()
    } else {
        let before = span_signals(spans.drop_last(), durations.drop_last());
        match span_signal(spans.last(), durations.last()) {
            Some(s) => before.push(s),
            None => before,
        }
    }
}

pub open spec fn score_signals(points: Seq<MetricPoint>) -> Seq<SignalModel>
    decreases points.len(),
{
    if points.len() == 0 {
        Seq::empty()
    } else {
        let before = score_signals(points.drop_last());
        match score_in(points.last()) {
            Some(s) => before.push(score_signal(s)),
            None => before,
        }
    }
}

fn read_span(s: &Span, duration: u64) -> (r: Option<Signal>)
    ensures
        match r {
            Some(g) => span_signal(*s, duration) == Some(g@),
            None => span_signal(*s, duration) is None,
        },
{
    let a = &s.attributes;
    let run_id = match attribute(a, "tael.eval.run_id") {
        Some(v) => v,
        None => return None,
    };
    let case_id = match attribute(a, "tael.eval.case_id") {
        Some(v) => v,
        None => return None,
    };
    let case_count: Option<u64> = match a.get("tael.eval.case_count") {
        Some(v) => parse_unsigned(v.as_str(), u64::MAX),
        None => None,
    };
    let failed = match s.status {
        SpanStatus::Error => true,
        _ => false,
    };
    Some(
        Signal {
            run_id,
            case_id,
            suite_id: attribute(a, "tael.eval.suite_id"),
            trace_id: Some(s.trace_id.clone()),
            from: s.start_time.to_rfc3339(),
            until: s.end_time.to_rfc3339(),
            duration: Some(duration),
            failed,
            case_count,
            code_version: attribute(a, "tael.eval.code_version"),
            metric: None,
            label: None,
            value: 0,
        },
    )
}

fn read_score(s: EvalScoreView) -> (r: Signal)
    ensures
        r@ == score_signal(s@),
{
    Signal {
        run_id: s.run_id,
        case_id: s.case_id,
        suite_id: s.suite_id,
        trace_id: s.trace_id,
        from: s.timestamp.clone(),
        until: s.timestamp,
        duration: None,
        failed: false,
        case_count: None,
        code_version: None,
        metric: Some(s.metric),
        label: s.label,
        value: s.value,
    }
}

/// Read what spans, with the milliseconds that each took, and then points say
/// of cases.
pub fn read_signals(spans: &Vec<Span>, durations: &Vec<u64>, points: &Vec<MetricPoint>) -> (r: Vec<
    Signal,
>)
    requires
        spans@.len() == durations@.len(),
    ensures
        signal_views(r@) == span_signals(spans@, durations@) + score_signals(points@),
{
    let mut out: Vec<Signal> = Vec::new();
    let mut i: usize = 0;
    assert(spans@.take(0) =~= Seq::<Span>::empty());
    assert(signal_views(out@) =~= Seq::<SignalModel>::empty());
    while i < spans.len()
        invariant
            i <= spans@.len(),
            spans@.len() == durations@.len(),
            signal_views(out@) == span_signals(spans@.take(i as int), durations@.take(i as int)),
        decreases spans@.len() - i,
    {
        proof {
            assert(spans@.take(i as int + 1).drop_last() =~= spans@.take(i as int));
            assert(durations@.take(i as int + 1).drop_last() =~= durations@.take(i as int));
            assert(spans@.take(i as int + 1).last() == spans@[i as int]);
            assert(durations@.take(i as int + 1).last() == durations@[i as int]);
        }
        if let Some(s) = read_span(&spans[i], durations[i]) {
            let ghost before = out@;
            out.push(s);
            assert(signal_views(out@) =~= signal_views(before).push(s@));
        }
        i = i + 1;
    }
    assert(spans@.take(spans@.len() as int) =~= spans@);
    assert(durations@.take(spans@.len() as int) =~= durations@);
    let ghost start = signal_views(out@);
    let mut k: usize = 0;
    assert(points@.take(0) =~= Seq::<MetricPoint>::empty());
    assert(start + score_signals(points@.take(0)) =~= start);
    while k < points.len()
        invariant
            k <= points@.len(),
            signal_views(out@) == start + score_signals(points@.take(k as int)),
        decreases points@.len() - k,
    {
        assert(points@.take(k as int + 1).drop_last() =~= points@.take(k as int));
        assert(points@.take(k as int + 1).last() == points@[k as int]);
        if let Some(s) = metric_to_eval_score(&points[k]) {
            let ghost before = out@;
            let g = read_score(s);
            out.push(g);
            assert(signal_views(out@) =~= signal_views(before).push(g@));
            assert(signal_views(out@) =~= start + score_signals(points@.take(k as int + 1)));
        }
        k = k + 1;
    }
    assert(points@.take(points@.len() as int) =~= points@);
    out
}

// ── Cases ───────────────────────────────────────────────────────────

/// How a case stands.
#[derive(Debug, Clone, Copy, PartialEq, Eq, Structural)]
pub enum CaseStatus {
    Pass,
    Fail,
    Running,
    Pending,
}

impl CaseStatus {
    pub open spec fn text(self) -> Seq<char> {
        match self {
            CaseStatus::Pass => "pass"@,
            CaseStatus::Fail => "fail"@,
            CaseStatus::Running => "running"@,
            CaseStatus::Pending => "pending"@,
        }
    }

    pub fn as_str(&self) -> (r: &'static str)
        ensures
            r@ == self.text(),
    {
        match self {
            CaseStatus::Pass => "pass",
            CaseStatus::Fail => "fail",
            CaseStatus::Running => "running",
            CaseStatus::Pending => "pending",
        }
    }
}

/// A case of a run. Costs are not added up here.
#[derive(Debug)]
pub struct EvalCaseSummary {
    pub run_id: String,
    pub suite_id: Option<String>,
    pub case_id: String,
    pub trace_id: Option<String>,
    pub status: CaseStatus,
    pub started_at: String,
    pub updated_at: String,
    pub duration_ms: Option<u64>,
    /// The last score of each metric, in order.
    pub scores: Vec<(String, u64)>,
    /// The last label of each metric, in order.
    pub labels: Vec<(String, String)>,
    /// What is to be added up for the cost.
    pub costs: Vec<u64>,
}

pub struct CaseModel {
    pub run_id: Seq<char>,
    pub suite_id: Option<Seq<char>>,
    pub case_id: Seq<char>,
    pub trace_id: Option<Seq<char>>,
    pub status: CaseStatus,
    pub started_at: Seq<char>,
    pub updated_at: Seq<char>,
    pub duration_ms: Option<u64>,
    pub scores: Seq<(Seq<char>, u64)>,
    pub labels: Seq<(Seq<char>, Seq<char>)>,
    pub costs: Seq<u64>,
}

pub open spec fn score_pairs(v: Seq<(String, u64)>) -> Seq<(Seq<char>, u64)> {
    v.map_values(|p: (String, u64)| (p.0@, p.1))
}

pub open spec fn label_pairs(v: Seq<(String, String)>) -> Seq<(Seq<char>, Seq<char>)> {
    v.map_values(|p: (String, String)| (p.0@, p.1@))
}

impl View for EvalCaseSummary {
    type V = CaseModel;

    open spec fn view(&self) -> CaseModel {
        CaseModel {
            run_id: self.run_id@,
            suite_id: opt_text(self.suite_id),
            case_id: self.case_id@,
            trace_id: opt_text(self.trace_id),
            status: self.status,
            started_at: self.started_at@,
            updated_at: self.updated_at@,
            duration_ms: self.duration_ms,
            scores: score_pairs(self.scores@),
            labels: label_pairs(self.labels@),
            costs: self.costs@,
        }
    }
}

pub open spec fn earlier(a: Seq<char>, b: Seq<char>) -> Seq<char> {
    if text_less(b, a) {
        b
    } else {
        a
    }
}

pub open spec fn later(a: Seq<char>, b: Seq<char>) -> Seq<char> {
    if text_less(b, a) {
        a
    } else {
        b
    }
}

/// The earlier of two times, as texts, where there are any.
pub fn min_string_time(a: Option<String>, b: Option<String>) -> (r: Option<String>)
    ensures
        opt_text(r) == match (opt_text(a), opt_text(b)) {
            (Some(x), Some(y)) => Some(earlier(x, y)),
            (Some(x), None) => Some(x),
            (None, y) => y,
        },
{
    match (a, b) {
        (Some(a), Some(b)) => if less(b.as_str(), a.as_str()) {
            Some(b)
        } else {
            Some(a)
        },
        (Some(a), None) => Some(a),
        (None, Some(b)) => Some(b),
        (None, None) => None,
    }
}

/// The later of two times, as texts, where there are any.
pub fn max_string_time(a: Option<String>, b: Option<String>) -> (r: Option<String>)
    ensures
        opt_text(r) == match (opt_text(a), opt_text(b)) {
            (Some(x), Some(y)) => Some(later(x, y)),
            (Some(x), None) => Some(x),
            (None, y) => y,
        },
{
    match (a, b) {
        (Some(a), Some(b)) => if less(b.as_str(), a.as_str()) {
            Some(a)
        } else {
            Some(b)
        },
        (Some(a), None) => Some(a),
        (None, Some(b)) => Some(b),
        (None, None) => None,
    }
}

pub open spec fn first_suite(signals: Seq<SignalModel>) -> Option<Seq<char>>
    decreases signals.len(),
{
    if signals.len() == 0 {
        None
    } else {
        match first_suite(signals.drop_last()) {
            Some(s) => Some(s),
            None => signals.last().suite_id,
        }
    }
}

pub open spec fn first_trace(signals: Seq<SignalModel>) -> Option<Seq<char>>
    decreases signals.len(),
{
    if signals.len() == 0 {
        None
    } else {
        match first_trace(signals.drop_last()) {
            Some(s) => Some(s),
            None => signals.last().trace_id,
        }
    }
}

/// When a case started: with its earliest span, or its first score where it has
/// none.
pub open spec fn start_of(signals: Seq<SignalModel>) -> Option<Seq<char>>
    decreases signals.len(),
{
    if signals.len() == 0 {
        None
    } else {
        match start_of(signals.drop_last()) {
            None => Some(signals.last().from),
            Some(t) => if signals.last().metric is None {
                Some(earlier(t, signals.last().from))
            } else {
                Some(t)
            },
        }
    }
}

/// When a case was last heard of.
pub open spec fn end_of(signals: Seq<SignalModel>) -> Option<Seq<char>>
    decreases signals.len(),
{
    if signals.len() == 0 {
        None
    } else {
        match end_of(signals.drop_last()) {
            None => Some(signals.last().until),
            Some(t) => Some(later(t, signals.last().until)),
        }
    }
}

/// How long the longest span of a case took.
pub open spec fn longest(signals: Seq<SignalModel>) -> Option<u64>
    decreases signals.len(),
{
    if signals.len() == 0 {
        None
    } else {
        let before = longest(signals.drop_last());
        match (before, signals.last().duration) {
            (b, None) => b,
            (None, Some(d)) => Some(d),
            (Some(b), Some(d)) => Some(greater_of(b, d)),
        }
    }
}

pub open spec fn any_failed(signals: Seq<SignalModel>) -> bool {
    exists|i: int| 0 <= i < signals.len() && (#[trigger] signals[i]).failed
}

pub open spec fn costs_of(signals: Seq<SignalModel>) -> Seq<u64>
    decreases signals.len(),
{
    if signals.len() == 0 {
        Seq::empty()
    } else {
        let before = costs_of(signals.drop_last());
        if signals.last().metric == Some("cost_usd"@) {
            before.push(signals.last().value)
        } else {
            before
        }
    }
}

/// The scores among signals: metric and value.
pub open spec fn scores_among(signals: Seq<SignalModel>) -> Seq<(Seq<char>, u64)>
    decreases signals.len(),
{
    if signals.len() == 0 {
        Seq::empty()
    } else {
        let before = scores_among(signals.drop_last());
        match signals.last().metric {
            Some(m) => before.push((m, signals.last().value)),
            None => before,
        }
    }
}

/// The labels among signals: metric and label.
pub open spec fn labels_among(signals: Seq<SignalModel>) -> Seq<(Seq<char>, Seq<char>)>
    decreases signals.len(),
{
    if signals.len() == 0 {
        Seq::empty()
    } else {
        let before = labels_among(signals.drop_last());
        match (signals.last().metric, signals.last().label) {
            (Some(m), Some(l)) => before.push((m, l)),
            _ => before,
        }
    }
}

pub open spec fn keys_of<V>(pairs: Seq<(Seq<char>, V)>) -> Seq<Seq<char>> {
    pairs.map_values(|p: (Seq<char>, V)| p.0)
}

/// The last value under each key, in the order of the keys.
pub open spec fn last_of_each<V>(pairs: Seq<(Seq<char>, V)>) -> Seq<(Seq<char>, V)> {
    grouping(keys_of(pairs)).map_values(
        |g: (Seq<char>, Seq<int>)| (g.0, pairs[g.1.last()].1),
    )
}

pub open spec fn is_failing(l: Seq<char>) -> bool {
    l == "fail"@ || l == "failed"@ || l == "error"@
}

pub open spec fn is_passing(l: Seq<char>) -> bool {
    l == "pass"@ || l == "passed"@ || l == "ok"@
}

/// The value under a key; nothing where there is none.
pub open spec fn value_under(pairs: Seq<(Seq<char>, u64)>, key: Seq<char>) -> Option<u64>
    decreases pairs.len(),
{
    if pairs.len() == 0 {
        None
    } else if pairs.last().0 == key {
        Some(pairs.last().1)
    } else {
        value_under(pairs.drop_last(), key)
    }
}

/// How a case stands. A span that failed or a label that says so fails it; then
/// a label passes it; then the scores `pass` and `correctness` decide.
pub open spec fn case_status(
    span_failed: bool,
    labels: Seq<(Seq<char>, Seq<char>)>,
    scores: Seq<(Seq<char>, u64)>,
    observed: bool,
) -> CaseStatus {
    let one: u64 = 0x3ff0_0000_0000_0000;
    if span_failed || exists|i: int|
        0 <= i < labels.len() && is_failing((#[trigger] labels[i]).1) {
        CaseStatus::Fail
    } else if exists|i: int| 0 <= i < labels.len() && is_passing((#[trigger] labels[i]).1) {
        CaseStatus::Pass
    } else {
        match value_under(scores, "pass"@) {
            Some(v) => if is_at_least(v, one) {
                CaseStatus::Pass
            } else {
                CaseStatus::Fail
            },
            None => match value_under(scores, "correctness"@) {
                Some(v) => if is_at_least(v, one) {
                    CaseStatus::Pass
                } else {
                    CaseStatus::Fail
                },
                None => if observed {
                    CaseStatus::Running
                } else {
                    CaseStatus::Pending
                },
            },
        }
    }
}

/// What signals come to, for the case that they are all of.
pub open spec fn case_of(
    run_id: Seq<char>,
    case_id: Seq<char>,
    signals: Seq<SignalModel>,
) -> CaseModel {
    let scores = last_of_each(scores_among(signals));
    let labels = last_of_each(labels_among(signals));
    let trace_id = first_trace(signals);
    CaseModel {
        run_id,
        suite_id: first_suite(signals),
        case_id,
        trace_id,
        status: case_status(any_failed(signals), labels, scores, trace_id is Some),
        started_at: start_of(signals)->0,
        updated_at: end_of(signals)->0,
        duration_ms: longest(signals),
        scores,
        labels,
        costs: costs_of(signals),
    }
}

fn keep_last_scores(metrics: &Vec<String>, values: &Vec<u64>, Ghost(pairs): Ghost<
    Seq<(Seq<char>, u64)>,
>) -> (r: Vec<(String, u64)>)
    requires
        texts(metrics@) == keys_of(pairs),
        values@.len() == pairs.len(),
        forall|i: int| 0 <= i < pairs.len() ==> (#[trigger] pairs[i]).1 == values@[i],
    ensures
        score_pairs(r@) == last_of_each(pairs),
{
    assert(texts(metrics@).len() == metrics@.len());
    let groups = group_by(metrics);
    let ghost wanted = last_of_each(pairs);
    let mut out: Vec<(String, u64)> = Vec::new();
    let mut g: usize = 0;
    assert(score_pairs(out@) =~= wanted.take(0));
    while g < groups.len()
        invariant
            g <= groups@.len(),
            values@.len() == pairs.len(),
            metrics@.len() == pairs.len(),
            forall|i: int| 0 <= i < pairs.len() ==> (#[trigger] pairs[i]).1 == values@[i],
            group_views(groups@) == grouping(keys_of(pairs)),
            wanted == last_of_each(pairs),
            forall|g: int, k: int|
                0 <= g < groups@.len() && 0 <= k < groups@[g].members@.len()
                    ==> #[trigger] groups@[g].members@[k] < metrics@.len(),
            forall|g: int| 0 <= g < groups@.len() ==> (#[trigger] groups@[g]).members@.len() > 0,
            score_pairs(out@) == wanted.take(g as int),
        decreases groups@.len() - g,
    {
        let ghost before = out@;
        let h = &groups[g];
        assert(group_views(groups@)[g as int] == h@);
        let at: usize = h.members[h.members.len() - 1];
        assert(h@.1.last() == at as int);
        assert(pairs[at as int].1 == values@[at as int]);
        let pair = (h.key.clone(), values[at]);
        assert((pair.0@, pair.1) == wanted[g as int]);
        out.push(pair);
        assert(score_pairs(out@) =~= score_pairs(before).push((pair.0@, pair.1)));
        g = g + 1;
        assert(score_pairs(out@) =~= wanted.take(g as int));
    }
    assert(wanted.take(groups@.len() as int) =~= wanted);
    out
}

fn keep_last_labels(metrics: &Vec<String>, values: &Vec<String>, Ghost(pairs): Ghost<
    Seq<(Seq<char>, Seq<char>)>,
>) -> (r: Vec<(String, String)>)
    requires
        texts(metrics@) == keys_of(pairs),
        values@.len() == pairs.len(),
        forall|i: int| 0 <= i < pairs.len() ==> (#[trigger] pairs[i]).1 == values@[i]@,
    ensures
        label_pairs(r@) == last_of_each(pairs),
{
    assert(texts(metrics@).len() == metrics@.len());
    let groups = group_by(metrics);
    let ghost wanted = last_of_each(pairs);
    let mut out: Vec<(String, String)> = Vec::new();
    let mut g: usize = 0;
    assert(label_pairs(out@) =~= wanted.take(0));
    while g < groups.len()
        invariant
            g <= groups@.len(),
            values@.len() == pairs.len(),
            metrics@.len() == pairs.len(),
            forall|i: int| 0 <= i < pairs.len() ==> (#[trigger] pairs[i]).1 == values@[i]@,
            group_views(groups@) == grouping(keys_of(pairs)),
            wanted == last_of_each(pairs),
            forall|g: int, k: int|
                0 <= g < groups@.len() && 0 <= k < groups@[g].members@.len()
                    ==> #[trigger] groups@[g].members@[k] < metrics@.len(),
            forall|g: int| 0 <= g < groups@.len() ==> (#[trigger] groups@[g]).members@.len() > 0,
            label_pairs(out@) == wanted.take(g as int),
        decreases groups@.len() - g,
    {
        let ghost before = out@;
        let h = &groups[g];
        assert(group_views(groups@)[g as int] == h@);
        let at: usize = h.members[h.members.len() - 1];
        assert(h@.1.last() == at as int);
        assert(pairs[at as int].1 == values@[at as int]@);
        let pair = (h.key.clone(), values[at].clone());
        assert((pair.0@, pair.1@) == wanted[g as int]);
        out.push(pair);
        assert(label_pairs(out@) =~= label_pairs(before).push((pair.0@, pair.1@)));
        g = g + 1;
        assert(label_pairs(out@) =~= wanted.take(g as int));
    }
    assert(wanted.take(groups@.len() as int) =~= wanted);
    out
}

fn score_named(scores: &Vec<(String, u64)>, key: &str) -> (r: Option<u64>)
    ensures
        r == value_under(score_pairs(scores@), key@),
{
    let ghost all = score_pairs(scores@);
    let mut n: usize = scores.len();
    assert(all.take(n as int) =~= all);
    while n > 0
        invariant
            n <= scores@.len(),
            all == score_pairs(scores@),
            value_under(all, key@) == value_under(all.take(n as int), key@),
        decreases n,
    {
        assert(all.take(n as int).drop_last() =~= all.take(n as int - 1));
        assert(all.take(n as int).last() == (scores@[n as int - 1].0@, scores@[n as int - 1].1));
        if same(scores[n - 1].0.as_str(), key) {
            return Some(scores[n - 1].1);
        }
        n = n - 1;
    }
    None
}

/// Infer how a case stands.
pub fn infer_case_status(
    span_failed: bool,
    labels: &Vec<(String, String)>,
    scores: &Vec<(String, u64)>,
    observed: bool,
) -> (r: CaseStatus)
    ensures
        r == case_status(span_failed, label_pairs(labels@), score_pairs(scores@), observed),
{
    let ghost all = label_pairs(labels@);
    let mut failing: bool = span_failed;
    let mut passing: bool = false;
    let mut i: usize = 0;
    while i < labels.len()
        invariant
            i <= labels@.len(),
            all == label_pairs(labels@),
            failing == (span_failed || exists|j: int|
                0 <= j < i && is_failing((#[trigger] all[j]).1)),
            passing == (exists|j: int| 0 <= j < i && is_passing((#[trigger] all[j]).1)),
        decreases labels@.len() - i,
    {
        let l = labels[i].1.as_str();
        assert(all[i as int].1 == l@);
        if same(l, "fail") || same(l, "failed") || same(l, "error") {
            assert(is_failing(all[i as int].1));
            failing = true;
        }
        if same(l, "pass") || same(l, "passed") || same(l, "ok") {
            assert(is_passing(all[i as int].1));
            passing = true;
        }
        i = i + 1;
    }
    if failing {
        return CaseStatus::Fail;
    }
    if passing {
        return CaseStatus::Pass;
    }
    let decisive: Option<u64> = match score_named(scores, "pass") {
        Some(v) => Some(v),
        None => score_named(scores, "correctness"),
    };
    match decisive {
        Some(v) => if at_least(v, 0x3ff0_0000_0000_0000) {
            CaseStatus::Pass
        } else {
            CaseStatus::Fail
        },
        None => if observed {
            CaseStatus::Running
        } else {
            CaseStatus::Pending
        },
    }
}

/// Put a case together from the signals at some positions.
fn build_case(signals: &Vec<Signal>, members: &Vec<usize>, run_id: &str, case_id: &str) -> (r:
    EvalCaseSummary)
    requires
        members@.len() > 0,
        forall|k: int| 0 <= k < members@.len() ==> #[trigger] members@[k] < signals@.len(),
    ensures
        r@ == case_of(run_id@, case_id@, picked(signal_views(signals@), as_ints(members@))),
{
    let ghost all = picked(signal_views(signals@), as_ints(members@));
    let mut suite_id: Option<String> = None;
    let mut trace_id: Option<String> = None;
    let mut started: Option<String> = None;
    let mut updated: Option<String> = None;
    let mut duration: Option<u64> = None;
    let mut failed: bool = false;
    let mut costs: Vec<u64> = Vec::new();
    let mut metrics: Vec<String> = Vec::new();
    let mut values: Vec<u64> = Vec::new();
    let mut labelled: Vec<String> = Vec::new();
    let mut labels: Vec<String> = Vec::new();
    let mut i: usize = 0;
    proof {
        assert(all.take(0) =~= Seq::<SignalModel>::empty());
        assert(texts(metrics@) =~= keys_of(scores_among(all.take(0))));
        assert(texts(labelled@) =~= keys_of(labels_among(all.take(0))));
    }
    while i < members.len()
        invariant
            i <= members@.len(),
            all == picked(signal_views(signals@), as_ints(members@)),
            forall|k: int| 0 <= k < members@.len() ==> #[trigger] members@[k] < signals@.len(),
            opt_text(suite_id) == first_suite(all.take(i as int)),
            opt_text(trace_id) == first_trace(all.take(i as int)),
            opt_text(started) == start_of(all.take(i as int)),
            opt_text(updated) == end_of(all.take(i as int)),
            i > 0 ==> started is Some && updated is Some,
            duration == longest(all.take(i as int)),
            failed == (exists|j: int| 0 <= j < i && (#[trigger] all[j]).failed),
            costs@ == costs_of(all.take(i as int)),
            texts(metrics@) == keys_of(scores_among(all.take(i as int))),
            values@.len() == scores_among(all.take(i as int)).len(),
            forall|j: int|
                0 <= j < values@.len() ==> (#[trigger] scores_among(all.take(i as int))[j]).1
                    == values@[j],
            texts(labelled@) == keys_of(labels_among(all.take(i as int))),
            labels@.len() == labels_among(all.take(i as int)).len(),
            forall|j: int|
                0 <= j < labels@.len() ==> (#[trigger] labels_among(all.take(i as int))[j]).1
                    == labels@[j]@,
        decreases members@.len() - i,
    {
        let s = &signals[members[i]];
        let ghost now = all.take(i as int + 1);
        proof {
            assert(now.drop_last() =~= all.take(i as int));
            assert(as_ints(members@)[i as int] == members@[i as int] as int);
            assert(now.last() == s@);
            assert(all[i as int] == s@);
        }
        if suite_id.is_none() {
            suite_id = match &s.suite_id {
                Some(t) => Some(t.clone()),
                None => None,
            };
        }
        if trace_id.is_none() {
            trace_id = match &s.trace_id {
                Some(t) => Some(t.clone()),
                None => None,
            };
        }
        if started.is_none() || s.metric.is_none() {
            started = min_string_time(started, Some(s.from.clone()));
        }
        updated = max_string_time(updated, Some(s.until.clone()));
        duration = match (duration, s.duration) {
            (Some(b), Some(d)) => Some(greater(b, d)),
            (None, d) => d,
            (b, None) => b,
        };
        if s.failed {
            failed = true;
        }
        if let Some(m) = &s.metric {
            let ghost m0 = metrics@;
            let ghost before = scores_among(all.take(i as int));
            if same(m.as_str(), "cost_usd") {
                costs.push(s.value);
            }
            metrics.push(m.clone());
            values.push(s.value);
            proof {
                assert(texts(metrics@) =~= texts(m0).push(m@));
                assert(scores_among(now) == before.push((m@, s.value)));
                assert(keys_of(scores_among(now)) =~= keys_of(before).push(m@));
            }
            if let Some(l) = &s.label {
                let ghost l0 = labelled@;
                let ghost lbefore = labels_among(all.take(i as int));
                labelled.push(m.clone());
                labels.push(l.clone());
                proof {
                    assert(texts(labelled@) =~= texts(l0).push(m@));
                    assert(labels_among(now) == lbefore.push((m@, l@)));
                    assert(keys_of(labels_among(now)) =~= keys_of(lbefore).push(m@));
                }
            }
        }
        i = i + 1;
    }
    assert(all.take(members@.len() as int) =~= all);
    let scores = keep_last_scores(&metrics, &values, Ghost(scores_among(all)));
    let labels = keep_last_labels(&labelled, &labels, Ghost(labels_among(all)));
    let status = infer_case_status(failed, &labels, &scores, trace_id.is_some());
    let started_at = match started {
        Some(t) => t,
        None => String::new(),
    };
    let updated_at = match updated {
        Some(t) => t,
        None => String::new(),
    };
    EvalCaseSummary {
        run_id: run_id.to_owned(),
        suite_id,
        case_id: case_id.to_owned(),
        trace_id,
        status,
        started_at,
        updated_at,
        duration_ms: duration,
        scores,
        labels,
        costs,
    }
}

// ── Runs ────────────────────────────────────────────────────────────

/// How a run stands.
#[derive(Debug, Clone, Copy, PartialEq, Eq, Structural)]
pub enum RunStatus {
    Failed,
    Complete,
    Running,
    Unknown,
}

impl RunStatus {
    pub open spec fn text(self) -> Seq<char> {
        match self {
            RunStatus::Failed => "failed"@,
            RunStatus::Complete => "complete"@,
            RunStatus::Running => "running"@,
            RunStatus::Unknown => "unknown"@,
        }
    }

    pub fn as_str(&self) -> (r: &'static str)
        ensures
            r@ == self.text(),
    {
        match self {
            RunStatus::Failed => "failed",
            RunStatus::Complete => "complete",
            RunStatus::Running => "running",
            RunStatus::Unknown => "unknown",
        }
    }
}

/// A run. Costs and averages are not computed here.
#[derive(Debug)]
pub struct EvalRunSummary {
    pub run_id: String,
    pub suite_id: Option<String>,
    pub code_version: Option<String>,
    pub status: RunStatus,
    pub case_count: Option<u64>,
    pub observed_cases: u64,
    pub scored_cases: u64,
    pub passed_cases: u64,
    pub failed_cases: u64,
    pub pending_cases: Option<u64>,
    /// What is to be averaged for each metric, in the order of the cases.
    pub averages: Vec<(String, Vec<u64>)>,
    pub started_at: String,
    pub updated_at: String,
    pub cases: Vec<EvalCaseSummary>,
}

pub struct RunModel {
    pub run_id: Seq<char>,
    pub suite_id: Option<Seq<char>>,
    pub code_version: Option<Seq<char>>,
    pub status: RunStatus,
    pub case_count: Option<u64>,
    pub observed_cases: nat,
    pub scored_cases: nat,
    pub passed_cases: nat,
    pub failed_cases: nat,
    pub pending_cases: Option<nat>,
    pub averages: Seq<(Seq<char>, Seq<u64>)>,
    pub started_at: Seq<char>,
    pub updated_at: Seq<char>,
    pub cases: Seq<CaseModel>,
}

pub open spec fn case_views(v: Seq<EvalCaseSummary>) -> Seq<CaseModel> {
    v.map_values(|c: EvalCaseSummary| c@)
}

pub open spec fn average_views(v: Seq<(String, Vec<u64>)>) -> Seq<(Seq<char>, Seq<u64>)> {
    v.map_values(|a: (String, Vec<u64>)| (a.0@, a.1@))
}

impl View for EvalRunSummary {
    type V = RunModel;

    open spec fn view(&self) -> RunModel {
        RunModel {
            run_id: self.run_id@,
            suite_id: opt_text(self.suite_id),
            code_version: opt_text(self.code_version),
            status: self.status,
            case_count: self.case_count,
            observed_cases: self.observed_cases as nat,
            scored_cases: self.scored_cases as nat,
            passed_cases: self.passed_cases as nat,
            failed_cases: self.failed_cases as nat,
            pending_cases: match self.pending_cases {
                Some(n) => Some(n as nat),
                None => None,
            },
            averages: average_views(self.averages@),
            started_at: self.started_at@,
            updated_at: self.updated_at@,
            cases: case_views(self.cases@),
        }
    }
}

/// How a run stands: one failed case fails it, and it is complete once as many
/// cases were scored or observed as it has.
pub open spec fn run_status(
    case_count: Option<u64>,
    observed: nat,
    scored: nat,
    failed: nat,
) -> RunStatus {
    if failed > 0 {
        RunStatus::Failed
    } else if case_count matches Some(total) && total > 0 && (scored >= total || observed
        >= total) {
        RunStatus::Complete
    } else if observed > 0 || scored > 0 {
        RunStatus::Running
    } else {
        RunStatus::Unknown
    }
}

pub fn infer_run_status(case_count: Option<u64>, observed: u64, scored: u64, failed: u64) -> (r:
    RunStatus)
    ensures
        r == run_status(case_count, observed as nat, scored as nat, failed as nat),
{
    if failed > 0 {
        return RunStatus::Failed;
    }
    if let Some(total) = case_count {
        if total > 0 && (scored >= total || observed >= total) {
            return RunStatus::Complete;
        }
    }
    if observed > 0 || scored > 0 {
        RunStatus::Running
    } else {
        RunStatus::Unknown
    }
}

pub open spec fn version_of(signals: Seq<SignalModel>) -> Option<Seq<char>>
    decreases signals.len(),
{
    if signals.len() == 0 {
        None
    } else {
        match version_of(signals.drop_last()) {
            Some(v) => Some(v),
            None => signals.last().code_version,
        }
    }
}

/// How many cases a run has: the greatest number that a span names.
pub open spec fn cases_named(signals: Seq<SignalModel>) -> Option<u64>
    decreases signals.len(),
{
    if signals.len() == 0 {
        None
    } else {
        match (cases_named(signals.drop_last()), signals.last().case_count) {
            (Some(a), Some(b)) => Some(
                if a < b {
                    b
                } else {
                    a
                },
            ),
            (Some(a), None) => Some(a),
            (None, b) => b,
        }
    }
}

pub open spec fn suite_among(cases: Seq<CaseModel>) -> Option<Seq<char>>
    decreases cases.len(),
{
    if cases.len() == 0 {
        None
    } else {
        match suite_among(cases.drop_last()) {
            Some(s) => Some(s),
            None => cases.last().suite_id,
        }
    }
}

pub open spec fn how_many(cases: Seq<CaseModel>, p: spec_fn(CaseModel) -> bool) -> nat
    decreases cases.len(),
{
    if cases.len() == 0 {
        0
    } else {
        how_many(cases.drop_last(), p) + if p(cases.last()) {
            1nat
        } else {
            0
        }
    }
}

pub open spec fn earliest(cases: Seq<CaseModel>) -> Option<Seq<char>>
    decreases cases.len(),
{
    if cases.len() == 0 {
        None
    } else {
        match earliest(cases.drop_last()) {
            Some(t) => Some(earlier(t, cases.last().started_at)),
            None => Some(cases.last().started_at),
        }
    }
}

pub open spec fn latest(cases: Seq<CaseModel>) -> Option<Seq<char>>
    decreases cases.len(),
{
    if cases.len() == 0 {
        None
    } else {
        match latest(cases.drop_last()) {
            Some(t) => Some(later(t, cases.last().updated_at)),
            None => Some(cases.last().updated_at),
        }
    }
}

/// The scores that are averaged: all but the cost.
pub open spec fn averaged(scores: Seq<(Seq<char>, u64)>) -> Seq<(Seq<char>, u64)>
    decreases scores.len(),
{
    if scores.len() == 0 {
        Seq::empty()
    } else {
        let before = averaged(scores.drop_last());
        if scores.last().0 == "cost_usd"@ {
            before
        } else {
            before.push(scores.last())
        }
    }
}

pub open spec fn scores_over(cases: Seq<CaseModel>) -> Seq<(Seq<char>, u64)>
    decreases cases.len(),
{
    if cases.len() == 0 {
        Seq::empty()
    } else {
        scores_over(cases.drop_last()) + averaged(cases.last().scores)
    }
}

/// The values of each metric, in the order of the metrics.
pub open spec fn values_of_each(pairs: Seq<(Seq<char>, u64)>) -> Seq<(Seq<char>, Seq<u64>)> {
    grouping(keys_of(pairs)).map_values(
        |g: (Seq<char>, Seq<int>)| (g.0, g.1.map_values(|i: int| pairs[i].1)),
    )
}

pub open spec fn is_observed(c: CaseModel) -> bool {
    c.trace_id is Some
}

pub open spec fn is_scored(c: CaseModel) -> bool {
    c.scores.len() > 0
}

/// What signals and the cases in them come to, for the run that they are all
/// of.
pub open spec fn run_of(
    run_id: Seq<char>,
    signals: Seq<SignalModel>,
    cases: Seq<CaseModel>,
) -> RunModel {
    let observed = how_many(cases, |c: CaseModel| is_observed(c));
    let scored = how_many(cases, |c: CaseModel| is_scored(c));
    let failed = how_many(cases, |c: CaseModel| c.status == CaseStatus::Fail);
    let case_count = cases_named(signals);
    let done = if observed < scored {
        scored
    } else {
        observed
    };
    RunModel {
        run_id,
        suite_id: suite_among(cases),
        code_version: version_of(signals),
        status: run_status(case_count, observed, scored, failed),
        case_count,
        observed_cases: observed,
        scored_cases: scored,
        passed_cases: how_many(cases, |c: CaseModel| c.status == CaseStatus::Pass),
        failed_cases: failed,
        pending_cases: match case_count {
            Some(n) => Some(
                if n < done {
                    0
                } else {
                    (n - done) as nat
                },
            ),
            None => None,
        },
        averages: values_of_each(scores_over(cases)),
        started_at: earliest(cases)->0,
        updated_at: latest(cases)->0,
        cases,
    }
}

fn list_values(values: &Vec<u64>, members: &Vec<usize>) -> (r: Vec<u64>)
    requires
        forall|k: int| 0 <= k < members@.len() ==> #[trigger] members@[k] < values@.len(),
    ensures
        r@.len() == members@.len(),
        forall|k: int| 0 <= k < r@.len() ==> #[trigger] r@[k] == values@[members@[k] as int],
{
    let mut out: Vec<u64> = Vec::new();
    let mut i: usize = 0;
    while i < members.len()
        invariant
            i <= members@.len(),
            forall|k: int| 0 <= k < members@.len() ==> #[trigger] members@[k] < values@.len(),
            out@.len() == i,
            forall|k: int| 0 <= k < i ==> #[trigger] out@[k] == values@[members@[k] as int],
        decreases members@.len() - i,
    {
        out.push(values[members[i]]);
        i = i + 1;
    }
    out
}

fn group_values(metrics: &Vec<String>, values: &Vec<u64>, Ghost(pairs): Ghost<
    Seq<(Seq<char>, u64)>,
>) -> (r: Vec<(String, Vec<u64>)>)
    requires
        texts(metrics@) == keys_of(pairs),
        values@.len() == pairs.len(),
        forall|i: int| 0 <= i < pairs.len() ==> (#[trigger] pairs[i]).1 == values@[i],
    ensures
        average_views(r@) == values_of_each(pairs),
{
    assert(texts(metrics@).len() == metrics@.len());
    let groups = group_by(metrics);
    let ghost wanted = values_of_each(pairs);
    let mut out: Vec<(String, Vec<u64>)> = Vec::new();
    let mut g: usize = 0;
    assert(average_views(out@) =~= wanted.take(0));
    while g < groups.len()
        invariant
            g <= groups@.len(),
            values@.len() == pairs.len(),
            metrics@.len() == pairs.len(),
            forall|i: int| 0 <= i < pairs.len() ==> (#[trigger] pairs[i]).1 == values@[i],
            group_views(groups@) == grouping(keys_of(pairs)),
            wanted == values_of_each(pairs),
            forall|g: int, k: int|
                0 <= g < groups@.len() && 0 <= k < groups@[g].members@.len()
                    ==> #[trigger] groups@[g].members@[k] < metrics@.len(),
            average_views(out@) == wanted.take(g as int),
        decreases groups@.len() - g,
    {
        let ghost before = out@;
        let h = &groups[g];
        assert(group_views(groups@)[g as int] == h@);
        assert forall|k: int| 0 <= k < h.members@.len() implies #[trigger] h.members@[k]
            < values@.len() by {
            assert(groups@[g as int].members@[k] < metrics@.len());
        }
        let list = list_values(values, &h.members);
        proof {
            assert forall|k: int| 0 <= k < list@.len() implies list@[k] == pairs[h@.1[k]].1 by {
                assert(h@.1[k] == h.members@[k] as int);
                assert(pairs[h.members@[k] as int].1 == values@[h.members@[k] as int]);
            }
            assert(list@ =~= h@.1.map_values(|i: int| pairs[i].1));
        }
        let pair = (h.key.clone(), list);
        assert((pair.0@, pair.1@) == wanted[g as int]);
        out.push(pair);
        assert(average_views(out@) =~= average_views(before).push((pair.0@, pair.1@)));
        g = g + 1;
        assert(average_views(out@) =~= wanted.take(g as int));
    }
    assert(wanted.take(groups@.len() as int) =~= wanted);
    out
}

fn push_averaged(scores: &Vec<(String, u64)>, metrics: &mut Vec<String>, values: &mut Vec<u64>)
    requires
        old(metrics)@.len() == old(values)@.len(),
    ensures
        final(metrics)@.len() == final(values)@.len(),
        texts(final(metrics)@) == texts(old(metrics)@) + keys_of(averaged(score_pairs(scores@))),
        final(values)@ == old(values)@ + averaged(score_pairs(scores@)).map_values(
            |p: (Seq<char>, u64)| p.1,
        ),
{
    let ghost all = score_pairs(scores@);
    let ghost m0 = texts(metrics@);
    let ghost v0 = values@;
    let mut i: usize = 0;
    proof {
        assert(all.take(0) =~= Seq::<(Seq<char>, u64)>::empty());
        assert(m0 + keys_of(averaged(all.take(0))) =~= m0);
        assert(v0 + averaged(all.take(0)).map_values(|p: (Seq<char>, u64)| p.1) =~= v0);
    }
    while i < scores.len()
        invariant
            i <= scores@.len(),
            all == score_pairs(scores@),
            metrics@.len() == values@.len(),
            texts(metrics@) == m0 + keys_of(averaged(all.take(i as int))),
            values@ == v0 + averaged(all.take(i as int)).map_values(|p: (Seq<char>, u64)| p.1),
        decreases scores@.len() - i,
    {
        let ghost now = all.take(i as int + 1);
        let ghost before = averaged(all.take(i as int));
        assert(now.drop_last() =~= all.take(i as int));
        assert(now.last() == (scores@[i as int].0@, scores@[i as int].1));
        if !same(scores[i].0.as_str(), "cost_usd") {
            let ghost mb = metrics@;
            metrics.push(scores[i].0.clone());
            values.push(scores[i].1);
            proof {
                let p = now.last();
                assert(texts(metrics@) =~= texts(mb).push(p.0));
                assert(averaged(now) == before.push(p));
                assert(keys_of(averaged(now)) =~= keys_of(before).push(p.0));
                assert(texts(metrics@) =~= m0 + keys_of(averaged(now)));
                assert(values@ =~= v0 + averaged(now).map_values(|p: (Seq<char>, u64)| p.1));
            }
        }
        i = i + 1;
    }
    assert(all.take(scores@.len() as int) =~= all);
}

fn copy_opt(v: &Option<String>) -> (r: Option<String>)
    ensures
        opt_text(r) == opt_text(*v),
{
    match v {
        Some(s) => Some(s.clone()),
        None => None,
    }
}

/// Put a run together from the signals at some positions and the cases in them.
fn build_run(
    signals: &Vec<Signal>,
    members: &Vec<usize>,
    run_id: &str,
    cases: Vec<EvalCaseSummary>,
) -> (r: EvalRunSummary)
    requires
        cases@.len() > 0,
        forall|k: int| 0 <= k < members@.len() ==> #[trigger] members@[k] < signals@.len(),
    ensures
        r@ == run_of(
            run_id@,
            picked(signal_views(signals@), as_ints(members@)),
            case_views(cases@),
        ),
{
    let ghost said = picked(signal_views(signals@), as_ints(members@));
    let mut code_version: Option<String> = None;
    let mut case_count: Option<u64> = None;
    let mut i: usize = 0;
    assert(said.take(0) =~= Seq::<SignalModel>::empty());
    while i < members.len()
        invariant
            i <= members@.len(),
            said == picked(signal_views(signals@), as_ints(members@)),
            forall|k: int| 0 <= k < members@.len() ==> #[trigger] members@[k] < signals@.len(),
            opt_text(code_version) == version_of(said.take(i as int)),
            case_count == cases_named(said.take(i as int)),
        decreases members@.len() - i,
    {
        let s = &signals[members[i]];
        proof {
            assert(said.take(i as int + 1).drop_last() =~= said.take(i as int));
            assert(as_ints(members@)[i as int] == members@[i as int] as int);
            assert(said.take(i as int + 1).last() == s@);
        }
        if code_version.is_none() {
            code_version = copy_opt(&s.code_version);
        }
        case_count = match (case_count, s.case_count) {
            (Some(a), Some(b)) => Some(
                if a < b {
                    b
                } else {
                    a
                },
            ),
            (Some(a), None) => Some(a),
            (None, b) => b,
        };
        i = i + 1;
    }
    assert(said.take(members@.len() as int) =~= said);
    let ghost all = case_views(cases@);
    let ghost is_obs = |c: CaseModel| is_observed(c);
    let ghost is_sco = |c: CaseModel| is_scored(c);
    let ghost is_pass = |c: CaseModel| c.status == CaseStatus::Pass;
    let ghost is_fail = |c: CaseModel| c.status == CaseStatus::Fail;
    let mut suite_id: Option<String> = None;
    let mut observed: u64 = 0;
    let mut scored: u64 = 0;
    let mut passed: u64 = 0;
    let mut failed: u64 = 0;
    let mut started: Option<String> = None;
    let mut updated: Option<String> = None;
    let mut metrics: Vec<String> = Vec::new();
    let mut values: Vec<u64> = Vec::new();
    let mut k: usize = 0;
    proof {
        assert(all.take(0) =~= Seq::<CaseModel>::empty());
        assert(texts(metrics@) =~= keys_of(scores_over(all.take(0))));
        assert(values@ =~= scores_over(all.take(0)).map_values(|p: (Seq<char>, u64)| p.1));
    }
    while k < cases.len()
        invariant
            k <= cases@.len(),
            all == case_views(cases@),
            is_obs == (|c: CaseModel| is_observed(c)),
            is_sco == (|c: CaseModel| is_scored(c)),
            is_pass == (|c: CaseModel| c.status == CaseStatus::Pass),
            is_fail == (|c: CaseModel| c.status == CaseStatus::Fail),
            opt_text(suite_id) == suite_among(all.take(k as int)),
            observed <= k && scored <= k && passed <= k && failed <= k,
            observed == how_many(all.take(k as int), is_obs),
            scored == how_many(all.take(k as int), is_sco),
            passed == how_many(all.take(k as int), is_pass),
            failed == how_many(all.take(k as int), is_fail),
            opt_text(started) == earliest(all.take(k as int)),
            opt_text(updated) == latest(all.take(k as int)),
            k > 0 ==> started is Some && updated is Some,
            metrics@.len() == values@.len(),
            texts(metrics@) == keys_of(scores_over(all.take(k as int))),
            values@ == scores_over(all.take(k as int)).map_values(|p: (Seq<char>, u64)| p.1),
        decreases cases@.len() - k,
    {
        let c = &cases[k];
        let ghost now = all.take(k as int + 1);
        let ghost over = scores_over(all.take(k as int));
        proof {
            assert(now.drop_last() =~= all.take(k as int));
            assert(now.last() == c@);
        }
        if suite_id.is_none() {
            suite_id = copy_opt(&c.suite_id);
        }
        if c.trace_id.is_some() {
            observed = observed + 1;
        }
        assert(c@.scores.len() == c.scores@.len());
        if c.scores.len() > 0 {
            scored = scored + 1;
        }
        match c.status {
            CaseStatus::Pass => {
                passed = passed + 1;
            },
            CaseStatus::Fail => {
                failed = failed + 1;
            },
            _ => {},
        }
        started = min_string_time(started, Some(c.started_at.clone()));
        updated = max_string_time(updated, Some(c.updated_at.clone()));
        push_averaged(&c.scores, &mut metrics, &mut values);
        proof {
            assert(scores_over(now) == over + averaged(c@.scores));
            assert(keys_of(scores_over(now)) =~= keys_of(over) + keys_of(averaged(c@.scores)));
            assert(values@ =~= scores_over(now).map_values(|p: (Seq<char>, u64)| p.1));
        }
        k = k + 1;
    }
    assert(all.take(cases@.len() as int) =~= all);
    let ghost pairs = scores_over(all);
    assert forall|i: int| 0 <= i < pairs.len() implies (#[trigger] pairs[i]).1 == values@[i] by {
        assert(values@[i] == pairs.map_values(|p: (Seq<char>, u64)| p.1)[i]);
    }
    let averages = group_values(&metrics, &values, Ghost(pairs));
    let done: u64 = if observed < scored {
        scored
    } else {
        observed
    };
    let pending_cases: Option<u64> = match case_count {
        Some(n) => Some(
            if n < done {
                0
            } else {
                n - done
            },
        ),
        None => None,
    };
    let started_at = match started {
        Some(t) => t,
        None => String::new(),
    };
    let updated_at = match updated {
        Some(t) => t,
        None => String::new(),
    };
    EvalRunSummary {
        run_id: run_id.to_owned(),
        suite_id,
        code_version,
        status: infer_run_status(case_count, observed, scored, failed),
        case_count,
        observed_cases: observed,
        scored_cases: scored,
        passed_cases: passed,
        failed_cases: failed,
        pending_cases,
        averages,
        started_at,
        updated_at,
        cases,
    }
}

// ── Snapshots ───────────────────────────────────────────────────────

pub open spec fn run_ids(signals: Seq<SignalModel>) -> Seq<Seq<char>> {
    signals.map_values(|s: SignalModel| s.run_id)
}

pub open spec fn case_ids(signals: Seq<SignalModel>) -> Seq<Seq<char>> {
    signals.map_values(|s: SignalModel| s.case_id)
}

/// The cases of a run, in order, given the positions of its signals.
pub open spec fn cases_of(signals: Seq<SignalModel>, run_id: Seq<char>, members: Seq<int>) -> Seq<
    CaseModel,
> {
    regrouped(case_ids(signals), members).map_values(
        |h: (Seq<char>, Seq<int>)| case_of(run_id, h.0, picked(signals, h.1)),
    )
}

/// The runs that signals show, in order, each with its cases.
pub open spec fn runs_of(signals: Seq<SignalModel>) -> Seq<RunModel> {
    grouping(run_ids(signals)).map_values(
        |g: (Seq<char>, Seq<int>)|
            run_of(g.0, picked(signals, g.1), cases_of(signals, g.0, g.1)),
    )
}

fn list_ids(signals: &Vec<Signal>) -> (r: (Vec<String>, Vec<String>))
    ensures
        texts(r.0@) == run_ids(signal_views(signals@)),
        texts(r.1@) == case_ids(signal_views(signals@)),
        r.0@.len() == signals@.len(),
        r.1@.len() == signals@.len(),
{
    let ghost all = signal_views(signals@);
    let mut runs: Vec<String> = Vec::new();
    let mut cases: Vec<String> = Vec::new();
    let mut i: usize = 0;
    while i < signals.len()
        invariant
            i <= signals@.len(),
            all == signal_views(signals@),
            runs@.len() == i,
            cases@.len() == i,
            texts(runs@) == run_ids(all).take(i as int),
            texts(cases@) == case_ids(all).take(i as int),
        decreases signals@.len() - i,
    {
        let ghost r0 = runs@;
        let ghost c0 = cases@;
        assert(all[i as int] == signals@[i as int]@);
        runs.push(signals[i].run_id.clone());
        cases.push(signals[i].case_id.clone());
        assert(texts(runs@) =~= texts(r0).push(signals@[i as int].run_id@));
        assert(texts(cases@) =~= texts(c0).push(signals@[i as int].case_id@));
        i = i + 1;
        assert(texts(runs@) =~= run_ids(all).take(i as int));
        assert(texts(cases@) =~= case_ids(all).take(i as int));
    }
    assert(run_ids(all).take(signals@.len() as int) =~= run_ids(all));
    assert(case_ids(all).take(signals@.len() as int) =~= case_ids(all));
    (runs, cases)
}

fn build_cases(signals: &Vec<Signal>, ids: &Vec<String>, run: &Group) -> (r: Vec<EvalCaseSummary>)
    requires
        texts(ids@) == case_ids(signal_views(signals@)),
        ids@.len() == signals@.len(),
        run.members@.len() > 0,
        forall|k: int| 0 <= k < run.members@.len() ==> #[trigger] run.members@[k] < signals@.len(),
    ensures
        case_views(r@) == cases_of(signal_views(signals@), run.key@, as_ints(run.members@)),
        r@.len() > 0,
{
    let ghost all = signal_views(signals@);
    let groups = regroup(ids, &run.members);
    let ghost mems = as_ints(run.members@);
    assert(mems =~= run.members@.map_values(|i: usize| i as int));
    let ghost wanted = cases_of(all, run.key@, mems);
    let mut out: Vec<EvalCaseSummary> = Vec::new();
    let mut g: usize = 0;
    assert(case_views(out@) =~= wanted.take(0));
    while g < groups.len()
        invariant
            g <= groups@.len(),
            all == signal_views(signals@),
            ids@.len() == signals@.len(),
            group_views(groups@) == regrouped(case_ids(all), mems),
            wanted == cases_of(all, run.key@, mems),
            crate::grouping::members_below(groups@, ids@.len()),
            forall|g: int| 0 <= g < groups@.len() ==> (#[trigger] groups@[g]).members@.len() > 0,
            out@.len() == g,
            case_views(out@) == wanted.take(g as int),
        decreases groups@.len() - g,
    {
        let ghost before = out@;
        let h = &groups[g];
        assert(group_views(groups@)[g as int] == h@);
        assert forall|k: int| 0 <= k < h.members@.len() implies #[trigger] h.members@[k]
            < signals@.len() by {
            assert(groups@[g as int].members@[k] < ids@.len());
        }
        let case = build_case(signals, &h.members, run.key.as_str(), h.key.as_str());
        assert(as_ints(h.members@) =~= h@.1);
        assert(case@ == wanted[g as int]);
        out.push(case);
        assert(case_views(out@) =~= case_views(before).push(case@));
        g = g + 1;
        assert(case_views(out@) =~= wanted.take(g as int));
    }
    assert(wanted.take(groups@.len() as int) =~= wanted);
    proof {
        let keys = picked(case_ids(all), mems);
        crate::grouping::grouping_exists(keys);
        assert(keys[0] == keys[0]);
        let found = choose|x: int|
            0 <= x < grouping(keys).len() && (#[trigger] grouping(keys)[x]).0 == keys[0];
        assert(regrouped(case_ids(all), mems).len() == grouping(keys).len());
    }
    out
}

pub open spec fn run_views(v: Seq<EvalRunSummary>) -> Seq<RunModel> {
    v.map_values(|r: EvalRunSummary| r@)
}

/// Derive the runs, their cases and their scores from what was recorded.
pub fn build_eval_snapshot(signals: &Vec<Signal>) -> (r: Vec<EvalRunSummary>)
    ensures
        run_views(r@) == runs_of(signal_views(signals@)),
{
    let ghost all = signal_views(signals@);
    let (runs, cases) = list_ids(signals);
    let groups = group_by(&runs);
    let ghost wanted = runs_of(all);
    let mut out: Vec<EvalRunSummary> = Vec::new();
    let mut g: usize = 0;
    assert(run_views(out@) =~= wanted.take(0));
    while g < groups.len()
        invariant
            g <= groups@.len(),
            all == signal_views(signals@),
            texts(cases@) == case_ids(all),
            cases@.len() == signals@.len(),
            runs@.len() == signals@.len(),
            group_views(groups@) == grouping(run_ids(all)),
            wanted == runs_of(all),
            forall|g: int, k: int|
                0 <= g < groups@.len() && 0 <= k < groups@[g].members@.len()
                    ==> #[trigger] groups@[g].members@[k] < runs@.len(),
            forall|g: int| 0 <= g < groups@.len() ==> (#[trigger] groups@[g]).members@.len() > 0,
            run_views(out@) == wanted.take(g as int),
        decreases groups@.len() - g,
    {
        let ghost before = out@;
        let h = &groups[g];
        assert(group_views(groups@)[g as int] == h@);
        assert forall|k: int| 0 <= k < h.members@.len() implies #[trigger] h.members@[k]
            < signals@.len() by {
            assert(groups@[g as int].members@[k] < runs@.len());
        }
        let of_run = build_cases(signals, &cases, h);
        assert(as_ints(h.members@) =~= h@.1);
        let run = build_run(signals, &h.members, h.key.as_str(), of_run);
        assert(run@ == wanted[g as int]);
        out.push(run);
        assert(run_views(out@) =~= run_views(before).push(run@));
        g = g + 1;
        assert(run_views(out@) =~= wanted.take(g as int));
    }
    assert(wanted.take(groups@.len() as int) =~= wanted);
    out
}

/// The order in which runs are listed: the most lately updated first, and runs
/// that were updated at the same time by name.
pub fn list_order(runs: &Vec<EvalRunSummary>) -> (r: Vec<usize>)
    ensures
        exists|keys: Seq<String>|
            texts(keys) == run_views(runs@).map_values(|x: RunModel| x.updated_at) && as_ints(
                r@,
            ) == #[trigger] ranking(keys),
{
    let ghost wanted = run_views(runs@).map_values(|x: RunModel| x.updated_at);
    let mut keys: Vec<String> = Vec::new();
    let mut i: usize = 0;
    while i < runs.len()
        invariant
            i <= runs@.len(),
            wanted == run_views(runs@).map_values(|x: RunModel| x.updated_at),
            texts(keys@) == wanted.take(i as int),
        decreases runs@.len() - i,
    {
        let ghost before = keys@;
        let k = runs[i].updated_at.clone();
        assert(k@ == wanted[i as int]);
        keys.push(k);
        assert(texts(keys@) =~= texts(before).push(k@));
        i = i + 1;
        assert(texts(keys@) =~= wanted.take(i as int));
    }
    assert(wanted.take(runs@.len() as int) =~= wanted);
    let r = rank(&keys);
    assert(as_ints(r@) == ranking(keys@));
    r
}

// ── Laws ────────────────────────────────────────────────────────────

/// The counts of a run add up: no case both passes and fails, none is counted
/// twice, and what is pending is what is neither observed nor scored yet.
pub proof fn case_counts_add_up(
    run_id: Seq<char>,
    signals: Seq<SignalModel>,
    cases: Seq<CaseModel>,
)
    ensures
        ({
            let run = run_of(run_id, signals, cases);
            &&& run.passed_cases + run.failed_cases <= cases.len()
            &&& run.observed_cases <= cases.len()
            &&& run.scored_cases <= cases.len()
            &&& run.case_count matches Some(n) ==> (run.pending_cases matches Some(p) && p <= n
                && p + run.observed_cases <= if run.observed_cases < n {
                n as nat
            } else {
                run.observed_cases
            })
        }),
{
    disjoint_counts(
        cases,
        |c: CaseModel| c.status == CaseStatus::Pass,
        |c: CaseModel| c.status == CaseStatus::Fail,
    );
    counted_at_most(cases, |c: CaseModel| is_observed(c));
    counted_at_most(cases, |c: CaseModel| is_scored(c));
}

proof fn counted_at_most(cases: Seq<CaseModel>, p: spec_fn(CaseModel) -> bool)
    ensures
        how_many(cases, p) <= cases.len(),
    decreases cases.len(),
{
    if cases.len() > 0 {
        counted_at_most(cases.drop_last(), p);
    }
}

proof fn disjoint_counts(
    cases: Seq<CaseModel>,
    p: spec_fn(CaseModel) -> bool,
    q: spec_fn(CaseModel) -> bool,
)
    requires
        forall|c: CaseModel| !(#[trigger] p(c) && #[trigger] q(c)),
    ensures
        how_many(cases, p) + how_many(cases, q) <= cases.len(),
    decreases cases.len(),
{
    if cases.len() > 0 {
        disjoint_counts(cases.drop_last(), p, q);
    }
}

/// A failed span or a failing label fails a case, and else a passing label passes
/// it. Where neither decides, the `pass` score does, or else `correctness`: the
/// case passes at one and above, and fails below. A case without either is running
/// once a span of it was seen, and pending before.
pub proof fn scores_decide_at_one(
    span_failed: bool,
    labels: Seq<(Seq<char>, Seq<char>)>,
    scores: Seq<(Seq<char>, u64)>,
    observed: bool,
    i: int,
)
    ensures
        span_failed ==> case_status(span_failed, labels, scores, observed).text() == "fail"@,
        0 <= i < labels.len() && (labels[i].1 == "fail"@ || labels[i].1 == "failed"@ || labels[i].1
            == "error"@) ==> case_status(span_failed, labels, scores, observed).text() == "fail"@,
        0 <= i < labels.len() && (labels[i].1 == "pass"@ || labels[i].1 == "passed"@ || labels[i].1
            == "ok"@) && !span_failed && (forall|k: int|
            0 <= k < labels.len() ==> !is_failing((#[trigger] labels[k]).1)) ==> case_status(
            span_failed,
            labels,
            scores,
            observed,
        ).text() == "pass"@,
        !span_failed && no_label_decides(labels) ==> {
            let status = case_status(span_failed, labels, scores, observed).text();
            &&& only_score(scores, "pass"@, i) ==> status == if is_at_least(
                scores[i].1,
                0x3ff0_0000_0000_0000,
            ) {
                "pass"@
            } else {
                "fail"@
            }
            &&& no_score(scores, "pass"@) && only_score(scores, "correctness"@, i) ==> status == if is_at_least(
                scores[i].1,
                0x3ff0_0000_0000_0000,
            ) {
                "pass"@
            } else {
                "fail"@
            }
            &&& no_score(scores, "pass"@) && no_score(scores, "correctness"@) ==> status == if observed {
                "running"@
            } else {
                "pending"@
            }
        },
{
    if only_score(scores, "pass"@, i) {
        the_only_score(scores, "pass"@, i);
    }
    if only_score(scores, "correctness"@, i) {
        the_only_score(scores, "correctness"@, i);
    }
    if no_score(scores, "pass"@) {
        not_among_scores(scores, "pass"@);
    }
    if no_score(scores, "correctness"@) {
        not_among_scores(scores, "correctness"@);
    }
    if !span_failed && no_label_decides(labels) {
        assert forall|k: int| 0 <= k < labels.len() implies !is_failing((#[trigger] labels[k]).1)
            && !is_passing(labels[k].1) by {}
    }
}

/// Whether no label says how a case went.
pub open spec fn no_label_decides(labels: Seq<(Seq<char>, Seq<char>)>) -> bool {
    forall|k: int|
        0 <= k < labels.len() ==> {
            let l = (#[trigger] labels[k]).1;
            l != "fail"@ && l != "failed"@ && l != "error"@ && l != "pass"@ && l != "passed"@ && l
                != "ok"@
        }
}

/// Whether the `i`th score is the one of a name.
pub open spec fn only_score(scores: Seq<(Seq<char>, u64)>, name: Seq<char>, i: int) -> bool {
    &&& 0 <= i < scores.len()
    &&& scores[i].0 == name
    &&& forall|k: int| 0 <= k < scores.len() && k != i ==> (#[trigger] scores[k]).0 != name
}

pub open spec fn no_score(scores: Seq<(Seq<char>, u64)>, name: Seq<char>) -> bool {
    forall|k: int| 0 <= k < scores.len() ==> (#[trigger] scores[k]).0 != name
}

proof fn the_only_score(scores: Seq<(Seq<char>, u64)>, name: Seq<char>, i: int)
    requires
        only_score(scores, name, i),
    ensures
        value_under(scores, name) == Some(scores[i].1),
    decreases scores.len(),
{
    if i < scores.len() - 1 {
        let init = scores.drop_last();
        assert(scores[scores.len() - 1].0 != name);
        assert(init[i] == scores[i]);
        assert forall|k: int| 0 <= k < init.len() && k != i implies (#[trigger] init[k]).0 != name by {
            assert(init[k] == scores[k]);
        }
        the_only_score(init, name, i);
    }
}

proof fn not_among_scores(scores: Seq<(Seq<char>, u64)>, name: Seq<char>)
    requires
        no_score(scores, name),
    ensures
        value_under(scores, name) is None,
    decreases scores.len(),
{
    if scores.len() > 0 {
        let init = scores.drop_last();
        assert(scores[scores.len() - 1].0 != name);
        assert forall|k: int| 0 <= k < init.len() implies (#[trigger] init[k]).0 != name by {
            assert(init[k] == scores[k]);
        }
        not_among_scores(init, name);
    }
}

/// Raising a score never turns a pass into a fail.
pub proof fn better_scores_do_not_fail(
    span_failed: bool,
    labels: Seq<(Seq<char>, Seq<char>)>,
    scores: Seq<(Seq<char>, u64)>,
    observed: bool,
    i: int,
    better: u64,
)
    requires
        0 <= i < scores.len(),
        is_at_least(better, scores[i].1),
        case_status(span_failed, labels, scores, observed) == CaseStatus::Pass,
    ensures
        case_status(
            span_failed,
            labels,
            scores.update(i, (scores[i].0, better)),
            observed,
        ) == CaseStatus::Pass,
{
    raised_score(scores, "pass"@, i, better);
    raised_score(scores, "correctness"@, i, better);
}

proof fn raised_score(scores: Seq<(Seq<char>, u64)>, name: Seq<char>, i: int, better: u64)
    requires
        0 <= i < scores.len(),
        is_at_least(better, scores[i].1),
    ensures
        match value_under(scores, name) {
            None => value_under(scores.update(i, (scores[i].0, better)), name) is None,
            Some(v) => value_under(
                scores.update(i, (scores[i].0, better)),
                name,
            ) matches Some(w) && (w == v || (v == scores[i].1 && w == better)),
        },
    decreases scores.len(),
{
    let more = scores.update(i, (scores[i].0, better));
    let init = scores.drop_last();
    if i < init.len() {
        assert(more.drop_last() =~= init.update(i, (init[i].0, better)));
        raised_score(init, name, i, better);
    } else {
        assert(more.drop_last() =~= init);
    }
}

/// A case shows a failed span as failed, whatever its scores say.
pub proof fn a_failed_span_fails_its_case(
    run_id: Seq<char>,
    case_id: Seq<char>,
    signals: Seq<SignalModel>,
    i: int,
)
    ensures
        case_of(run_id, case_id, signals).run_id == run_id,
        case_of(run_id, case_id, signals).case_id == case_id,
        0 <= i < signals.len() && signals[i].failed ==> case_of(run_id, case_id, signals).status
            == CaseStatus::Fail,
{
}

/// The trace, the suite and the version of a case or run are the first that any
/// of its signals names.
pub proof fn the_first_named_is_shown(signals: Seq<SignalModel>, i: int)
    requires
        0 <= i < signals.len(),
    ensures
        signals[i].trace_id is Some && (forall|k: int|
            0 <= k < i ==> (#[trigger] signals[k]).trace_id is None) ==> first_trace(signals)
            == signals[i].trace_id,
        signals[i].suite_id is Some && (forall|k: int|
            0 <= k < i ==> (#[trigger] signals[k]).suite_id is None) ==> first_suite(signals)
            == signals[i].suite_id,
        signals[i].code_version is Some && (forall|k: int|
            0 <= k < i ==> (#[trigger] signals[k]).code_version is None) ==> version_of(signals)
            == signals[i].code_version,
        signals[i].trace_id is Some ==> first_trace(signals) is Some,
        (forall|k: int| 0 <= k < signals.len() ==> (#[trigger] signals[k]).trace_id is None)
            ==> first_trace(signals) is None,
    decreases signals.len(),
{
    let init = signals.drop_last();
    none_is_shown(init);
    assert forall|k: int| 0 <= k < init.len() implies init[k] == #[trigger] signals[k] by {}
    assert(signals[signals.len() - 1] == signals.last());
    if i < init.len() {
        the_first_named_is_shown(init, i);
    }
    if forall|k: int| 0 <= k < i ==> (#[trigger] signals[k]).trace_id is None {
        assert forall|k: int| 0 <= k < i implies (#[trigger] init[k]).trace_id is None by {
            assert(init[k] == signals[k]);
        }
    }
    if forall|k: int| 0 <= k < i ==> (#[trigger] signals[k]).suite_id is None {
        assert forall|k: int| 0 <= k < i implies (#[trigger] init[k]).suite_id is None by {
            assert(init[k] == signals[k]);
        }
    }
    if forall|k: int| 0 <= k < i ==> (#[trigger] signals[k]).code_version is None {
        assert forall|k: int| 0 <= k < i implies (#[trigger] init[k]).code_version is None by {
            assert(init[k] == signals[k]);
        }
    }
    none_is_shown(signals);
}

proof fn none_is_shown(signals: Seq<SignalModel>)
    ensures
        (forall|k: int| 0 <= k < signals.len() ==> (#[trigger] signals[k]).trace_id is None)
            ==> first_trace(signals) is None,
        (forall|k: int| 0 <= k < signals.len() ==> (#[trigger] signals[k]).suite_id is None)
            ==> first_suite(signals) is None,
        (forall|k: int| 0 <= k < signals.len() ==> (#[trigger] signals[k]).code_version is None)
            ==> version_of(signals) is None,
    decreases signals.len(),
{
    if signals.len() > 0 {
        let init = signals.drop_last();
        none_is_shown(init);
        assert forall|k: int| 0 <= k < init.len() implies init[k] == #[trigger] signals[k] by {}
        assert(signals[signals.len() - 1] == signals.last());
    }
}

/// A case began no later than any of its spans and was updated no earlier than
/// anything of it ended, and both at an instant that one of its signals names.
pub proof fn cases_span_their_signals(signals: Seq<SignalModel>)
    requires
        signals.len() > 0,
    ensures
        start_of(signals) matches Some(t) && (exists|i: int|
            0 <= i < signals.len() && (#[trigger] signals[i]).from == t),
        end_of(signals) matches Some(t) && (exists|i: int|
            0 <= i < signals.len() && (#[trigger] signals[i]).until == t),
        forall|i: int|
            0 <= i < signals.len() && (#[trigger] signals[i]).metric is None ==> !text_less(
                signals[i].from,
                start_of(signals)->0,
            ),
        forall|i: int|
            0 <= i < signals.len() ==> !text_less(
                end_of(signals)->0,
                (#[trigger] signals[i]).until,
            ),
    decreases signals.len(),
{
    let init = signals.drop_last();
    let last = signals.last();
    assert(signals[signals.len() - 1] == last);
    if init.len() > 0 {
        cases_span_their_signals(init);
        let (s, e) = (start_of(init)->0, end_of(init)->0);
        let (i, j) = (
            choose|i: int| 0 <= i < init.len() && (#[trigger] init[i]).from == s,
            choose|j: int| 0 <= j < init.len() && (#[trigger] init[j]).until == e,
        );
        assert(signals[i] == init[i] && signals[j] == init[j]);
        crate::text::text_less_irreflexive(last.from);
        crate::text::text_less_irreflexive(last.until);
        let (s2, e2) = (start_of(signals)->0, end_of(signals)->0);
        assert forall|i: int|
            0 <= i < signals.len() && (#[trigger] signals[i]).metric is None implies !text_less(
            signals[i].from,
            s2,
        ) by {
            if i < init.len() {
                assert(init[i] == signals[i]);
                if text_less(signals[i].from, s2) && text_less(last.from, s) {
                    crate::text::text_less_transitive(signals[i].from, last.from, s);
                }
            } else if text_less(last.from, s2) {
                crate::text::text_less_total(last.from, s);
            }
        }
        assert forall|i: int| 0 <= i < signals.len() implies !text_less(
            e2,
            (#[trigger] signals[i]).until,
        ) by {
            if i < init.len() {
                assert(init[i] == signals[i]);
                if text_less(e2, signals[i].until) {
                    crate::text::text_less_total(last.until, e);
                    if e != last.until && !text_less(last.until, e) {
                        crate::text::text_less_transitive(e, last.until, signals[i].until);
                    }
                }
            } else if text_less(e2, last.until) && text_less(last.until, e) {
                crate::text::text_less_transitive(e, last.until, e);
                crate::text::text_less_irreflexive(e);
            }
        }
    } else {
        crate::text::text_less_irreflexive(last.from);
        crate::text::text_less_irreflexive(last.until);
    }
}

/// A case takes as long as the longest of its spans.
pub proof fn cases_take_as_long_as_their_longest_span(signals: Seq<SignalModel>)
    requires
        forall|i: int|
            0 <= i < signals.len() ==> ((#[trigger] signals[i]).duration matches Some(d)
                ==> !crate::doubles::is_nan_bits(d)),
    ensures
        longest(signals) is Some <==> exists|i: int|
            0 <= i < signals.len() && (#[trigger] signals[i]).duration is Some,
        longest(signals) matches Some(d) ==> !crate::doubles::is_nan_bits(d) && (exists|i: int|
            0 <= i < signals.len() && (#[trigger] signals[i]).duration == Some(d)) && (forall|i: int|
            0 <= i < signals.len() ==> ((#[trigger] signals[i]).duration matches Some(e)
                ==> is_at_least(d, e))),
    decreases signals.len(),
{
    if signals.len() > 0 {
        let init = signals.drop_last();
        assert forall|i: int| 0 <= i < init.len() implies ((
        #[trigger] init[i]).duration matches Some(d) ==> !crate::doubles::is_nan_bits(d)) by {
            assert(init[i] == signals[i]);
        }
        cases_take_as_long_as_their_longest_span(init);
        assert(signals[signals.len() - 1] == signals.last());
        if let Some(d) = longest(init) {
            let i = choose|i: int| 0 <= i < init.len() && (#[trigger] init[i]).duration == Some(d);
            assert(signals[i] == init[i]);
        }
        if exists|i: int| 0 <= i < signals.len() && (#[trigger] signals[i]).duration is Some {
            let i = choose|i: int| 0 <= i < signals.len() && (#[trigger] signals[i]).duration is Some;
            if i < init.len() {
                assert(init[i].duration is Some);
            }
        }
        if let Some(d) = longest(signals) {
            assert forall|i: int| 0 <= i < signals.len() implies ((
            #[trigger] signals[i]).duration matches Some(e) ==> is_at_least(d, e)) by {
                if i < init.len() {
                    assert(init[i] == signals[i]);
                }
            }
        }
    }
}

/// The costs of a case are the values of its `cost_usd` scores, in order; its
/// scores and labels are those of its other signals that carry a metric.
pub proof fn cases_gather_their_scores(signals: Seq<SignalModel>)
    ensures
        costs_of(signals) == signals.filter(
            |s: SignalModel| s.metric == Some("cost_usd"@),
        ).map_values(|s: SignalModel| s.value),
        scores_among(signals) == signals.filter(|s: SignalModel| s.metric is Some).map_values(
            |s: SignalModel| (s.metric->0, s.value),
        ),
        labels_among(signals) == signals.filter(
            |s: SignalModel| s.metric is Some && s.label is Some,
        ).map_values(|s: SignalModel| (s.metric->0, s.label->0)),
    decreases signals.len(),
{
    reveal(Seq::filter);
    if signals.len() > 0 {
        cases_gather_their_scores(signals.drop_last());
    }
    assert(costs_of(signals) =~= signals.filter(
        |s: SignalModel| s.metric == Some("cost_usd"@),
    ).map_values(|s: SignalModel| s.value));
    assert(scores_among(signals) =~= signals.filter(
        |s: SignalModel| s.metric is Some,
    ).map_values(|s: SignalModel| (s.metric->0, s.value)));
    assert(labels_among(signals) =~= signals.filter(
        |s: SignalModel| s.metric is Some && s.label is Some,
    ).map_values(|s: SignalModel| (s.metric->0, s.label->0)));
}

/// Of several scores of one metric the last counts, and each metric is shown
/// once, in order.
pub proof fn the_last_of_each_counts<V>(pairs: Seq<(Seq<char>, V)>, i: int, a: int, b: int)
    ensures
        0 <= i < pairs.len() && (forall|k: int|
            i < k < pairs.len() ==> (#[trigger] pairs[k]).0 != pairs[i].0) ==> last_of_each(
            pairs,
        ).contains(pairs[i]),
        0 <= a < b < last_of_each(pairs).len() ==> text_less(
            last_of_each(pairs)[a].0,
            last_of_each(pairs)[b].0,
        ),
        0 <= a < last_of_each(pairs).len() ==> exists|k: int|
            0 <= k < pairs.len() && #[trigger] pairs[k] == last_of_each(pairs)[a],
{
    let keys = keys_of(pairs);
    let groups = grouping(keys);
    if 0 <= a < b < groups.len() {
        crate::grouping::groups_gather_their_key(keys, a, b, 0);
    }
    if 0 <= a < groups.len() {
        let at = groups[a].1.last();
        crate::grouping::groups_gather_their_key(keys, a, a, at);
        assert(groups[a].1.contains(at));
        assert(pairs[at] == last_of_each(pairs)[a]);
    }
    if 0 <= i < pairs.len() && (forall|k: int|
        i < k < pairs.len() ==> (#[trigger] pairs[k]).0 != pairs[i].0) {
        crate::grouping::grouping_exists(keys);
        assert(keys[i] == pairs[i].0);
        let n = choose|n: int| 0 <= n < groups.len() && (#[trigger] groups[n]).0 == keys[i];
        let members = groups[n].1;
        let at = members.last();
        crate::grouping::groups_gather_their_key(keys, n, n, i);
        crate::grouping::groups_gather_their_key(keys, n, n, at);
        assert(members.contains(at));
        let k = choose|k: int| 0 <= k < members.len() && members[k] == i;
        if k < members.len() - 1 {
            assert(members[k] < members[members.len() - 1]);
            assert(keys[at] == pairs[at].0);
        }
        assert(at == i);
        assert(last_of_each(pairs)[n] == pairs[i]);
    }
}

/// A run counts its cases: those that passed, those that failed, those of which a
/// span or a score was seen. What is pending is what neither was seen of.
pub proof fn runs_count_their_cases(
    run_id: Seq<char>,
    signals: Seq<SignalModel>,
    cases: Seq<CaseModel>,
)
    ensures
        ({
            let run = run_of(run_id, signals, cases);
            &&& run.run_id == run_id
            &&& run.cases == cases
            &&& run.passed_cases == cases.filter(
                |c: CaseModel| c.status == CaseStatus::Pass,
            ).len()
            &&& run.failed_cases == cases.filter(
                |c: CaseModel| c.status == CaseStatus::Fail,
            ).len()
            &&& run.observed_cases == cases.filter(|c: CaseModel| c.trace_id is Some).len()
            &&& run.scored_cases == cases.filter(|c: CaseModel| c.scores.len() > 0).len()
            &&& run.case_count matches Some(n) ==> (n >= run.observed_cases && n
                >= run.scored_cases ==> (run.pending_cases matches Some(p) && (p
                + run.observed_cases == n || p + run.scored_cases == n) && p + run.observed_cases
                <= n && p + run.scored_cases <= n))
            &&& run.status == RunStatus::Failed <==> run.failed_cases > 0
            &&& run.status == RunStatus::Complete <==> run.failed_cases == 0 && (
            run.case_count matches Some(n) && 0 < n && (run.observed_cases >= n
                || run.scored_cases >= n))
            &&& run.status == RunStatus::Unknown ==> run.observed_cases == 0 && run.scored_cases
                == 0
            &&& run.status == RunStatus::Running ==> run.observed_cases > 0 || run.scored_cases > 0
        }),
{
    counts_are_filters(
        cases,
        |c: CaseModel| c.status == CaseStatus::Pass,
        |c: CaseModel| c.status == CaseStatus::Pass,
    );
    counts_are_filters(
        cases,
        |c: CaseModel| c.status == CaseStatus::Fail,
        |c: CaseModel| c.status == CaseStatus::Fail,
    );
    counts_are_filters(
        cases,
        |c: CaseModel| is_observed(c),
        |c: CaseModel| c.trace_id is Some,
    );
    counts_are_filters(cases, |c: CaseModel| is_scored(c), |c: CaseModel| c.scores.len() > 0);
}

proof fn counts_are_filters(
    cases: Seq<CaseModel>,
    p: spec_fn(CaseModel) -> bool,
    q: spec_fn(CaseModel) -> bool,
)
    requires
        forall|c: CaseModel| #[trigger] p(c) == q(c),
    ensures
        how_many(cases, p) == cases.filter(q).len(),
    decreases cases.len(),
{
    reveal(Seq::filter);
    if cases.len() > 0 {
        counts_are_filters(cases.drop_last(), p, q);
        assert(p(cases.last()) == q(cases.last()));
    }
}

/// A run says how many cases it has by the largest number that any of its spans
/// names.
pub proof fn the_largest_case_count_is_taken(signals: Seq<SignalModel>, i: int)
    ensures
        0 <= i < signals.len() && signals[i].case_count is Some ==> (cases_named(
            signals,
        ) matches Some(n) && signals[i].case_count->0 <= n),
        cases_named(signals) matches Some(n) ==> exists|k: int|
            0 <= k < signals.len() && (#[trigger] signals[k]).case_count == Some(n),
    decreases signals.len(),
{
    if signals.len() > 0 {
        let init = signals.drop_last();
        the_largest_case_count_is_taken(init, i);
        assert(signals[signals.len() - 1] == signals.last());
        if let Some(n) = cases_named(init) {
            let k = choose|k: int| 0 <= k < init.len() && (#[trigger] init[k]).case_count == Some(n);
            assert(signals[k] == init[k]);
        }
        if 0 <= i < init.len() {
            assert(init[i] == signals[i]);
        }
    }
}

/// What is averaged over a run is every score of its cases but the cost, grouped
/// by metric, each with its values in the order of the cases.
pub proof fn averages_leave_out_the_cost(cases: Seq<CaseModel>, c: int, k: int)
    ensures
        0 <= c < cases.len() && 0 <= k < cases[c].scores.len() && cases[c].scores[k].0
            != "cost_usd"@ ==> scores_over(cases).contains(cases[c].scores[k]),
        forall|i: int|
            0 <= i < scores_over(cases).len() ==> (#[trigger] scores_over(cases)[i]).0
                != "cost_usd"@,
    decreases cases.len(),
{
    if cases.len() > 0 {
        let init = cases.drop_last();
        averages_leave_out_the_cost(init, c, k);
        let (head, tail) = (scores_over(init), averaged(cases.last().scores));
        costs_are_left_out(cases.last().scores, k);
        if 0 <= c < cases.len() && 0 <= k < cases[c].scores.len() && cases[c].scores[k].0
            != "cost_usd"@ {
            let score = cases[c].scores[k];
            if c < init.len() {
                assert(init[c] == cases[c]);
                let i = choose|i: int| 0 <= i < head.len() && head[i] == score;
                assert((head + tail)[i] == score);
            } else {
                let i = choose|i: int| 0 <= i < tail.len() && tail[i] == score;
                assert((head + tail)[head.len() + i] == score);
            }
        }
    }
}

proof fn costs_are_left_out(scores: Seq<(Seq<char>, u64)>, k: int)
    ensures
        0 <= k < scores.len() && scores[k].0 != "cost_usd"@ ==> averaged(scores).contains(scores[k]),
        forall|i: int|
            0 <= i < averaged(scores).len() ==> (#[trigger] averaged(scores)[i]).0 != "cost_usd"@,
    decreases scores.len(),
{
    if scores.len() > 0 {
        let init = scores.drop_last();
        let before = averaged(init);
        costs_are_left_out(init, k);
        if 0 <= k < init.len() && scores[k].0 != "cost_usd"@ {
            assert(init[k] == scores[k]);
            let i = choose|i: int| 0 <= i < before.len() && before[i] == scores[k];
            assert(averaged(scores)[i] == scores[k]);
        } else if k == init.len() && scores[k].0 != "cost_usd"@ {
            assert(averaged(scores)[before.len() as int] == scores[k]);
        }
    }
}

/// A span is a signal of a run exactly when it names a run and a case, and tells
/// what it carries under those names, when it ran, how long, and whether it failed.
pub proof fn spans_tell_of_their_case(s: Span, duration: u64)
    ensures
        ({
            let a = s.attributes@;
            &&& span_signal(s, duration) is Some <==> a.dom().contains("tael.eval.run_id"@)
                && a.dom().contains("tael.eval.case_id"@)
            &&& span_signal(s, duration) matches Some(g) ==> {
                &&& g.run_id == a["tael.eval.run_id"@]
                &&& g.case_id == a["tael.eval.case_id"@]
                &&& g.suite_id is Some <==> a.dom().contains("tael.eval.suite_id"@)
                &&& g.suite_id matches Some(t) ==> t == a["tael.eval.suite_id"@]
                &&& g.code_version is Some <==> a.dom().contains("tael.eval.code_version"@)
                &&& g.code_version matches Some(t) ==> t == a["tael.eval.code_version"@]
                &&& g.trace_id == Some(s.trace_id@)
                &&& g.from == instant_text(s.start_time@)
                &&& g.until == instant_text(s.end_time@)
                &&& g.duration == Some(duration)
                &&& g.failed <==> s.status == SpanStatus::Error
                &&& g.metric is None
                &&& forall|n: nat|
                    n <= u64::MAX && a.dom().contains("tael.eval.case_count"@)
                        && a["tael.eval.case_count"@] == #[trigger] crate::text::decimal(n)
                        ==> g.case_count == Some(n as u64)
            }
        }),
{
    assert forall|n: nat|
        n <= u64::MAX && s.attributes@.dom().contains("tael.eval.case_count"@)
            && s.attributes@["tael.eval.case_count"@] == #[trigger] crate::text::decimal(
            n,
        ) implies count_of(Some(crate::text::decimal(n))) == Some(n as u64) by {
        crate::text::decimal_reads_back(n);
        assert(crate::text::decimal(n)[0] != '+');
    }
}

/// A point is a score exactly when it names a run, a case and a metric, and is a
/// signal of that case with what it carries under those names.
pub proof fn points_tell_their_score(p: MetricPoint)
    ensures
        ({
            let a = p.attributes@;
            &&& score_in(p) is Some <==> a.dom().contains("run_id"@) && a.dom().contains("case_id"@)
                && a.dom().contains("metric"@)
            &&& score_in(p) matches Some(s) ==> {
                let g = score_signal(s);
                &&& s.run_id == a["run_id"@] && g.run_id == s.run_id
                &&& s.case_id == a["case_id"@] && g.case_id == s.case_id
                &&& s.metric == a["metric"@] && g.metric == Some(s.metric)
                &&& s.value == p.value && g.value == p.value
                &&& s.timestamp == instant_text(p.timestamp@) && g.from == s.timestamp && g.until
                    == s.timestamp
                &&& s.suite_id is Some <==> a.dom().contains("suite_id"@)
                &&& s.suite_id matches Some(t) ==> t == a["suite_id"@]
                &&& s.trace_id is Some <==> a.dom().contains("trace_id"@)
                &&& s.trace_id matches Some(t) ==> t == a["trace_id"@]
                &&& s.span_id is Some <==> a.dom().contains("span_id"@)
                &&& s.span_id matches Some(t) ==> t == a["span_id"@]
                &&& s.scorer is Some <==> a.dom().contains("scorer"@)
                &&& s.scorer matches Some(t) ==> t == a["scorer"@]
                &&& s.label is Some <==> a.dom().contains("label"@)
                &&& s.label matches Some(t) ==> t == a["label"@]
                &&& g.suite_id == s.suite_id && g.trace_id == s.trace_id && g.label == s.label
                &&& !g.failed && g.duration is None && g.case_count is None
            }
        }),
{
}

/// Every span and every score that tells of a case is counted, none is added.
pub proof fn no_signal_is_lost(
    spans: Seq<Span>,
    durations: Seq<u64>,
    points: Seq<MetricPoint>,
    i: int,
)
    requires
        spans.len() == durations.len(),
    ensures
        0 <= i < spans.len() ==> (span_signal(spans[i], durations[i]) matches Some(g)
            ==> span_signals(spans, durations).contains(g)),
        0 <= i < points.len() ==> (score_in(points[i]) matches Some(s) ==> score_signals(
            points,
        ).contains(score_signal(s))),
        span_signals(spans, durations).len() <= spans.len(),
        score_signals(points).len() <= points.len(),
    decreases spans.len() + points.len(),
{
    if spans.len() > 0 {
        let (s, d) = (spans.drop_last(), durations.drop_last());
        no_signal_is_lost(s, d, Seq::empty(), i);
        let (before, all) = (span_signals(s, d), span_signals(spans, durations));
        if 0 <= i < spans.len() {
            if let Some(g) = span_signal(spans[i], durations[i]) {
                if i < s.len() {
                    assert(s[i] == spans[i] && d[i] == durations[i]);
                    let k = choose|k: int| 0 <= k < before.len() && before[k] == g;
                    assert(all[k] == g);
                } else {
                    assert(all[before.len() as int] == g);
                }
            }
        }
    }
    if points.len() > 0 {
        let p = points.drop_last();
        no_signal_is_lost(Seq::empty(), Seq::empty(), p, i);
        let (before, all) = (score_signals(p), score_signals(points));
        if 0 <= i < points.len() {
            if let Some(s) = score_in(points[i]) {
                let g = score_signal(s);
                if i < p.len() {
                    assert(p[i] == points[i]);
                    let k = choose|k: int| 0 <= k < before.len() && before[k] == g;
                    assert(all[k] == g);
                } else {
                    assert(all[before.len() as int] == g);
                }
            }
        }
    }
}

/// Every signal is shown in the run that it names, and no run is shown twice.
pub proof fn signals_fall_into_their_runs(signals: Seq<SignalModel>, i: int, a: int, b: int)
    ensures
        0 <= i < signals.len() ==> exists|r: int|
            0 <= r < runs_of(signals).len() && (#[trigger] runs_of(signals)[r]).run_id
                == signals[i].run_id,
        0 <= a < b < runs_of(signals).len() ==> runs_of(signals)[a].run_id != runs_of(
            signals,
        )[b].run_id,
{
    let keys = run_ids(signals);
    crate::grouping::grouping_exists(keys);
    if 0 <= i < signals.len() {
        assert(keys[i] == signals[i].run_id);
        let n = choose|n: int| 0 <= n < grouping(keys).len() && (#[trigger] grouping(keys)[n]).0 == keys[i];
        assert(runs_of(signals)[n].run_id == signals[i].run_id);
    }
    if 0 <= a < b < runs_of(signals).len() {
        crate::grouping::groups_gather_their_key(keys, a, b, 0);
        crate::text::text_less_irreflexive(grouping(keys)[a].0);
    }
}

/// A run began with the first of its cases and was updated with the last.
pub proof fn runs_span_their_cases(cases: Seq<CaseModel>)
    requires
        cases.len() > 0,
    ensures
        earliest(cases) matches Some(t) && (exists|i: int|
            0 <= i < cases.len() && (#[trigger] cases[i]).started_at == t),
        latest(cases) matches Some(t) && (exists|i: int|
            0 <= i < cases.len() && (#[trigger] cases[i]).updated_at == t),
        forall|i: int|
            0 <= i < cases.len() ==> !text_less(
                (#[trigger] cases[i]).started_at,
                earliest(cases)->0,
            ) && !text_less(latest(cases)->0, cases[i].updated_at),
    decreases cases.len(),
{
    let init = cases.drop_last();
    let last = cases.last();
    assert(cases[cases.len() - 1] == last);
    crate::text::text_less_irreflexive(last.started_at);
    crate::text::text_less_irreflexive(last.updated_at);
    if init.len() > 0 {
        runs_span_their_cases(init);
        let (s, e) = (earliest(init)->0, latest(init)->0);
        let (i, j) = (
            choose|i: int| 0 <= i < init.len() && (#[trigger] init[i]).started_at == s,
            choose|j: int| 0 <= j < init.len() && (#[trigger] init[j]).updated_at == e,
        );
        assert(cases[i] == init[i] && cases[j] == init[j]);
        assert forall|i: int| 0 <= i < cases.len() implies !text_less(
            (#[trigger] cases[i]).started_at,
            earliest(cases)->0,
        ) && !text_less(latest(cases)->0, cases[i].updated_at) by {
            if i < init.len() {
                assert(init[i] == cases[i]);
                if text_less(last.started_at, s) && text_less(cases[i].started_at, last.started_at) {
                    crate::text::text_less_transitive(cases[i].started_at, last.started_at, s);
                }
                if !text_less(last.updated_at, e) && text_less(last.updated_at, cases[i].updated_at) {
                    crate::text::text_less_total(last.updated_at, e);
                    if e != last.updated_at {
                        crate::text::text_less_transitive(e, last.updated_at, cases[i].updated_at);
                    }
                }
            } else {
                if text_less(last.updated_at, e) && text_less(e, last.updated_at) {
                    crate::text::text_less_transitive(e, last.updated_at, e);
                    crate::text::text_less_irreflexive(e);
                }
            }
        }
    }
}

/// Runs are listed with the newest first.
pub proof fn the_newest_run_is_listed_first(runs: Seq<RunModel>, keys: Seq<String>, j: int, k: int)
    requires
        texts(keys) == runs.map_values(|x: RunModel| x.updated_at),
        0 <= j < k < ranking(keys).len(),
    ensures
        ranking(keys).len() == runs.len(),
        !text_less(runs[ranking(keys)[j]].updated_at, runs[ranking(keys)[k]].updated_at),
{
    crate::ranking::rankings_exist(keys);
    let order = ranking(keys);
    assert(texts(keys).len() == runs.len());
    let (a, b) = (order[j], order[k]);
    assert(crate::ranking::stands_before(keys, order[j], order[k]));
    assert(texts(keys)[a] == keys[a]@ && texts(keys)[b] == keys[b]@);
    assert(texts(keys)[a] == runs[a].updated_at && texts(keys)[b] == runs[b].updated_at);
    if text_less(keys[a]@, keys[b]@) && text_less(keys[b]@, keys[a]@) {
        crate::text::text_less_transitive(keys[a]@, keys[b]@, keys[a]@);
        crate::text::text_less_irreflexive(keys[a]@);
    }
}

/// Each status is told by its word.
pub proof fn statuses_are_told_by_their_word(c: CaseStatus, r: RunStatus)
    ensures
        c.text() == "pass"@ ==> c == CaseStatus::Pass,
        c.text() == "fail"@ ==> c == CaseStatus::Fail,
        c.text() == "running"@ ==> c == CaseStatus::Running,
        c.text() == "pending"@ ==> c == CaseStatus::Pending,
        r.text() == "failed"@ ==> r == RunStatus::Failed,
        r.text() == "complete"@ ==> r == RunStatus::Complete,
        r.text() == "running"@ ==> r == RunStatus::Running,
        r.text() == "unknown"@ ==> r == RunStatus::Unknown,
{
    reveal_strlit("pass");
    reveal_strlit("fail");
    reveal_strlit("running");
    reveal_strlit("pending");
    reveal_strlit("failed");
    reveal_strlit("complete");
    reveal_strlit("unknown");
    assert("pass"@[0] == 'p' && "fail"@[0] == 'f' && "running"@[0] == 'r' && "pending"@[0] == 'p');
    assert("pass"@.len() == 4 && "pending"@.len() == 7 && "fail"@.len() == 4);
    assert("failed"@[0] == 'f' && "complete"@[0] == 'c' && "unknown"@[0] == 'u');
}

/// What is averaged under a metric is the values of that metric, in order, and
/// nothing else.
pub proof fn values_are_gathered_by_metric(pairs: Seq<(Seq<char>, u64)>, a: int, k: int, i: int)
    requires
        0 <= a < values_of_each(pairs).len(),
    ensures
        values_of_each(pairs)[a].1.len() > 0,
        0 <= k < values_of_each(pairs)[a].1.len() ==> exists|p: int|
            0 <= p < pairs.len() && (#[trigger] pairs[p]).0 == values_of_each(pairs)[a].0
                && pairs[p].1 == values_of_each(pairs)[a].1[k],
        0 <= i < pairs.len() && pairs[i].0 == values_of_each(pairs)[a].0 ==> values_of_each(
            pairs,
        )[a].1.contains(pairs[i].1),
{
    let keys = keys_of(pairs);
    let group = grouping(keys)[a];
    let values = values_of_each(pairs)[a].1;
    crate::grouping::groups_gather_their_key(keys, a, a, i);
    assert(values == group.1.map_values(|i: int| pairs[i].1));
    if 0 <= k < values.len() {
        let p = group.1[k];
        assert(group.1.contains(p));
        crate::grouping::groups_gather_their_key(keys, a, a, p);
        assert(keys[p] == pairs[p].0);
    }
    if 0 <= i < pairs.len() && pairs[i].0 == group.0 {
        assert(keys[i] == pairs[i].0);
        let n = choose|n: int| 0 <= n < group.1.len() && group.1[n] == i;
        assert(values[n] == pairs[i].1);
    }
}

} // verus!
