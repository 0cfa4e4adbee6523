//! Counters of the ingest pipelines.
//!
//! Every accept path counts at the place where it calls the store, so the
//! numbers reflect what was persisted, not what arrived on the wire.

use crate::crypto::now;
use crate::time::{at, in_range, instant_text, Timestamp};
use vstd::prelude::*;

verus! {

/// One ingest pipeline (a protocol/signal pair the server accepts).
#[derive(Debug, Clone, Copy, PartialEq, Eq, Structural)]
pub enum Pipeline {
    /// OTLP spans.
    OtlpSpans,
    /// OTLP log records.
    OtlpLogs,
    /// OTLP metric points.
    OtlpMetrics,
    /// Prometheus remote-write metric points.
    RemoteWrite,
    /// Datadog trace-agent spans.
    Datadog,
}

/// What has been counted of one pipeline. Each count wraps at 64 bits.
#[derive(Debug, Clone, Copy, PartialEq, Eq, Structural)]
pub struct Counter {
    pub batches: u64,
    pub records: u64,
    pub errors: u64,
    /// Batches refused at admission because the node was at capacity.
    pub shed: u64,
    /// Unix millis of the last accepted batch; 0 = never.
    pub last_accepted_ms: i64,
}

pub open spec fn fresh_counter() -> Counter {
    Counter { batches: 0, records: 0, errors: 0, shed: 0, last_accepted_ms: 0 }
}

#[derive(Debug)]
pub struct PipelineStatus {
    pub pipeline: &'static str,
    pub batches: u64,
    pub records: u64,
    pub errors: u64,
    pub shed: u64,
    /// RFC3339 time of the last accepted batch, absent when nothing has
    /// arrived.
    pub last_accepted_at: Option<String>,
}

/// Whether a status says what a counter holds.
pub open spec fn reports(s: PipelineStatus, c: Counter, name: Seq<char>) -> bool {
    &&& s.pipeline@ == name
    &&& s.batches == c.batches
    &&& s.records == c.records
    &&& s.errors == c.errors
    &&& s.shed == c.shed
    &&& match s.last_accepted_at {
        Some(t) => c.last_accepted_ms > 0 && in_range(c.last_accepted_ms * 1000000) && t@
            == instant_text(at(c.last_accepted_ms * 1000000)),
        None => c.last_accepted_ms <= 0 || !in_range(c.last_accepted_ms * 1000000),
    }
}

impl Counter {
    pub fn new() -> (r: Counter)
        ensures
            r == fresh_counter(),
    {
        Counter { batches: 0, records: 0, errors: 0, shed: 0, last_accepted_ms: 0 }
    }

    pub fn status(&self, pipeline: &'static str) -> (r: PipelineStatus)
        ensures
            reports(r, *self, pipeline@),
    {
        let last_accepted_at: Option<String> = if self.last_accepted_ms > 0 {
            match Timestamp::from_millis(self.last_accepted_ms) {
                Some(t) => Some(t.to_rfc3339()),
                None => None,
            }
        } else {
            None
        };
        PipelineStatus {
            pipeline,
            batches: self.batches,
            records: self.records,
            errors: self.errors,
            shed: self.shed,
            last_accepted_at,
        }
    }
}

/// The counters of every pipeline.
#[derive(Debug)]
pub struct Stats {
    otlp_spans: Counter,
    otlp_logs: Counter,
    otlp_metrics: Counter,
    remote_write: Counter,
    datadog: Counter,
}

impl View for Stats {
    type V = Map<Pipeline, Counter>;

    closed spec fn view(&self) -> Map<Pipeline, Counter> {
        Map::new(
            |p: Pipeline| true,
            |p: Pipeline|
                match p {
                    Pipeline::OtlpSpans => self.otlp_spans,
                    Pipeline::OtlpLogs => self.otlp_logs,
                    Pipeline::OtlpMetrics => self.otlp_metrics,
                    Pipeline::RemoteWrite => self.remote_write,
                    Pipeline::Datadog => self.datadog,
                },
        )
    }
}

impl Stats {
    pub fn new() -> (r: Stats)
        ensures
            forall|p: Pipeline| #[trigger] r@[p] == fresh_counter(),
            forall|p: Pipeline| #[trigger] r@.dom().contains(p),
    {
        Stats {
            otlp_spans: Counter::new(),
            otlp_logs: Counter::new(),
            otlp_metrics: Counter::new(),
            remote_write: Counter::new(),
            datadog: Counter::new(),
        }
    }

    fn counter(&self, pipeline: Pipeline) -> (r: Counter)
        ensures
            r == self@[pipeline],
    {
        match pipeline {
            Pipeline::OtlpSpans => self.otlp_spans,
            Pipeline::OtlpLogs => self.otlp_logs,
            Pipeline::OtlpMetrics => self.otlp_metrics,
            Pipeline::RemoteWrite => self.remote_write,
            Pipeline::Datadog => self.datadog,
        }
    }

    fn set_counter(&mut self, pipeline: Pipeline, counter: Counter)
        ensures
            final(self)@ == old(self)@.insert(pipeline, counter),
    {
        match pipeline {
            Pipeline::OtlpSpans => {
                self.otlp_spans = counter;
            },
            Pipeline::OtlpLogs => {
                self.otlp_logs = counter;
            },
            Pipeline::OtlpMetrics => {
                self.otlp_metrics = counter;
            },
            Pipeline::RemoteWrite => {
                self.remote_write = counter;
            },
            Pipeline::Datadog => {
                self.datadog = counter;
            },
        }
        assert(self@ =~= old(self)@.insert(pipeline, counter));
    }

    /// Record a persisted batch of `records` records, at the given instant.
    pub fn record_accepted_at(&mut self, pipeline: Pipeline, records: usize, instant_ms: i64)
        ensures
            final(self)@ == old(self)@.insert(
                pipeline,
                (Counter {
                    batches: old(self)@[pipeline].batches.wrapping_add(1),
                    records: old(self)@[pipeline].records.wrapping_add(records as u64),
                    last_accepted_ms: instant_ms,
                    ..old(self)@[pipeline]
                }),
            ),
            final(self)@[pipeline] == accepted(old(self)@[pipeline], records, instant_ms),
    {
        let mut c = self.counter(pipeline);
        c.batches = c.batches.wrapping_add(1);
        c.records = c.records.wrapping_add(records as u64);
        c.last_accepted_ms = instant_ms;
        self.set_counter(pipeline, c);
    }

    /// Record a successfully persisted batch of `records` records, now.
    pub fn record_accepted(&mut self, pipeline: Pipeline, records: usize)
        ensures
            exists|instant_ms: i64|
                final(self)@ == old(self)@.insert(
                    pipeline,
                    #[trigger] accepted(old(self)@[pipeline], records, instant_ms),
                ),
    {
        let instant_ms: i64 = now().millis();
        self.record_accepted_at(pipeline, records, instant_ms);
        assert(self@ == old(self)@.insert(
            pipeline,
            accepted(old(self)@[pipeline], records, instant_ms),
        ));
    }

    /// Record a batch that failed to persist.
    pub fn record_error(&mut self, pipeline: Pipeline)
        ensures
            final(self)@ == old(self)@.insert(
                pipeline,
                (Counter {
                    errors: old(self)@[pipeline].errors.wrapping_add(1),
                    ..old(self)@[pipeline]
                }),
            ),
            final(self)@[pipeline] == gone_wrong(old(self)@[pipeline]),
    {
        let mut c = self.counter(pipeline);
        c.errors = c.errors.wrapping_add(1);
        self.set_counter(pipeline, c);
    }

    /// Record a batch shed at admission.
    pub fn record_shed(&mut self, pipeline: Pipeline)
        ensures
            final(self)@ == old(self)@.insert(
                pipeline,
                (Counter {
                    shed: old(self)@[pipeline].shed.wrapping_add(1),
                    ..old(self)@[pipeline]
                }),
            ),
            final(self)@[pipeline] == turned_away(old(self)@[pipeline]),
    {
        let mut c = self.counter(pipeline);
        c.shed = c.shed.wrapping_add(1);
        self.set_counter(pipeline, c);
    }

    /// A snapshot of every pipeline, in a fixed order.
    pub fn snapshot(&self) -> (r: Vec<PipelineStatus>)
        ensures
            r@.len() == 5,
            reports(r@[0], self@[Pipeline::OtlpSpans], "otlp_spans"@),
            reports(r@[1], self@[Pipeline::OtlpLogs], "otlp_logs"@),
            reports(r@[2], self@[Pipeline::OtlpMetrics], "otlp_metrics"@),
            reports(r@[3], self@[Pipeline::RemoteWrite], "remote_write"@),
            reports(r@[4], self@[Pipeline::Datadog], "datadog"@),
    {
        let mut out: Vec<PipelineStatus> = Vec::new();
        out.push(self.otlp_spans.status("otlp_spans"));
        out.push(self.otlp_logs.status("otlp_logs"));
        out.push(self.otlp_metrics.status("otlp_metrics"));
        out.push(self.remote_write.status("remote_write"));
        out.push(self.datadog.status("datadog"));
        out
    }
}

/// A counter after a batch was accepted.
pub open spec fn accepted(c: Counter, records: usize, instant_ms: i64) -> Counter {
    Counter {
        batches: c.batches.wrapping_add(1),
        records: c.records.wrapping_add(records as u64),
        last_accepted_ms: instant_ms,
        ..c
    }
}

// ── Laws ────────────────────────────────────────────────────────────

/// A report shows each count as what it is, and when a batch was last accepted.
pub proof fn reports_show_the_counts(s: PipelineStatus, c: Counter, name: Seq<char>)
    requires
        reports(s, c, name),
    ensures
        s.pipeline@ == name,
        s.batches == c.batches && s.records == c.records && s.errors == c.errors && s.shed == c.shed,
        c.last_accepted_ms <= 0 ==> s.last_accepted_at is None,
        c.last_accepted_ms > 0 && in_range(c.last_accepted_ms * 1000000) ==> (
        s.last_accepted_at matches Some(t) && t@ == instant_text(at(c.last_accepted_ms * 1000000))),
{
}

/// A batch that is accepted adds its records and is the last one.
pub proof fn batches_add_their_records(c: Counter, records: usize, instant_ms: i64)
    requires
        c.batches < u64::MAX,
        c.records + records <= u64::MAX,
    ensures
        accepted(c, records, instant_ms).records == c.records + records,
        accepted(c, records, instant_ms).batches == c.batches + 1,
        accepted(c, records, instant_ms).last_accepted_ms == instant_ms,
        accepted(c, records, instant_ms).errors == c.errors,
        accepted(c, records, instant_ms).shed == c.shed,
        fresh_counter().batches == 0 && fresh_counter().records == 0 && fresh_counter().errors == 0
            && fresh_counter().shed == 0 && fresh_counter().last_accepted_ms == 0,
{
}

/// A counter once a batch was refused at admission.
pub open spec fn turned_away(c: Counter) -> Counter {
    Counter { shed: c.shed.wrapping_add(1), ..c }
}

/// A counter once a batch failed.
pub open spec fn gone_wrong(c: Counter) -> Counter {
    Counter { errors: c.errors.wrapping_add(1), ..c }
}

/// A batch that was refused and one that failed are each counted as that alone.
pub proof fn refusals_and_faults_are_counted_apart(c: Counter)
    requires
        c.shed < u64::MAX,
        c.errors < u64::MAX,
    ensures
        turned_away(c).shed == c.shed + 1 && turned_away(c).errors == c.errors,
        gone_wrong(c).errors == c.errors + 1 && gone_wrong(c).shed == c.shed,
        turned_away(c).batches == c.batches && turned_away(c).records == c.records && turned_away(
            c,
        ).last_accepted_ms == c.last_accepted_ms,
        gone_wrong(c).batches == c.batches && gone_wrong(c).records == c.records && gone_wrong(
            c,
        ).last_accepted_ms == c.last_accepted_ms,
{
}

} // verus!
