//! What the export services decide around their store: which batches are let
//! in, what is stored of them, and how an export is answered.

use crate::ingest::backpressure::{try_acquire, Gate, Permit};
use crate::ingest::cardinality::{admit_points, admitted, SeriesGuard};
use crate::ingest::forward::Refusal;
use crate::ingest::otlp::{seal, sealed, SpanDraft};
use crate::ingest::otlp_http::ServiceCode;
use crate::ingest::otlp_logs::{is_oversized, log_views, settle, settled};
use crate::ingest::otlp_metrics::{convert_request, request_points, ResourceMetrics};
use crate::ingest::stats::{accepted, Counter, Pipeline, Stats};
use crate::metrics::{point_views, stamp_points, stamped_points, MetricPoint};
use crate::spans::{span_views, LogModel, LogRecord, Span, SpanModel, TenantStamp};
use crate::text::{copy_text, opt_text};
use vstd::prelude::*;

verus! {

// ── Admission and answer ────────────────────────────────────────────

/// A counter after a batch was shed.
pub open spec fn shed(c: Counter) -> Counter {
    Counter { shed: c.shed.wrapping_add(1), ..c }
}

/// A counter after a batch could not be stored.
pub open spec fn failed(c: Counter) -> Counter {
    Counter { errors: c.errors.wrapping_add(1), ..c }
}

/// Let a batch in, or shed it at once with a status that the exporter retries.
pub fn open_batch(gate: &mut Gate, stats: &mut Stats, pipeline: Pipeline) -> (r: Result<
    Permit,
    Refusal,
>)
    ensures
        final(gate).cap() == old(gate).cap(),
        match r {
            Ok(permit) => {
                &&& old(gate).cap() == 0 || old(gate).taken() < old(gate).cap()
                &&& permit.holds_slot() == (old(gate).cap() > 0)
                &&& final(gate).taken() == old(gate).taken() + if permit.holds_slot() {
                    1int
                } else {
                    0
                }
                &&& final(stats)@ == old(stats)@
            },
            Err(refusal) => {
                &&& old(gate).cap() > 0 && old(gate).taken() >= old(gate).cap()
                &&& final(gate).taken() == old(gate).taken()
                &&& final(stats)@ == old(stats)@.insert(pipeline, shed(old(stats)@[pipeline]))
                &&& refusal.code == ServiceCode::ResourceExhausted
                &&& refusal.message@ == "ingest at capacity; retry with backoff"@
            },
        },
{
    match try_acquire(gate) {
        Some(permit) => Ok(permit),
        None => {
            stats.record_shed(pipeline);
            Err(
                Refusal {
                    code: ServiceCode::ResourceExhausted,
                    message: "ingest at capacity; retry with backoff".to_owned(),
                },
            )
        },
    }
}

/// Count a batch of `records` records by whether it was stored, and say how
/// its export is answered.
pub fn close_batch(
    stats: &mut Stats,
    pipeline: Pipeline,
    records: usize,
    stored: &Result<(), String>,
) -> (r: Result<(), Refusal>)
    ensures
        match r {
            Ok(_) => {
                &&& stored is Ok
                &&& exists|instant_ms: i64|
                    final(stats)@ == old(stats)@.insert(
                        pipeline,
                        #[trigger] accepted(old(stats)@[pipeline], records, instant_ms),
                    )
            },
            Err(refusal) => {
                &&& *stored matches Err(e)
                &&& final(stats)@ == old(stats)@.insert(pipeline, failed(old(stats)@[pipeline]))
                &&& refusal.code == ServiceCode::Internal
                &&& refusal.message@ == "storage error: "@ + e@
            },
        },
{
    match stored {
        Ok(_) => {
            stats.record_accepted(pipeline, records);
            Ok(())
        },
        Err(e) => {
            stats.record_error(pipeline);
            let mut message = "storage error: ".to_owned();
            message.append(e.as_str());
            Err(Refusal { code: ServiceCode::Internal, message })
        },
    }
}

// ── Spans ───────────────────────────────────────────────────────────

/// Where the payload of a span was stored, as far as it was.
#[derive(Debug)]
pub struct PayloadHashes {
    pub prompt: Option<String>,
    pub completion: Option<String>,
}

/// The spans of a batch as they are stored.
pub open spec fn sealed_batch(
    drafts: Seq<SpanDraft>,
    hashes: Seq<PayloadHashes>,
    stamp: Option<TenantStamp>,
) -> Seq<SpanModel> {
    Seq::new(
        drafts.len(),
        |i: int|
            sealed(
                drafts[i].span@,
                opt_text(hashes[i].prompt),
                opt_text(hashes[i].completion),
                stamp,
            ),
    )
}

/// The spans to store, given where their payloads were stored, with the
/// writer's tenant stamped on each last.
pub fn seal_batch(
    drafts: Vec<SpanDraft>,
    hashes: &Vec<PayloadHashes>,
    stamp: &Option<TenantStamp>,
) -> (r: Vec<Span>)
    requires
        drafts@.len() == hashes@.len(),
    ensures
        span_views(r@) == sealed_batch(drafts@, hashes@, *stamp),
{
    let ghost all = drafts@;
    let ghost wanted = sealed_batch(all, hashes@, *stamp);
    let n: usize = hashes.len();
    let mut out: Vec<Span> = Vec::new();
    let mut i: usize = 0;
    for d in it: drafts
        invariant
            it.seq() == all,
            i == it.index(),
            all.len() == hashes@.len() == n,
            wanted == sealed_batch(all, hashes@, *stamp),
            span_views(out@) == wanted.take(it.index()),
    {
        let ghost before = out@;
        assert(d == all[i as int]);
        let prompt = copy_text(&hashes[i].prompt);
        let completion = copy_text(&hashes[i].completion);
        let span = seal(d, prompt, completion, stamp);
        assert(span@ == wanted[i as int]);
        out.push(span);
        assert(span_views(out@) =~= span_views(before).push(span@));
        assert(span_views(out@) =~= wanted.take(i + 1));
        i = i + 1;
    }
    assert(wanted.take(all.len() as int) =~= wanted);
    out
}

/// What came of indexing a span: its payload, where it has one to index, and
/// its attributes.
#[derive(Debug, Clone, Copy, PartialEq, Eq, Structural)]
pub struct Indexed {
    pub payload: Option<bool>,
    pub attributes: bool,
    pub has_attributes: bool,
}

/// Whether indexing a span changed the index.
pub open spec fn changed_index(i: Indexed) -> bool {
    i.payload == Some(true) || (i.attributes && i.has_attributes)
}

/// Whether an index has to be committed after a batch: where it took anything
/// in.
pub fn needs_commit(outcomes: &Vec<Indexed>) -> (r: bool)
    ensures
        r == exists|i: int| 0 <= i < outcomes@.len() && changed_index(#[trigger] outcomes@[i]),
{
    let mut i: usize = 0;
    while i < outcomes.len()
        invariant
            i <= outcomes@.len(),
            forall|j: int| 0 <= j < i ==> !changed_index(#[trigger] outcomes@[j]),
        decreases outcomes@.len() - i,
    {
        let o: Indexed = outcomes[i];
        let payload: bool = match o.payload {
            Some(b) => b,
            None => false,
        };
        if payload || (o.attributes && o.has_attributes) {
            assert(changed_index(outcomes@[i as int]));
            return true;
        }
        i = i + 1;
    }
    false
}

// ── Logs ────────────────────────────────────────────────────────────

/// The records of a batch after their bodies have been dealt with.
pub open spec fn settled_batch(logs: Seq<LogModel>, hashes: Seq<Option<String>>) -> Seq<LogModel> {
    Seq::new(logs.len(), |i: int| settled(logs[i], opt_text(hashes[i])))
}

/// The bodies that left their records, each with its record's trace.
pub open spec fn offloaded_of(logs: Seq<LogModel>, hashes: Seq<Option<String>>) -> Seq<
    (Option<Seq<char>>, Seq<char>),
>
    decreases logs.len(),
{
    if logs.len() == 0 {
        Seq::empty()
    } else {
        let before = offloaded_of(logs.drop_last(), hashes);
        let l = logs.last();
        if is_oversized(l.body) && hashes[logs.len() - 1] is Some {
            before.push((l.trace_id, l.body))
        } else {
            before
        }
    }
}

pub open spec fn body_views(v: Seq<(Option<String>, String)>) -> Seq<(Option<Seq<char>>, Seq<char>)> {
    v.map_values(|b: (Option<String>, String)| (opt_text(b.0), b.1@))
}

/// The records of a batch as they are stored, given where their bodies were
/// stored, and the bodies that left them: the search index still has to see
/// those.
pub fn settle_batch(logs: Vec<LogRecord>, hashes: &Vec<Option<String>>) -> (r: (
    Vec<LogRecord>,
    Vec<(Option<String>, String)>,
))
    requires
        logs@.len() == hashes@.len(),
    ensures
        log_views(r.0@) == settled_batch(log_views(logs@), hashes@),
        body_views(r.1@) == offloaded_of(log_views(logs@), hashes@),
{
    let ghost all = log_views(logs@);
    let ghost records = logs@;
    let ghost wanted = settled_batch(all, hashes@);
    let mut kept: Vec<LogRecord> = Vec::new();
    let mut bodies: Vec<(Option<String>, String)> = Vec::new();
    let n: usize = hashes.len();
    let mut i: usize = 0;
    assert(all.take(0) =~= Seq::<LogModel>::empty());
    assert(body_views(bodies@) =~= Seq::<(Option<Seq<char>>, Seq<char>)>::empty());
    for l in it: logs
        invariant
            it.seq() == records,
            i == it.index(),
            records.len() == hashes@.len() == n,
            all == log_views(records),
            wanted == settled_batch(all, hashes@),
            log_views(kept@) == wanted.take(it.index()),
            body_views(bodies@) == offloaded_of(all.take(it.index()), hashes@),
    {
        let ghost before = kept@;
        let ghost earlier = bodies@;
        proof {
            assert(all[i as int] == l@);
            assert(all.take(i + 1).drop_last() =~= all.take(i as int));
            assert(all.take(i + 1).last() == l@);
        }
        let trace_id = copy_text(&l.trace_id);
        let hash = copy_text(&hashes[i]);
        let (record, body) = settle(l, hash);
        assert(record@ == wanted[i as int]);
        kept.push(record);
        assert(log_views(kept@) =~= log_views(before).push(record@));
        assert(log_views(kept@) =~= wanted.take(i + 1));
        if let Some(b) = body {
            let entry = (trace_id, b);
            bodies.push(entry);
            assert(body_views(bodies@) =~= body_views(earlier).push((opt_text(entry.0), entry.1@)));
        }
        i = i + 1;
    }
    assert(wanted.take(records.len() as int) =~= wanted);
    assert(all.take(records.len() as int) =~= all);
    (kept, bodies)
}

// ── Metric points ───────────────────────────────────────────────────

/// What is left of some points once the cap on series has been applied.
pub open spec fn within_cap(guard: SeriesGuard, points: Seq<MetricPoint>) -> Seq<MetricPoint> {
    if guard.cap() == 0 {
        points
    } else {
        admitted(guard.known(), guard.cap(), points).1
    }
}

/// The points of a metric export that are stored: its data points, without the
/// ones that would mint a series beyond the cap, with the writer's tenant
/// stamped on each last.
pub fn metric_batch(
    resources: &Vec<ResourceMetrics>,
    guard: &mut SeriesGuard,
    stamp: &Option<TenantStamp>,
) -> (r: Vec<MetricPoint>)
    ensures
        final(guard).cap() == old(guard).cap(),
        exists|points: Seq<MetricPoint>| #[trigger]
            point_views(points) == request_points(resources@) && point_views(r@) == stamped_points(
                point_views(within_cap(*old(guard), points)),
                *stamp,
            ) && (if old(guard).cap() == 0 {
                final(guard).known() == old(guard).known() && final(guard).lost() == old(
                    guard,
                ).lost()
            } else {
                final(guard).known() == admitted(
                    old(guard).known(),
                    old(guard).cap(),
                    points,
                ).0 && final(guard).lost() == old(guard).lost().wrapping_add(
                    (points.len() - within_cap(*old(guard), points).len()) as u64,
                )
            }),
{
    let mut points = convert_request(resources);
    let ghost all = points@;
    let _dropped: u64 = admit_points(guard, &mut points);
    assert(points@ == within_cap(*old(guard), all));
    let r = stamp_points(points, stamp);
    assert(point_views(all) == request_points(resources@));
    r
}

// ── Laws ────────────────────────────────────────────────────────────

/// A batch moves exactly one of the three counts, and by one: it is accepted,
/// failed, or shed.
pub proof fn a_batch_is_counted_once(c: Counter, records: usize, instant_ms: i64)
    requires
        c.batches < u64::MAX,
        c.errors < u64::MAX,
        c.shed < u64::MAX,
    ensures
        ({
            let a = accepted(c, records, instant_ms);
            a.batches == c.batches + 1 && a.errors == c.errors && a.shed == c.shed
        }),
        ({
            let f = failed(c);
            f.batches == c.batches && f.errors == c.errors + 1 && f.shed == c.shed && f.records
                == c.records
        }),
        ({
            let s = shed(c);
            s.batches == c.batches && s.errors == c.errors && s.shed == c.shed + 1 && s.records
                == c.records
        }),
{
}

/// Whatever a client sent, every stored span of a stamped batch carries the
/// writer's tenant.
pub proof fn stored_spans_are_the_writers(
    drafts: Seq<SpanDraft>,
    hashes: Seq<PayloadHashes>,
    stamp: TenantStamp,
    i: int,
)
    requires
        0 <= i < drafts.len(),
    ensures
        sealed_batch(drafts, hashes, Some(stamp)).len() == drafts.len(),
        sealed_batch(drafts, hashes, Some(stamp))[i].attributes.dom().contains(stamp.attribute@),
        sealed_batch(drafts, hashes, Some(stamp))[i].attributes[stamp.attribute@] == stamp.tenant@,
{
}

/// Each span of a batch is sealed with the digests of its own payload, and each
/// record settled with its own; a body goes to the store exactly where it is too
/// long and has a digest.
pub proof fn digests_go_to_their_own(
    drafts: Seq<SpanDraft>,
    hashes: Seq<PayloadHashes>,
    logs: Seq<LogModel>,
    digests: Seq<Option<String>>,
    stamp: Option<TenantStamp>,
    i: int,
)
    ensures
        0 <= i < drafts.len() ==> {
            let s = sealed_batch(drafts, hashes, stamp)[i];
            &&& s.trace_id == drafts[i].span@.trace_id && s.span_id == drafts[i].span@.span_id
            &&& s.llm is Some <==> drafts[i].span@.llm is Some
            &&& s.llm matches Some(l) ==> (hashes[i].prompt matches Some(h) ==> l.prompt_sha256
                == Some(h@)) && (hashes[i].completion matches Some(h) ==> l.completion_sha256
                == Some(h@)) && (hashes[i].prompt is None ==> l.prompt_sha256 is None) && (
            hashes[i].completion is None ==> l.completion_sha256 is None)
        },
        settled_batch(logs, digests).len() == logs.len(),
        0 <= i < logs.len() && digests[i] is None ==> settled_batch(logs, digests)[i] == logs[i],
        0 <= i < logs.len() && digests[i] is Some && vstd::utf8::encode_utf8(logs[i].body).len()
            > 8192 ==> settled_batch(logs, digests)[i].body.len() == 0 && settled_batch(
            logs,
            digests,
        )[i].body_sha256 == Some(digests[i]->0@) && offloaded_of(logs, digests).contains(
            (logs[i].trace_id, logs[i].body),
        ),
        offloaded_of(logs, digests).len() <= logs.len(),
    decreases logs.len(),
{
    if logs.len() > 0 {
        let init = logs.drop_last();
        digests_go_to_their_own(Seq::empty(), hashes, init, digests, stamp, i);
        let (before, all) = (offloaded_of(init, digests), offloaded_of(logs, digests));
        if 0 <= i < logs.len() && digests[i] is Some && vstd::utf8::encode_utf8(logs[i].body).len()
            > 8192 {
            if i < init.len() {
                assert(init[i] == logs[i]);
                let k = choose|k: int|
                    0 <= k < before.len() && before[k] == (logs[i].trace_id, logs[i].body);
                assert(all[k] == before[k]);
            } else {
                assert(all[before.len() as int] == (logs[i].trace_id, logs[i].body));
            }
        }
    }
}

/// Without a cap every point is kept; the index changes where a payload or an
/// attribute went into it.
pub proof fn without_a_cap_all_are_kept(guard: SeriesGuard, points: Seq<MetricPoint>, i: Indexed)
    ensures
        guard.cap() == 0 ==> within_cap(guard, points) == points,
        i.payload == Some(true) ==> changed_index(i),
        i.attributes && i.has_attributes ==> changed_index(i),
        i.payload != Some(true) && !i.has_attributes ==> !changed_index(i),
        i.payload != Some(true) && !i.attributes ==> !changed_index(i),
{
}

} // verus!
