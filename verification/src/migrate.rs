//! Copying a datastore from one engine into another: what is read, in which
//! portions it is written, and what is reported.
//!
//! Blobs are not copied: both engines share one content-addressed store.
//! Comments get a new time and id on insertion, and copied spans are not
//! text-searchable, since their payload text is no longer in them.

use crate::queries::{LogQuery, MetricQuery, TraceQuery};
use crate::sql::TraceComment;
use crate::text::{copy_text, opt_text};
use vstd::prelude::*;

verus! {

/// How many records one write holds.
pub const BATCH: usize = 1_000;

/// A limit that reads everything.
pub const ALL: u32 = u32::MAX;

/// What was (or, in a dry run, would be) copied.
#[derive(Debug, Clone, Copy, PartialEq, Eq, Structural)]
pub struct MigrationReport {
    pub spans: usize,
    pub logs: usize,
    pub metrics: usize,
    pub comments: usize,
    pub dry_run: bool,
}

impl Default for MigrationReport {
    fn default() -> (r: Self)
        ensures
            r == (MigrationReport { spans: 0, logs: 0, metrics: 0, comments: 0, dry_run: false }),
    {
        MigrationReport { spans: 0, logs: 0, metrics: 0, comments: 0, dry_run: false }
    }
}

/// The queries that read a whole store.
pub fn everything() -> (r: (TraceQuery, LogQuery, MetricQuery))
    ensures
        r.0.is_everything() && r.0.limit == Some(ALL),
        r.1.is_everything() && r.1.limit == Some(ALL),
        r.2.is_everything() && r.2.limit == Some(ALL),
{
    let mut spans = TraceQuery::default();
    spans.limit = Some(ALL);
    let mut logs = LogQuery::default();
    logs.limit = Some(ALL);
    let mut metrics = MetricQuery::default();
    metrics.limit = Some(ALL);
    (spans, logs, metrics)
}

/// A comment as it is added to a store, which gives it an id and a time.
#[derive(Debug)]
pub struct NewComment {
    pub trace_id: String,
    pub span_id: Option<String>,
    pub author: String,
    pub body: String,
}

/// What is kept of a comment: the trace and the span that it is pinned to, its
/// author and its body.
pub struct CommentModel {
    pub trace_id: Seq<char>,
    pub span_id: Option<Seq<char>>,
    pub author: Seq<char>,
    pub body: Seq<char>,
}

impl View for NewComment {
    type V = CommentModel;

    open spec fn view(&self) -> CommentModel {
        CommentModel {
            trace_id: self.trace_id@,
            span_id: opt_text(self.span_id),
            author: self.author@,
            body: self.body@,
        }
    }
}

pub open spec fn comment_views(v: Seq<NewComment>) -> Seq<CommentModel> {
    v.map_values(|c: NewComment| c@)
}

/// What is kept of stored comments.
pub open spec fn kept_of(comments: Seq<TraceComment>) -> Seq<CommentModel> {
    comments.map_values(
        |c: TraceComment|
            CommentModel {
                trace_id: c.trace_id@,
                span_id: opt_text(c.span_id),
                author: c.author@,
                body: c.body@,
            },
    )
}

/// The comments to add, one for each that is stored, in order.
fn carry_over(comments: &Vec<TraceComment>) -> (r: Vec<NewComment>)
    ensures
        comment_views(r@) == kept_of(comments@),
{
    let mut out: Vec<NewComment> = Vec::new();
    let mut i: usize = 0;
    assert(comment_views(out@) =~= kept_of(comments@).take(0));
    while i < comments.len()
        invariant
            i <= comments@.len(),
            comment_views(out@) == kept_of(comments@).take(i as int),
        decreases comments@.len() - i,
    {
        let ghost before = out@;
        let c = &comments[i];
        let copy = NewComment {
            trace_id: c.trace_id.clone(),
            span_id: copy_text(&c.span_id),
            author: c.author.clone(),
            body: c.body.clone(),
        };
        out.push(copy);
        assert(comment_views(out@) =~= comment_views(before).push(copy@));
        assert(copy@ == kept_of(comments@)[i as int]);
        i = i + 1;
        assert(comment_views(out@) =~= kept_of(comments@).take(i as int));
    }
    assert(kept_of(comments@).take(comments@.len() as int) =~= kept_of(comments@));
    out
}

/// Whether ranges follow one another without a gap from `from` on to `to`, none
/// of them empty or larger than a write may be, and all but the last one full.
pub open spec fn is_cut(ranges: Seq<(usize, usize)>, from: int, to: int) -> bool
    decreases ranges.len(),
{
    if ranges.len() == 0 {
        from == to
    } else {
        &&& ranges[0].0 == from
        &&& ranges[0].1 == if to - from <= BATCH {
            to
        } else {
            from + BATCH
        }
        &&& from < to
        &&& is_cut(ranges.drop_first(), ranges[0].1 as int, to)
    }
}

proof fn cut_grows(ranges: Seq<(usize, usize)>, from: int, mid: int, next: (usize, usize), to: int)
    requires
        from <= mid <= to,
        mid < to,
        (mid - from) % (BATCH as int) == 0,
        is_cut(ranges, from, mid),
        next.0 == mid,
        next.1 == if to - mid <= BATCH {
            to
        } else {
            mid + BATCH
        },
    ensures
        is_cut(ranges.push(next), from, next.1 as int),
    decreases ranges.len(),
{
    let more = ranges.push(next);
    if ranges.len() == 0 {
        assert(more.drop_first() =~= Seq::<(usize, usize)>::empty());
        assert(is_cut(more.drop_first(), next.1 as int, next.1 as int));
    } else {
        assert(more.drop_first() =~= ranges.drop_first().push(next));
        assert(mid - from >= BATCH) by (nonlinear_arith)
            requires
                from < mid,
                (mid - from) % (BATCH as int) == 0,
                BATCH > 0,
        ;
        assert((mid - ranges[0].1 as int) % (BATCH as int) == 0) by {
            vstd::arithmetic::div_mod::lemma_mod_sub_multiples_vanish(
                mid - from,
                BATCH as int,
            );
        }
        cut_grows(ranges.drop_first(), ranges[0].1 as int, mid, next, to);
    }
}

/// The portions in which `n` records are written, as ranges of positions.
pub fn batches(n: usize) -> (r: Vec<(usize, usize)>)
    ensures
        is_cut(r@, 0, n as int),
{
    let mut out: Vec<(usize, usize)> = Vec::new();
    let mut at: usize = 0;
    while at < n
        invariant
            at <= n,
            at < n ==> at as int % (BATCH as int) == 0,
            is_cut(out@, 0, at as int),
        decreases n - at,
    {
        let end: usize = if n - at <= BATCH {
            n
        } else {
            at + BATCH
        };
        proof {
            cut_grows(out@, 0, at as int, (at, end), n as int);
            if end < n {
                vstd::arithmetic::div_mod::lemma_mod_add_multiples_vanish(at as int, BATCH as int);
            }
        }
        out.push((at, end));
        at = end;
    }
    out
}

/// What a copy consists of: the report, and the portions to write. A dry run
/// writes nothing.
#[derive(Debug)]
pub struct Migration {
    pub report: MigrationReport,
    pub spans: Vec<(usize, usize)>,
    pub logs: Vec<(usize, usize)>,
    pub metrics: Vec<(usize, usize)>,
    /// The comments that are added, in the order in which they were read.
    pub comments: Vec<NewComment>,
}

impl Migration {
    /// Whether nothing is written.
    pub open spec fn is_idle(self) -> bool {
        self.spans@.len() == 0 && self.logs@.len() == 0 && self.metrics@.len() == 0
            && self.comments@.len() == 0
    }
}

/// Lay out the copy of a store that holds so many spans, logs and metric points,
/// and the given comments. Every comment is copied, whether or not its trace
/// has a span in the store.
pub fn migrate_duckdb(
    spans: usize,
    logs: usize,
    metrics: usize,
    comments: &Vec<TraceComment>,
    dry_run: bool,
) -> (r: Migration)
    ensures
        r.report == (MigrationReport {
            spans,
            logs,
            metrics,
            comments: comments@.len() as usize,
            dry_run,
        }),
        dry_run ==> r.is_idle(),
        !dry_run ==> is_cut(r.spans@, 0, spans as int) && is_cut(r.logs@, 0, logs as int) && is_cut(
            r.metrics@,
            0,
            metrics as int,
        ) && comment_views(r.comments@) == kept_of(comments@),
{
    let report = MigrationReport { spans, logs, metrics, comments: comments.len(), dry_run };
    if dry_run {
        return Migration {
            report,
            spans: Vec::new(),
            logs: Vec::new(),
            metrics: Vec::new(),
            comments: Vec::new(),
        };
    }
    Migration {
        report,
        spans: batches(spans),
        logs: batches(logs),
        metrics: batches(metrics),
        comments: carry_over(comments),
    }
}

/// Whether a position is in a range.
pub open spec fn holds(range: (usize, usize), k: int) -> bool {
    range.0 <= k < range.1
}

/// Every record is written, and written once: each position is in exactly one
/// of the portions.
pub proof fn every_record_is_copied_once(ranges: Seq<(usize, usize)>, from: int, to: int, k: int)
    requires
        is_cut(ranges, from, to),
        from <= k < to,
    ensures
        exists|b: int| 0 <= b < ranges.len() && #[trigger] holds(ranges[b], k),
        forall|a: int, b: int|
            0 <= a < b < ranges.len() ==> !(#[trigger] holds(ranges[a], k) && #[trigger] holds(
                ranges[b],
                k,
            )),
    decreases ranges.len(),
{
    let rest = ranges.drop_first();
    let mid = ranges[0].1 as int;
    assert forall|b: int| 0 < b < ranges.len() implies (#[trigger] ranges[b]).0 >= mid by {
        assert(ranges[b] == rest[b - 1]);
        cut_starts_later(rest, mid, to, b - 1);
    }
    if k < mid {
        assert(holds(ranges[0], k));
        assert forall|a: int, b: int| 0 <= a < b < ranges.len() implies !(#[trigger] holds(
            ranges[a],
            k,
        ) && #[trigger] holds(ranges[b], k)) by {
            assert(ranges[b].0 >= mid);
        }
    } else {
        every_record_is_copied_once(rest, mid, to, k);
        let b = choose|b: int| 0 <= b < rest.len() && #[trigger] holds(rest[b], k);
        assert(ranges[b + 1] == rest[b]);
        assert(holds(ranges[b + 1], k));
        assert forall|a: int, b: int| 0 <= a < b < ranges.len() implies !(#[trigger] holds(
            ranges[a],
            k,
        ) && #[trigger] holds(ranges[b], k)) by {
            if a > 0 {
                assert(ranges[a] == rest[a - 1] && ranges[b] == rest[b - 1]);
                assert(!(holds(rest[a - 1], k) && holds(rest[b - 1], k)));
            }
        }
    }
}

proof fn cut_starts_later(ranges: Seq<(usize, usize)>, from: int, to: int, b: int)
    requires
        is_cut(ranges, from, to),
        0 <= b < ranges.len(),
    ensures
        ranges[b].0 >= from,
    decreases ranges.len(),
{
    if b > 0 {
        assert(ranges[b] == ranges.drop_first()[b - 1]);
        cut_starts_later(ranges.drop_first(), ranges[0].1 as int, to, b - 1);
    }
}

/// A comment is copied with everything that was said: who said it, of what, and the
/// text.
pub proof fn comments_keep_what_was_said(comments: Seq<TraceComment>, i: int)
    requires
        0 <= i < comments.len(),
    ensures
        kept_of(comments).len() == comments.len(),
        kept_of(comments)[i].trace_id == comments[i].trace_id@,
        kept_of(comments)[i].author == comments[i].author@,
        kept_of(comments)[i].body == comments[i].body@,
        comments[i].span_id is None <==> kept_of(comments)[i].span_id is None,
        comments[i].span_id matches Some(s) ==> kept_of(comments)[i].span_id == Some(s@),
{
}

/// No batch holds more than a thousand records, and all but the last hold that
/// many.
pub proof fn batches_are_full(ranges: Seq<(usize, usize)>, from: int, to: int, b: int)
    requires
        is_cut(ranges, from, to),
        0 <= b < ranges.len(),
    ensures
        0 < ranges[b].1 - ranges[b].0 <= 1000,
        b < ranges.len() - 1 ==> ranges[b].1 - ranges[b].0 == 1000,
        b == 0 ==> ranges[b].0 == from,
        b == ranges.len() - 1 ==> ranges[b].1 == to,
        b < ranges.len() - 1 ==> ranges[b + 1].0 == ranges[b].1,
    decreases ranges.len(),
{
    let rest = ranges.drop_first();
    assert(is_cut(rest, ranges[0].1 as int, to));
    if rest.len() > 0 {
        assert(rest[0] == ranges[1]);
    }
    if b > 0 {
        batches_are_full(rest, ranges[0].1 as int, to, b - 1);
        assert(rest[b - 1] == ranges[b]);
        if b < ranges.len() - 1 {
            assert(rest[b] == ranges[b + 1]);
        }
    }
}

} // verus!
