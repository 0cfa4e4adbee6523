//! What a request asks a store for.

use crate::api::params::{window, window_in, AttributeFilters};
use crate::queries::{LogQuery, MetricQuery, TraceQuery};
use crate::text::opt_text;
use vstd::prelude::*;

verus! {

/// The parameters of a request for spans. Durations are decimal numbers of
/// milliseconds.
#[derive(Debug)]
pub struct TraceQueryParams {
    pub service: Option<String>,
    pub operation: Option<String>,
    pub min_duration_ms: Option<String>,
    pub max_duration_ms: Option<String>,
    pub status: Option<String>,
    pub last: Option<String>,
    pub limit: Option<u32>,
    pub text: Option<String>,
}

/// The query for a request for spans: its parameters, its attribute filters by
/// kind, and the tenant that the caller reads within. A window that cannot be
/// read is no window.
pub fn trace_query(
    params: TraceQueryParams,
    filters: AttributeFilters,
    tenant: Option<String>,
) -> (r: TraceQuery)
    ensures
        r.service == params.service,
        r.operation == params.operation,
        r.min_duration_ms == params.min_duration_ms,
        r.max_duration_ms == params.max_duration_ms,
        r.status == params.status,
        r.last_seconds == window_in(opt_text(params.last)),
        r.limit == params.limit,
        r.attributes == filters.exact,
        r.attributes_contains == filters.contains,
        r.attributes_regex == filters.regex,
        r.text == params.text,
        r.tenant == tenant,
        asks_for_spans(r, params, filters, tenant),
{
    let last_seconds = window(&params.last);
    TraceQuery {
        service: params.service,
        operation: params.operation,
        min_duration_ms: params.min_duration_ms,
        max_duration_ms: params.max_duration_ms,
        status: params.status,
        last_seconds,
        limit: params.limit,
        attributes: filters.exact,
        attributes_contains: filters.contains,
        attributes_regex: filters.regex,
        text: params.text,
        tenant,
    }
}

/// The parameters of a request for logs.
#[derive(Debug)]
pub struct LogQueryParams {
    pub service: Option<String>,
    pub severity: Option<String>,
    pub body_contains: Option<String>,
    pub trace_id: Option<String>,
    pub last: Option<String>,
    pub limit: Option<u32>,
}

/// The query for a request for logs.
pub fn log_query(params: LogQueryParams) -> (r: LogQuery)
    ensures
        r.service == params.service,
        r.severity == params.severity,
        r.body_contains == params.body_contains,
        r.trace_id == params.trace_id,
        r.last_seconds == window_in(opt_text(params.last)),
        r.limit == params.limit,
        r.tenant is None,
        asks_for_records(r, params),
{
    let last_seconds = window(&params.last);
    LogQuery {
        service: params.service,
        severity: params.severity,
        body_contains: params.body_contains,
        trace_id: params.trace_id,
        last_seconds,
        limit: params.limit,
        tenant: None,
    }
}

/// The parameters of a request for metric points.
#[derive(Debug)]
pub struct MetricQueryParams {
    pub service: Option<String>,
    pub name: Option<String>,
    pub metric_type: Option<String>,
    pub last: Option<String>,
    pub limit: Option<u32>,
}

/// The query for a request for metric points.
pub fn metric_query(params: MetricQueryParams) -> (r: MetricQuery)
    ensures
        r.service == params.service,
        r.name == params.name,
        r.metric_type == params.metric_type,
        r.last_seconds == window_in(opt_text(params.last)),
        r.limit == params.limit,
        r.tenant is None,
        asks_for_points(r, params),
{
    let last_seconds = window(&params.last);
    MetricQuery {
        service: params.service,
        name: params.name,
        metric_type: params.metric_type,
        last_seconds,
        limit: params.limit,
        tenant: None,
    }
}

// ── Laws ────────────────────────────────────────────────────────────

/// Whether a query for spans asks for what a request says.
pub open spec fn asks_for_spans(
    q: TraceQuery,
    p: TraceQueryParams,
    f: AttributeFilters,
    tenant: Option<String>,
) -> bool {
    &&& q.service == p.service && q.operation == p.operation && q.status == p.status
    &&& q.min_duration_ms == p.min_duration_ms && q.max_duration_ms == p.max_duration_ms
    &&& q.last_seconds == window_in(opt_text(p.last)) && q.limit == p.limit && q.text == p.text
    &&& q.attributes == f.exact && q.attributes_contains == f.contains && q.attributes_regex
        == f.regex
    &&& q.tenant == tenant
}

/// Whether a query for records asks for what a request says.
pub open spec fn asks_for_records(q: LogQuery, p: LogQueryParams) -> bool {
    &&& q.service == p.service && q.severity == p.severity && q.body_contains == p.body_contains
    &&& q.trace_id == p.trace_id && q.last_seconds == window_in(opt_text(p.last)) && q.limit
        == p.limit
    &&& q.tenant is None
}

/// Whether a query for points asks for what a request says.
pub open spec fn asks_for_points(q: MetricQuery, p: MetricQueryParams) -> bool {
    &&& q.service == p.service && q.name == p.name && q.metric_type == p.metric_type
    &&& q.last_seconds == window_in(opt_text(p.last)) && q.limit == p.limit
    &&& q.tenant is None
}

/// A request is passed on as it was made, each condition as itself: the shortest
/// and the longest duration, the exact, the held and the matched attributes. A
/// window in minutes asks for sixty times as many seconds.
pub proof fn requests_are_passed_on(
    q: TraceQuery,
    p: TraceQueryParams,
    f: AttributeFilters,
    tenant: Option<String>,
    n: nat,
)
    requires
        asks_for_spans(q, p, f, tenant),
        n <= 100_000_000_000_000,
    ensures
        q.min_duration_ms == p.min_duration_ms,
        q.max_duration_ms == p.max_duration_ms,
        q.service == p.service,
        q.operation == p.operation,
        q.status == p.status,
        q.limit == p.limit,
        q.text == p.text,
        q.tenant == tenant,
        q.attributes == f.exact,
        q.attributes_contains == f.contains,
        q.attributes_regex == f.regex,
        p.last is None ==> q.last_seconds is None,
        p.last matches Some(t) ==> (t@ == crate::text::decimal(n).push('m') ==> q.last_seconds
            == Some((60 * n) as i64)),
{
    crate::api::params::windows_read_as_written(n);
}

/// The same holds of requests for records and for points.
pub proof fn conditions_are_passed_on(
    q: LogQuery,
    p: LogQueryParams,
    m: MetricQuery,
    r: MetricQueryParams,
)
    requires
        asks_for_records(q, p),
        asks_for_points(m, r),
    ensures
        q.service == p.service && q.severity == p.severity && q.body_contains == p.body_contains
            && q.trace_id == p.trace_id && q.limit == p.limit,
        m.service == r.service && m.name == r.name && m.metric_type == r.metric_type && m.limit
            == r.limit,
        p.last is None ==> q.last_seconds is None,
        r.last is None ==> m.last_seconds is None,
{
}

} // verus!
