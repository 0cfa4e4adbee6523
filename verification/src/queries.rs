//! What a store is asked for.

use vstd::prelude::*;

verus! {

/// A query for spans. Durations are decimal numbers of milliseconds.
#[derive(Debug)]
pub struct TraceQuery {
    pub service: Option<String>,
    pub operation: Option<String>,
    pub min_duration_ms: Option<String>,
    pub max_duration_ms: Option<String>,
    pub status: Option<String>,
    pub last_seconds: Option<i64>,
    pub limit: Option<u32>,
    /// Attributes that must be equal to a value.
    pub attributes: Vec<(String, String)>,
    /// Attributes that must hold a text.
    pub attributes_contains: Vec<(String, String)>,
    /// Attributes that must match a pattern.
    pub attributes_regex: Vec<(String, String)>,
    pub text: Option<String>,
    pub tenant: Option<String>,
}

#[derive(Debug)]
pub struct LogQuery {
    pub service: Option<String>,
    pub severity: Option<String>,
    pub body_contains: Option<String>,
    pub trace_id: Option<String>,
    pub last_seconds: Option<i64>,
    pub limit: Option<u32>,
    pub tenant: Option<String>,
}

#[derive(Debug)]
pub struct MetricQuery {
    pub service: Option<String>,
    pub name: Option<String>,
    pub metric_type: Option<String>,
    pub last_seconds: Option<i64>,
    pub limit: Option<u32>,
    pub tenant: Option<String>,
}

impl TraceQuery {
    /// Whether the query filters nothing but by number.
    pub open spec fn is_everything(self) -> bool {
        &&& self.service is None
        &&& self.operation is None
        &&& self.min_duration_ms is None
        &&& self.max_duration_ms is None
        &&& self.status is None
        &&& self.last_seconds is None
        &&& self.attributes@.len() == 0
        &&& self.attributes_contains@.len() == 0
        &&& self.attributes_regex@.len() == 0
        &&& self.text is None
        &&& self.tenant is None
    }
}

impl Default for TraceQuery {
    fn default() -> (r: TraceQuery)
        ensures
            r.is_everything(),
            r.limit is None,
    {
        TraceQuery {
            service: None,
            operation: None,
            min_duration_ms: None,
            max_duration_ms: None,
            status: None,
            last_seconds: None,
            limit: None,
            attributes: Vec::new(),
            attributes_contains: Vec::new(),
            attributes_regex: Vec::new(),
            text: None,
            tenant: None,
        }
    }
}

impl LogQuery {
    /// Whether the query filters nothing but by number.
    pub open spec fn is_everything(self) -> bool {
        &&& self.service is None
        &&& self.severity is None
        &&& self.body_contains is None
        &&& self.trace_id is None
        &&& self.last_seconds is None
        &&& self.tenant is None
    }
}

impl Default for LogQuery {
    fn default() -> (r: LogQuery)
        ensures
            r.is_everything(),
            r.limit is None,
    {
        LogQuery {
            service: None,
            severity: None,
            body_contains: None,
            trace_id: None,
            last_seconds: None,
            limit: None,
            tenant: None,
        }
    }
}

impl MetricQuery {
    /// Whether the query filters nothing but by number.
    pub open spec fn is_everything(self) -> bool {
        &&& self.service is None
        &&& self.name is None
        &&& self.metric_type is None
        &&& self.last_seconds is None
        &&& self.tenant is None
    }
}

impl Default for MetricQuery {
    fn default() -> (r: MetricQuery)
        ensures
            r.is_everything(),
            r.limit is None,
    {
        MetricQuery {
            service: None,
            name: None,
            metric_type: None,
            last_seconds: None,
            limit: None,
            tenant: None,
        }
    }
}

} // verus!
