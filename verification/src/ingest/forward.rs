//! The ingest tier: export batches are split by shard and posted on, and
//! nothing is stored.

use crate::ingest::otlp::ResourceSpans;
use crate::ingest::otlp_http::ServiceCode;
use crate::ingest::otlp_logs::{OtelLog, ResourceLogs};
use crate::ingest::otlp_metrics::{metric_service_name, metric_service_of, OtelMetric, ResourceMetrics};
use crate::crypto::{hex_encode, hex_text};
use crate::grouping::{assigned, assigned_to, places_are_what_is_assigned};
use crate::ingest::otlp::OtelSpan;
use crate::text::{bytes_of, chars, decimal, decimal_u64, is_blank, opt_text, strip_trailing, text, texts, trim, trimmed};
use vstd::prelude::*;

verus! {

// ── Shard keys ──────────────────────────────────────────────────────

pub open spec fn span_key(s: OtelSpan) -> Seq<char> {
    hex_text(s.trace_id@)
}

/// A record with a trace goes with the trace; one without goes by service.
pub open spec fn log_key(service: Seq<char>, l: OtelLog) -> Seq<char> {
    if l.trace_id@.len() == 0 {
        service
    } else {
        hex_text(l.trace_id@)
    }
}

pub open spec fn key_views(v: Seq<Vec<String>>) -> Seq<Seq<Seq<char>>> {
    v.map_values(|k: Vec<String>| texts(k@))
}

/// The keys of the spans of each scope, scope by scope.
pub open spec fn span_keys_of(resources: Seq<ResourceSpans>) -> Seq<Seq<Seq<char>>>
    decreases resources.len(),
{
    if resources.len() == 0 {
        Seq::empty()
    } else {
        span_keys_of(resources.drop_last()) + resources.last().scope_spans@.map_values(
            |s: crate::ingest::otlp::ScopeSpans| s.spans@.map_values(|x: OtelSpan| span_key(x)),
        )
    }
}

pub open spec fn log_keys_of(resources: Seq<ResourceLogs>) -> Seq<Seq<Seq<char>>>
    decreases resources.len(),
{
    if resources.len() == 0 {
        Seq::empty()
    } else {
        let service = metric_service_of(resources.last().resource);
        log_keys_of(resources.drop_last()) + resources.last().scope_logs@.map_values(
            |s: crate::ingest::otlp_logs::ScopeLogs|
                s.log_records@.map_values(|x: OtelLog| log_key(service, x)),
        )
    }
}

pub open spec fn metric_keys_of(resources: Seq<ResourceMetrics>) -> Seq<Seq<Seq<char>>>
    decreases resources.len(),
{
    if resources.len() == 0 {
        Seq::empty()
    } else {
        metric_keys_of(resources.drop_last()) + resources.last().scope_metrics@.map_values(
            |s: crate::ingest::otlp_metrics::ScopeMetrics|
                s.metrics@.map_values(|x: OtelMetric| x.name@),
        )
    }
}

fn keys_of_spans(spans: &Vec<OtelSpan>) -> (r: Vec<String>)
    ensures
        texts(r@) == spans@.map_values(|x: OtelSpan| span_key(x)),
{
    let ghost wanted = spans@.map_values(|x: OtelSpan| span_key(x));
    let mut out: Vec<String> = Vec::new();
    let mut i: usize = 0;
    while i < spans.len()
        invariant
            i <= spans@.len(),
            wanted == spans@.map_values(|x: OtelSpan| span_key(x)),
            texts(out@) == wanted.take(i as int),
        decreases spans@.len() - i,
    {
        let ghost before = out@;
        let key = hex_encode(&spans[i].trace_id);
        assert(key@ == wanted[i as int]);
        out.push(key);
        assert(texts(out@) =~= texts(before).push(key@));
        i = i + 1;
        assert(texts(out@) =~= wanted.take(i as int));
    }
    assert(wanted.take(spans@.len() as int) =~= wanted);
    out
}

fn keys_of_logs(service: &String, logs: &Vec<OtelLog>) -> (r: Vec<String>)
    ensures
        texts(r@) == logs@.map_values(|x: OtelLog| log_key(service@, x)),
{
    let ghost wanted = logs@.map_values(|x: OtelLog| log_key(service@, x));
    let mut out: Vec<String> = Vec::new();
    let mut i: usize = 0;
    while i < logs.len()
        invariant
            i <= logs@.len(),
            wanted == logs@.map_values(|x: OtelLog| log_key(service@, x)),
            texts(out@) == wanted.take(i as int),
        decreases logs@.len() - i,
    {
        let ghost before = out@;
        let key = if logs[i].trace_id.len() == 0 {
            service.clone()
        } else {
            hex_encode(&logs[i].trace_id)
        };
        assert(key@ == wanted[i as int]);
        out.push(key);
        assert(texts(out@) =~= texts(before).push(key@));
        i = i + 1;
        assert(texts(out@) =~= wanted.take(i as int));
    }
    assert(wanted.take(logs@.len() as int) =~= wanted);
    out
}

fn keys_of_metrics(metrics: &Vec<OtelMetric>) -> (r: Vec<String>)
    ensures
        texts(r@) == metrics@.map_values(|x: OtelMetric| x.name@),
{
    let ghost wanted = metrics@.map_values(|x: OtelMetric| x.name@);
    let mut out: Vec<String> = Vec::new();
    let mut i: usize = 0;
    while i < metrics.len()
        invariant
            i <= metrics@.len(),
            wanted == metrics@.map_values(|x: OtelMetric| x.name@),
            texts(out@) == wanted.take(i as int),
        decreases metrics@.len() - i,
    {
        let ghost before = out@;
        let key = metrics[i].name.clone();
        assert(key@ == wanted[i as int]);
        out.push(key);
        assert(texts(out@) =~= texts(before).push(key@));
        i = i + 1;
        assert(texts(out@) =~= wanted.take(i as int));
    }
    assert(wanted.take(metrics@.len() as int) =~= wanted);
    out
}

/// The shard keys of a trace export, scope by scope: the trace of each span.
pub fn span_keys(resources: &Vec<ResourceSpans>) -> (r: Vec<Vec<String>>)
    ensures
        key_views(r@) == span_keys_of(resources@),
{
    let mut out: Vec<Vec<String>> = Vec::new();
    let mut i: usize = 0;
    assert(resources@.take(0) =~= Seq::<ResourceSpans>::empty());
    assert(key_views(out@) =~= Seq::<Seq<Seq<char>>>::empty());
    while i < resources.len()
        invariant
            i <= resources@.len(),
            key_views(out@) == span_keys_of(resources@.take(i as int)),
        decreases resources@.len() - i,
    {
        let ghost start = key_views(out@);
        let scopes = &resources[i].scope_spans;
        let ghost added = scopes@.map_values(
            |s: crate::ingest::otlp::ScopeSpans| s.spans@.map_values(|x: OtelSpan| span_key(x)),
        );
        let mut j: usize = 0;
        assert(start + added.take(0) =~= start);
        while j < scopes.len()
            invariant
                j <= scopes@.len(),
                added == scopes@.map_values(
                    |s: crate::ingest::otlp::ScopeSpans|
                        s.spans@.map_values(|x: OtelSpan| span_key(x)),
                ),
                key_views(out@) == start + added.take(j as int),
            decreases scopes@.len() - j,
        {
            let ghost before = out@;
            let keys = keys_of_spans(&scopes[j].spans);
            assert(texts(keys@) == added[j as int]);
            out.push(keys);
            assert(key_views(out@) =~= key_views(before).push(texts(keys@)));
            j = j + 1;
            assert(key_views(out@) =~= start + added.take(j as int));
        }
        proof {
            assert(added.take(scopes@.len() as int) =~= added);
            assert(resources@.take(i as int + 1).drop_last() =~= resources@.take(i as int));
            assert(resources@.take(i as int + 1).last() == resources@[i as int]);
        }
        i = i + 1;
    }
    assert(resources@.take(resources@.len() as int) =~= resources@);
    out
}

/// The shard keys of a log export, scope by scope: the trace of each record, or
/// the service where it has none.
pub fn log_keys(resources: &Vec<ResourceLogs>) -> (r: Vec<Vec<String>>)
    ensures
        key_views(r@) == log_keys_of(resources@),
{
    let mut out: Vec<Vec<String>> = Vec::new();
    let mut i: usize = 0;
    assert(resources@.take(0) =~= Seq::<ResourceLogs>::empty());
    assert(key_views(out@) =~= Seq::<Seq<Seq<char>>>::empty());
    while i < resources.len()
        invariant
            i <= resources@.len(),
            key_views(out@) == log_keys_of(resources@.take(i as int)),
        decreases resources@.len() - i,
    {
        let ghost start = key_views(out@);
        let service = metric_service_name(&resources[i].resource);
        let scopes = &resources[i].scope_logs;
        let ghost added = scopes@.map_values(
            |s: crate::ingest::otlp_logs::ScopeLogs|
                s.log_records@.map_values(|x: OtelLog| log_key(service@, x)),
        );
        let mut j: usize = 0;
        assert(start + added.take(0) =~= start);
        while j < scopes.len()
            invariant
                j <= scopes@.len(),
                added == scopes@.map_values(
                    |s: crate::ingest::otlp_logs::ScopeLogs|
                        s.log_records@.map_values(|x: OtelLog| log_key(service@, x)),
                ),
                key_views(out@) == start + added.take(j as int),
            decreases scopes@.len() - j,
        {
            let ghost before = out@;
            let keys = keys_of_logs(&service, &scopes[j].log_records);
            assert(texts(keys@) == added[j as int]);
            out.push(keys);
            assert(key_views(out@) =~= key_views(before).push(texts(keys@)));
            j = j + 1;
            assert(key_views(out@) =~= start + added.take(j as int));
        }
        proof {
            assert(added.take(scopes@.len() as int) =~= added);
            assert(resources@.take(i as int + 1).drop_last() =~= resources@.take(i as int));
            assert(resources@.take(i as int + 1).last() == resources@[i as int]);
        }
        i = i + 1;
    }
    assert(resources@.take(resources@.len() as int) =~= resources@);
    out
}

/// The shard keys of a metric export, scope by scope: the name of each metric,
/// so that a series stays whole on one shard.
pub fn metric_keys(resources: &Vec<ResourceMetrics>) -> (r: Vec<Vec<String>>)
    ensures
        key_views(r@) == metric_keys_of(resources@),
{
    let mut out: Vec<Vec<String>> = Vec::new();
    let mut i: usize = 0;
    assert(resources@.take(0) =~= Seq::<ResourceMetrics>::empty());
    assert(key_views(out@) =~= Seq::<Seq<Seq<char>>>::empty());
    while i < resources.len()
        invariant
            i <= resources@.len(),
            key_views(out@) == metric_keys_of(resources@.take(i as int)),
        decreases resources@.len() - i,
    {
        let ghost start = key_views(out@);
        let scopes = &resources[i].scope_metrics;
        let ghost added = scopes@.map_values(
            |s: crate::ingest::otlp_metrics::ScopeMetrics|
                s.metrics@.map_values(|x: OtelMetric| x.name@),
        );
        let mut j: usize = 0;
        assert(start + added.take(0) =~= start);
        while j < scopes.len()
            invariant
                j <= scopes@.len(),
                added == scopes@.map_values(
                    |s: crate::ingest::otlp_metrics::ScopeMetrics|
                        s.metrics@.map_values(|x: OtelMetric| x.name@),
                ),
                key_views(out@) == start + added.take(j as int),
            decreases scopes@.len() - j,
        {
            let ghost before = out@;
            let keys = keys_of_metrics(&scopes[j].metrics);
            assert(texts(keys@) == added[j as int]);
            out.push(keys);
            assert(key_views(out@) =~= key_views(before).push(texts(keys@)));
            j = j + 1;
            assert(key_views(out@) =~= start + added.take(j as int));
        }
        proof {
            assert(added.take(scopes@.len() as int) =~= added);
            assert(resources@.take(i as int + 1).drop_last() =~= resources@.take(i as int));
            assert(resources@.take(i as int + 1).last() == resources@[i as int]);
        }
        i = i + 1;
    }
    assert(resources@.take(resources@.len() as int) =~= resources@);
    out
}

// ── Splitting ───────────────────────────────────────────────────────

/// The items of a scope that go to a shard, by position.
#[derive(Debug)]
pub struct ScopeSlice {
    pub scope: usize,
    pub items: Vec<usize>,
}

impl View for ScopeSlice {
    type V = (int, Seq<int>);

    open spec fn view(&self) -> (int, Seq<int>) {
        (self.scope as int, self.items@.map_values(|i: usize| i as int))
    }
}

/// What a shard gets: of each scope, in order, the items that are assigned to
/// it; nothing of a scope that has none.
pub open spec fn shard_slices(shards: Seq<Vec<usize>>, shard: usize) -> Seq<(int, Seq<int>)>
    decreases shards.len(),
{
    if shards.len() == 0 {
        Seq::empty()
    } else {
        let before = shard_slices(shards.drop_last(), shard);
        let items = assigned(shards.last()@, shard);
        if items.len() == 0 {
            before
        } else {
            before.push((shards.len() - 1, items))
        }
    }
}

pub open spec fn slice_views(v: Seq<ScopeSlice>) -> Seq<(int, Seq<int>)> {
    v.map_values(|s: ScopeSlice| s@)
}

/// The number of items in all scopes.
pub open spec fn item_count(shards: Seq<Vec<usize>>) -> nat
    decreases shards.len(),
{
    if shards.len() == 0 {
        0
    } else {
        item_count(shards.drop_last()) + shards.last()@.len()
    }
}

fn slices_for(shards: &Vec<Vec<usize>>, shard: usize) -> (r: Vec<ScopeSlice>)
    ensures
        slice_views(r@) == shard_slices(shards@, shard),
{
    let mut out: Vec<ScopeSlice> = Vec::new();
    let mut i: usize = 0;
    assert(shards@.take(0) =~= Seq::<Vec<usize>>::empty());
    assert(slice_views(out@) =~= Seq::<(int, Seq<int>)>::empty());
    while i < shards.len()
        invariant
            i <= shards@.len(),
            slice_views(out@) == shard_slices(shards@.take(i as int), shard),
        decreases shards@.len() - i,
    {
        assert(shards@.take(i as int + 1).drop_last() =~= shards@.take(i as int));
        assert(shards@.take(i as int + 1).last() == shards@[i as int]);
        let items = assigned_to(&shards[i], shard);
        assert(items@.len() == assigned(shards@[i as int]@, shard).len());
        if items.len() > 0 {
            let ghost before = out@;
            let slice = ScopeSlice { scope: i, items };
            out.push(slice);
            assert(slice_views(out@) =~= slice_views(before).push(slice@));
        }
        i = i + 1;
    }
    assert(shards@.take(shards@.len() as int) =~= shards@);
    out
}

pub open spec fn split_views(v: Seq<Vec<ScopeSlice>>) -> Seq<Seq<(int, Seq<int>)>> {
    v.map_values(|s: Vec<ScopeSlice>| slice_views(s@))
}

/// The FNV-1a hash of some bytes.
pub open spec fn key_hash(bytes: Seq<u8>) -> u64
    decreases bytes.len(),
{
    if bytes.len() == 0 {
        0xcbf2_9ce4_8422_2325
    } else {
        (key_hash(bytes.drop_last()) ^ (bytes.last() as u64)).wrapping_mul(0x0100_0000_01b3)
    }
}

/// The shard that owns a key, among so many.
pub open spec fn shard_of(key: Seq<char>, n: int) -> int {
    key_hash(vstd::utf8::encode_utf8(key)) as int % n
}

/// The shard that owns a key: the same on every node that counts the same
/// shards.
pub fn shard_index(key: &str, n: usize) -> (r: usize)
    requires
        n > 0,
    ensures
        r == shard_of(key@, n as int),
        r < n,
{
    let v = bytes_of(key);
    let mut hash: u64 = 0xcbf2_9ce4_8422_2325;
    let mut i: usize = 0;
    assert(v@.take(0) =~= Seq::<u8>::empty());
    while i < v.len()
        invariant
            i <= v@.len(),
            hash == key_hash(v@.take(i as int)),
        decreases v@.len() - i,
    {
        assert(v@.take(i as int + 1).drop_last() =~= v@.take(i as int));
        hash = (hash ^ (v[i] as u64)).wrapping_mul(0x0100_0000_01b3);
        i = i + 1;
    }
    assert(v@.take(v@.len() as int) =~= v@);
    (hash % (n as u64)) as usize
}

/// Split an export over `n` shards, given the shard of each item of each
/// scope. The result has one entry for each shard; an empty one means that
/// nothing goes there.
pub fn split(shards: &Vec<Vec<usize>>, n: usize) -> (r: Vec<Vec<ScopeSlice>>)
    ensures
        split_views(r@) == Seq::new(n as nat, |k: int| shard_slices(shards@, k as usize)),
{
    let mut out: Vec<Vec<ScopeSlice>> = Vec::new();
    let mut k: usize = 0;
    while k < n
        invariant
            k <= n,
            split_views(out@) == Seq::new(k as nat, |k: int| shard_slices(shards@, k as usize)),
        decreases n - k,
    {
        let ghost before = out@;
        let slices = slices_for(shards, k);
        out.push(slices);
        assert(split_views(out@) =~= split_views(before).push(slice_views(slices@)));
        k = k + 1;
        assert(split_views(out@) =~= Seq::new(
            k as nat,
            |k: int| shard_slices(shards@, k as usize),
        ));
    }
    out
}

/// The items of a scope that a shard owns, by position.
pub open spec fn owned(keys: Seq<Seq<char>>, shard: int, n: int) -> Seq<int>
    decreases keys.len(),
{
    if keys.len() == 0 {
        Seq::empty()
    } else if shard_of(keys.last(), n) == shard {
        owned(keys.drop_last(), shard, n).push(keys.len() - 1)
    } else {
        owned(keys.drop_last(), shard, n)
    }
}

/// What a shard gets: of each scope, in order, the items whose keys it owns;
/// nothing of a scope in which it owns none.
pub open spec fn key_slices(keys: Seq<Seq<Seq<char>>>, shard: int, n: int) -> Seq<(int, Seq<int>)>
    decreases keys.len(),
{
    if keys.len() == 0 {
        Seq::empty()
    } else {
        let before = key_slices(keys.drop_last(), shard, n);
        let items = owned(keys.last(), shard, n);
        if items.len() == 0 {
            before
        } else {
            before.push((keys.len() - 1, items))
        }
    }
}

/// Whether places are the shards of some keys.
spec fn places(keys: Seq<Seq<char>>, shards: Seq<usize>, n: int) -> bool {
    &&& shards.len() == keys.len()
    &&& forall|i: int| 0 <= i < keys.len() ==> #[trigger] shards[i] == shard_of(keys[i], n)
}

proof fn owned_is_assigned(keys: Seq<Seq<char>>, shards: Seq<usize>, shard: usize, n: int)
    requires
        places(keys, shards, n),
    ensures
        owned(keys, shard as int, n) == assigned(shards, shard),
    decreases keys.len(),
{
    if keys.len() > 0 {
        assert(places(keys.drop_last(), shards.drop_last(), n));
        owned_is_assigned(keys.drop_last(), shards.drop_last(), shard, n);
        assert(shards[keys.len() - 1] == shard_of(keys[keys.len() - 1], n));
    }
}

proof fn key_slices_are_shard_slices(
    keys: Seq<Seq<Seq<char>>>,
    shards: Seq<Vec<usize>>,
    shard: usize,
    n: int,
)
    requires
        keys.len() == shards.len(),
        forall|i: int| 0 <= i < keys.len() ==> #[trigger] places(keys[i], shards[i]@, n),
    ensures
        key_slices(keys, shard as int, n) == shard_slices(shards, shard),
    decreases keys.len(),
{
    if keys.len() > 0 {
        let fewer = keys.drop_last();
        let rest = shards.drop_last();
        assert forall|i: int| 0 <= i < fewer.len() implies #[trigger] places(
            fewer[i],
            rest[i]@,
            n,
        ) by {
            assert(places(keys[i], shards[i]@, n));
        }
        key_slices_are_shard_slices(fewer, rest, shard, n);
        assert(places(keys[keys.len() - 1], shards[keys.len() - 1]@, n));
        owned_is_assigned(keys.last(), shards.last()@, shard, n);
    }
}

fn places_of(keys: &Vec<String>, n: usize) -> (r: Vec<usize>)
    requires
        n > 0,
    ensures
        places(texts(keys@), r@, n as int),
{
    let mut out: Vec<usize> = Vec::new();
    let mut i: usize = 0;
    while i < keys.len()
        invariant
            n > 0,
            i <= keys@.len(),
            out@.len() == i,
            forall|j: int|
                0 <= j < i ==> #[trigger] out@[j] == shard_of(texts(keys@)[j], n as int),
        decreases keys@.len() - i,
    {
        let shard: usize = shard_index(keys[i].as_str(), n);
        out.push(shard);
        i = i + 1;
    }
    out
}

/// Split an export over `n` shards by the keys of its items, scope by scope.
/// The result has one entry for each shard; an empty one means that nothing
/// goes there.
pub fn split_keys(keys: &Vec<Vec<String>>, n: usize) -> (r: Vec<Vec<ScopeSlice>>)
    requires
        n > 0,
    ensures
        split_views(r@) == Seq::new(
            n as nat,
            |k: int| key_slices(key_views(keys@), k, n as int),
        ),
{
    let mut shards: Vec<Vec<usize>> = Vec::new();
    let mut i: usize = 0;
    while i < keys.len()
        invariant
            n > 0,
            i <= keys@.len(),
            shards@.len() == i,
            forall|j: int|
                0 <= j < i ==> #[trigger] places(key_views(keys@)[j], shards@[j]@, n as int),
        decreases keys@.len() - i,
    {
        let row = places_of(&keys[i], n);
        assert(key_views(keys@)[i as int] == texts(keys@[i as int]@));
        shards.push(row);
        i = i + 1;
    }
    let r = split(&shards, n);
    proof {
        let wanted = Seq::new(n as nat, |k: int| key_slices(key_views(keys@), k, n as int));
        assert forall|k: int| 0 <= k < n implies split_views(r@)[k] == wanted[k] by {
            key_slices_are_shard_slices(key_views(keys@), shards@, k as usize, n as int);
        }
        assert(split_views(r@) =~= wanted);
    }
    r
}

// ── The forwarder ───────────────────────────────────────────────────

/// The client's raw `Authorization` header, kept so that it can be passed on.
#[derive(Debug)]
pub struct ForwardAuth(pub String);

/// Where slices are posted, and with which credentials where the client sent
/// none.
#[derive(Debug)]
pub struct OtlpForwarder {
    shards: Vec<String>,
    default_auth: Option<String>,
}

/// Forwarding needs at least one shard.
#[derive(Debug, Clone, Copy, PartialEq, Eq, Structural)]
pub struct NoShards;

impl NoShards {
    pub fn message(&self) -> (r: String)
        ensures
            r@ == "ingest forwarding requires at least one shard URL"@,
    {
        "ingest forwarding requires at least one shard URL".to_owned()
    }
}

/// The credentials that stand in for a client's: the configured key, where it
/// is not blank.
pub open spec fn fallback_auth(key: Option<Seq<char>>) -> Option<Seq<char>> {
    match key {
        Some(k) => if trimmed(k).len() == 0 {
            None
        } else {
            Some("Bearer "@ + trimmed(k))
        },
        None => None,
    }
}

fn trim_slashes(s: &str) -> (r: String)
    ensures
        r@ == strip_trailing(s@, '/'),
{
    let v = chars(s);
    let mut to: usize = v.len();
    assert(v@.take(to as int) =~= v@);
    while to > 0 && v[to - 1] == '/'
        invariant
            to <= v@.len(),
            strip_trailing(v@, '/') == strip_trailing(v@.take(to as int), '/'),
        decreases to,
    {
        assert(v@.take(to as int).drop_last() =~= v@.take(to as int - 1));
        to = to - 1;
    }
    let r = text(&v, 0, to);
    assert(r@ =~= v@.take(to as int));
    r
}

impl OtlpForwarder {
    /// The base URLs of the shards.
    pub closed spec fn urls(self) -> Seq<Seq<char>> {
        texts(self.shards@)
    }

    /// The credentials that stand in where the client sent none.
    pub closed spec fn fallback(self) -> Option<Seq<char>> {
        opt_text(self.default_auth)
    }

    /// A forwarder to some shards, with the configured fallback key.
    pub fn new(shards: &Vec<String>, key: &Option<String>) -> (r: Result<OtlpForwarder, NoShards>)
        ensures
            match r {
                Ok(f) => {
                    &&& shards@.len() > 0
                    &&& f.urls() == texts(shards@).map_values(
                        |u: Seq<char>| strip_trailing(u, '/'),
                    )
                    &&& f.fallback() == fallback_auth(opt_text(*key))
                },
                Err(_) => shards@.len() == 0,
            },
    {
        if shards.len() == 0 {
            return Err(NoShards);
        }
        let ghost wanted = texts(shards@).map_values(|u: Seq<char>| strip_trailing(u, '/'));
        let mut urls: Vec<String> = Vec::new();
        let mut i: usize = 0;
        while i < shards.len()
            invariant
                i <= shards@.len(),
                wanted == texts(shards@).map_values(|u: Seq<char>| strip_trailing(u, '/')),
                texts(urls@) == wanted.take(i as int),
            decreases shards@.len() - i,
        {
            let ghost before = urls@;
            let url = trim_slashes(shards[i].as_str());
            assert(texts(shards@)[i as int] == shards@[i as int]@);
            assert(url@ == wanted[i as int]);
            urls.push(url);
            assert(texts(urls@) =~= texts(before).push(url@));
            i = i + 1;
            assert(texts(urls@) =~= wanted.take(i as int));
        }
        assert(wanted.take(shards@.len() as int) =~= wanted);
        let default_auth = match key {
            Some(k) => if is_blank(k.as_str()) {
                None
            } else {
                let mut auth = "Bearer ".to_owned();
                auth.append(trim(k.as_str()).as_str());
                Some(auth)
            },
            None => None,
        };
        Ok(OtlpForwarder { shards: urls, default_auth })
    }

    pub fn shard_count(&self) -> (r: usize)
        ensures
            r == self.urls().len(),
    {
        self.shards.len()
    }

    /// The URL of a path on a shard.
    pub fn url(&self, shard: usize, path: &str) -> (r: String)
        requires
            shard < self.urls().len(),
        ensures
            r@ == self.urls()[shard as int] + path@,
    {
        let mut url = self.shards[shard].clone();
        url.append(path);
        url
    }

    /// The credentials to post with: the client's, or the ones that stand in.
    pub fn auth(&self, client: &Option<String>) -> (r: Option<String>)
        ensures
            opt_text(r) == match *client {
                Some(c) => Some(c@),
                None => self.fallback(),
            },
    {
        match client {
            Some(c) => Some(c.clone()),
            None => match &self.default_auth {
                Some(d) => Some(d.clone()),
                None => None,
            },
        }
    }
}

/// The client's credentials: the kept HTTP header, or the gRPC metadata.
pub fn forward_auth(kept: &Option<ForwardAuth>, metadata: &Option<String>) -> (r: Option<String>)
    ensures
        opt_text(r) == match *kept {
            Some(a) => Some(a.0@),
            None => opt_text(*metadata),
        },
{
    match kept {
        Some(a) => Some(a.0.clone()),
        None => match metadata {
            Some(m) => Some(m.clone()),
            None => None,
        },
    }
}

/// What a shard's answer means for the exporter.
#[derive(Debug)]
pub struct Refusal {
    pub code: ServiceCode,
    pub message: String,
}

/// The code that a shard's HTTP status is reported as. A full shard is
/// retryable.
pub open spec fn refusal_code(status: u16) -> ServiceCode {
    if status == 401 {
        ServiceCode::Unauthenticated
    } else if status == 403 {
        ServiceCode::PermissionDenied
    } else if status == 429 || status == 503 {
        ServiceCode::ResourceExhausted
    } else {
        ServiceCode::Internal
    }
}

pub open spec fn refusal_text(
    status: u16,
    status_text: Seq<char>,
    url: Seq<char>,
    body: Seq<char>,
) -> Seq<char> {
    if status == 401 || status == 403 {
        "shard "@ + url + ": "@ + body
    } else if status == 429 || status == 503 {
        "shard "@ + url + " at capacity: "@ + body + "; retry"@
    } else {
        "shard "@ + url + " returned "@ + status_text + ": "@ + body
    }
}

/// Judge a shard's answer to a slice: any 2xx status accepts it. `status_text`
/// is the status as it is shown to people.
pub fn judge_answer(status: u16, status_text: &str, url: &str, body: &str) -> (r: Result<(), Refusal>)
    ensures
        match r {
            Ok(_) => 200 <= status < 300,
            Err(refusal) => {
                &&& !(200 <= status < 300)
                &&& refusal.code == refusal_code(status)
                &&& refusal.message@ == refusal_text(status, status_text@, url@, body@)
            },
        },
{
    if 200 <= status && status < 300 {
        return Ok(());
    }
    let mut message = "shard ".to_owned();
    message.append(url);
    if status == 401 || status == 403 {
        message.append(": ");
        message.append(body);
        let code = if status == 401 {
            ServiceCode::Unauthenticated
        } else {
            ServiceCode::PermissionDenied
        };
        return Err(Refusal { code, message });
    }
    if status == 429 || status == 503 {
        message.append(" at capacity: ");
        message.append(body);
        message.append("; retry");
        return Err(Refusal { code: ServiceCode::ResourceExhausted, message });
    }
    message.append(" returned ");
    message.append(status_text);
    message.append(": ");
    message.append(body);
    Err(Refusal { code: ServiceCode::Internal, message })
}

// ── The node behind it ──────────────────────────────────────────────

/// What an ingest-only node has in place of a store: every operation is
/// refused with an explanation.
#[derive(Debug)]
pub struct IngestOnlyStore {
    pub shards: Vec<String>,
    pub message: String,
}

pub open spec fn ingest_only() -> Seq<char> {
    "this node is ingest-only (TAEL_NODE_ROLE=ingest): it accepts and forwards OTLP but serves no queries and stores nothing. Query a storage shard or a query-tier node (TAEL_QUERY_SHARDS) instead; point dd-trace and Prometheus remote-write directly at a storage node."@
}

impl IngestOnlyStore {
    pub fn new(shard_urls: Vec<String>) -> (r: IngestOnlyStore)
        ensures
            r.shards == shard_urls,
            r.message@ == ingest_only(),
    {
        Self::with_message(
            shard_urls,
            "this node is ingest-only (TAEL_NODE_ROLE=ingest): it accepts and forwards OTLP but serves no queries and stores nothing. Query a storage shard or a query-tier node (TAEL_QUERY_SHARDS) instead; point dd-trace and Prometheus remote-write directly at a storage node.".to_owned(),
        )
    }

    /// The same refusal with an explanation of its own.
    pub fn with_message(shard_urls: Vec<String>, message: String) -> (r: IngestOnlyStore)
        ensures
            r.shards == shard_urls,
            r.message == message,
    {
        IngestOnlyStore { shards: shard_urls, message }
    }

    /// Whether the node is ready, given which shards answered. It is while one
    /// shard is reachable, and always where none is configured.
    pub fn health(&self, reachable: &Vec<bool>) -> (r: Result<(), String>)
        requires
            reachable@.len() == self.shards@.len(),
        ensures
            match r {
                Ok(_) => self.shards@.len() == 0 || reachable@.contains(true),
                Err(e) => {
                    &&& self.shards@.len() > 0
                    &&& !reachable@.contains(true)
                    &&& e@ == "no reachable ingest shards ("@ + decimal(self.shards@.len())
                        + " configured)"@
                },
            },
    {
        if self.shards.len() == 0 {
            return Ok(());
        }
        let mut i: usize = 0;
        while i < reachable.len()
            invariant
                i <= reachable@.len(),
                forall|j: int| 0 <= j < i ==> !#[trigger] reachable@[j],
            decreases reachable@.len() - i,
        {
            if reachable[i] {
                assert(reachable@.contains(true)) by {
                    assert(reachable@[i as int]);
                }
                return Ok(());
            }
            i = i + 1;
        }
        let mut e = "no reachable ingest shards (".to_owned();
        e.append(decimal_u64(self.shards.len() as u64).as_str());
        e.append(" configured)");
        Err(e)
    }
}

// ── Laws ────────────────────────────────────────────────────────────

/// An item of a scope reaches the shard it is assigned to, and no other.
pub proof fn every_item_reaches_its_shard(shards: Seq<Vec<usize>>, scope: int, item: int, shard: usize)
    requires
        0 <= scope < shards.len(),
        0 <= item < shards[scope]@.len(),
    ensures
        (exists|s: int|
            0 <= s < shard_slices(shards, shard).len() && (#[trigger] shard_slices(
                shards,
                shard,
            )[s]).0 == scope && shard_slices(shards, shard)[s].1.contains(item)) <==> shards[scope]@[
            item] == shard,
    decreases shards.len(),
{
    let all = shard_slices(shards, shard);
    let init = shard_slices(shards.drop_last(), shard);
    let items = assigned(shards.last()@, shard);
    slices_name_scopes(shards, shard);
    slices_name_scopes(shards.drop_last(), shard);
    places_are_what_is_assigned(shards.last()@, shard);
    if scope < shards.len() - 1 {
        every_item_reaches_its_shard(shards.drop_last(), scope, item, shard);
        if shards[scope]@[item] == shard {
            let s = choose|s: int|
                0 <= s < init.len() && (#[trigger] init[s]).0 == scope && init[s].1.contains(item);
            assert(all[s] == init[s]);
        }
        if exists|s: int|
            0 <= s < all.len() && (#[trigger] all[s]).0 == scope && all[s].1.contains(item) {
            let s = choose|s: int|
                0 <= s < all.len() && (#[trigger] all[s]).0 == scope && all[s].1.contains(item);
            assert(s < init.len());
            assert(init[s] == all[s]);
        }
    } else {
        if shards[scope]@[item] == shard {
            assert(items.contains(item));
            assert(all[all.len() - 1] == (scope, items));
        }
        if exists|s: int|
            0 <= s < all.len() && (#[trigger] all[s]).0 == scope && all[s].1.contains(item) {
            let s = choose|s: int|
                0 <= s < all.len() && (#[trigger] all[s]).0 == scope && all[s].1.contains(item);
            if s < init.len() {
                assert(init[s] == all[s]);
                assert(init[s].0 < shards.len() - 1);
            }
            let k = choose|k: int| 0 <= k < all[s].1.len() && all[s].1[k] == item;
            assert(assigned(shards.last()@, shard)[k] == item);
        }
    }
}

/// Whether a shard gets an item of a scope.
pub open spec fn gets(shards: Seq<Vec<usize>>, shard: usize, scope: int, item: int) -> bool {
    exists|s: int|
        0 <= s < shard_slices(shards, shard).len() && (#[trigger] shard_slices(shards, shard)[s]).0
            == scope && shard_slices(shards, shard)[s].1.contains(item)
}

/// What has one key stays together, across scopes and resources: where the
/// shard of an item depends on its key alone, a shard gets either all the items
/// with a key or none of them. So a trace is whole on one shard.
pub proof fn a_key_stays_on_one_shard(
    keys: Seq<Seq<Seq<char>>>,
    shards: Seq<Vec<usize>>,
    shard_of: spec_fn(Seq<char>) -> usize,
    a: (int, int),
    b: (int, int),
    shard: usize,
)
    requires
        keys.len() == shards.len(),
        forall|s: int| 0 <= s < keys.len() ==> (#[trigger] keys[s]).len() == shards[s]@.len(),
        forall|s: int, i: int|
            0 <= s < keys.len() && 0 <= i < keys[s].len() ==> #[trigger] shards[s]@[i] == shard_of(
                keys[s][i],
            ),
        0 <= a.0 < keys.len() && 0 <= a.1 < keys[a.0].len(),
        0 <= b.0 < keys.len() && 0 <= b.1 < keys[b.0].len(),
        keys[a.0][a.1] == keys[b.0][b.1],
    ensures
        gets(shards, shard, a.0, a.1) == gets(shards, shard, b.0, b.1),
{
    every_item_reaches_its_shard(shards, a.0, a.1, shard);
    every_item_reaches_its_shard(shards, b.0, b.1, shard);
    assert(shards[a.0]@[a.1] == shards[b.0]@[b.1]);
}

/// A shard is handed exactly the items whose keys it owns.
pub proof fn shards_get_what_they_own(keys: Seq<Seq<char>>, shard: int, n: int, item: int)
    ensures
        owned(keys, shard, n).contains(item) <==> 0 <= item < keys.len() && shard_of(
            keys[item],
            n,
        ) == shard,
    decreases keys.len(),
{
    if keys.len() > 0 {
        let before = owned(keys.drop_last(), shard, n);
        shards_get_what_they_own(keys.drop_last(), shard, n, item);
        let all = owned(keys, shard, n);
        if shard_of(keys.last(), n) == shard {
            assert(all == before.push(keys.len() - 1));
            assert(all[before.len() as int] == keys.len() - 1);
            if before.contains(item) {
                let k = choose|k: int| 0 <= k < before.len() && before[k] == item;
                assert(all[k] == item);
            }
            if all.contains(item) && item != keys.len() - 1 {
                let k = choose|k: int| 0 <= k < all.len() && all[k] == item;
                assert(before[k] == item);
            }
        }
    }
}

proof fn slices_name_scopes(shards: Seq<Vec<usize>>, shard: usize)
    ensures
        forall|s: int|
            0 <= s < shard_slices(shards, shard).len() ==> 0 <= (#[trigger] shard_slices(
                shards,
                shard,
            )[s]).0 < shards.len(),
    decreases shards.len(),
{
    if shards.len() > 0 {
        slices_name_scopes(shards.drop_last(), shard);
        let init = shard_slices(shards.drop_last(), shard);
        assert forall|s: int| 0 <= s < shard_slices(shards, shard).len() implies 0 <= (
        #[trigger] shard_slices(shards, shard)[s]).0 < shards.len() by {
            if s < init.len() {
                assert(shard_slices(shards, shard)[s] == init[s]);
            }
        }
    }
}

/// The number of items that go to a shard.
pub open spec fn slice_items(slices: Seq<(int, Seq<int>)>) -> nat
    decreases slices.len(),
{
    if slices.len() == 0 {
        0
    } else {
        slice_items(slices.drop_last()) + slices.last().1.len()
    }
}

/// The number of items that go to the first `n` shards.
pub open spec fn sent_items(shards: Seq<Vec<usize>>, n: nat) -> nat
    decreases n,
{
    if n == 0 {
        0
    } else {
        sent_items(shards, (n - 1) as nat) + slice_items(
            shard_slices(shards, (n - 1) as usize),
        )
    }
}

/// A split drops nothing and duplicates nothing: over all shards as many items
/// go out as came in.
pub proof fn nothing_is_lost_or_duplicated(shards: Seq<Vec<usize>>, n: usize)
    requires
        forall|s: int, i: int|
            0 <= s < shards.len() && 0 <= i < shards[s]@.len() ==> #[trigger] shards[s]@[i] < n,
    ensures
        sent_items(shards, n as nat) == item_count(shards),
    decreases shards.len(),
{
    if shards.len() == 0 {
        no_scopes_no_items(shards, n as nat);
    } else {
        let init = shards.drop_last();
        assert forall|s: int, i: int| 0 <= s < init.len() && 0 <= i < init[s]@.len() implies
            #[trigger] init[s]@[i] < n by {
            assert(shards[s]@[i] < n);
        }
        nothing_is_lost_or_duplicated(init, n);
        one_more_scope(shards, n as nat);
        assert forall|i: int| 0 <= i < shards.last()@.len() implies #[trigger] shards.last()@[i]
            < n by {
            assert(shards[shards.len() - 1]@[i] < n);
        }
        shares_add_up(shards.last()@, n);
    }
}

proof fn no_scopes_no_items(shards: Seq<Vec<usize>>, n: nat)
    requires
        shards.len() == 0,
    ensures
        sent_items(shards, n) == 0,
    decreases n,
{
    if n > 0 {
        no_scopes_no_items(shards, (n - 1) as nat);
    }
}

/// The number of positions assigned to the first `n` shards.
spec fn shares(shards: Seq<usize>, n: nat) -> nat
    decreases n,
{
    if n == 0 {
        0
    } else {
        shares(shards, (n - 1) as nat) + assigned(shards, (n - 1) as usize).len()
    }
}

proof fn one_more_scope(shards: Seq<Vec<usize>>, n: nat)
    requires
        shards.len() > 0,
    ensures
        sent_items(shards, n) == sent_items(shards.drop_last(), n) + shares(shards.last()@, n),
    decreases n,
{
    if n > 0 {
        one_more_scope(shards, (n - 1) as nat);
        let k = (n - 1) as usize;
        let before = shard_slices(shards.drop_last(), k);
        let items = assigned(shards.last()@, k);
        if items.len() > 0 {
            assert(shard_slices(shards, k).drop_last() =~= before);
        }
    }
}

proof fn shares_add_up(shards: Seq<usize>, n: usize)
    requires
        forall|i: int| 0 <= i < shards.len() ==> #[trigger] shards[i] < n,
    ensures
        shares(shards, n as nat) == shards.len(),
    decreases shards.len(),
{
    if shards.len() == 0 {
        empty_shares(shards, n as nat);
    } else {
        let init = shards.drop_last();
        assert forall|i: int| 0 <= i < init.len() implies #[trigger] init[i] < n by {
            assert(shards[i] < n);
        }
        shares_add_up(init, n);
        one_more_item(shards, n as nat);
    }
}

proof fn empty_shares(shards: Seq<usize>, n: nat)
    requires
        shards.len() == 0,
    ensures
        shares(shards, n) == 0,
    decreases n,
{
    if n > 0 {
        empty_shares(shards, (n - 1) as nat);
    }
}

proof fn one_more_item(shards: Seq<usize>, n: nat)
    requires
        shards.len() > 0,
        n <= usize::MAX,
    ensures
        shares(shards, n) == shares(shards.drop_last(), n) + if shards.last() < n {
            1nat
        } else {
            0
        },
    decreases n,
{
    if n > 0 {
        one_more_item(shards, (n - 1) as nat);
    }
}

/// Spans and logs of one trace have one key, the id of the trace; a log without a
/// trace goes by its service.
pub proof fn traces_and_their_logs_share_a_key(service: Seq<char>, s: OtelSpan, l: OtelLog)
    ensures
        l.trace_id@.len() > 0 ==> (log_key(service, l) == span_key(s) <==> l.trace_id@
            == s.trace_id@),
        l.trace_id@.len() == 0 ==> log_key(service, l) == service,
        span_key(s) == crate::ingest::otlp::span_of(service, s).trace_id,
{
    crate::crypto::hex_reads_back(l.trace_id@, s.trace_id@);
}

/// Each scope of a request has its keys, one for each of its items in order: of a
/// span its trace, of a log its trace or its service, of a metric its name.
pub proof fn keys_are_those_of_the_items(
    spans: Seq<ResourceSpans>,
    logs: Seq<ResourceLogs>,
    metrics: Seq<ResourceMetrics>,
    r: int,
    s: int,
)
    ensures
        0 <= r < spans.len() && 0 <= s < spans[r].scope_spans@.len() ==> span_keys_of(
            spans,
        ).contains(spans[r].scope_spans@[s].spans@.map_values(|x: OtelSpan| span_key(x))),
        0 <= r < logs.len() && 0 <= s < logs[r].scope_logs@.len() ==> log_keys_of(logs).contains(
            logs[r].scope_logs@[s].log_records@.map_values(
                |x: OtelLog| log_key(metric_service_of(logs[r].resource), x),
            ),
        ),
        0 <= r < metrics.len() && 0 <= s < metrics[r].scope_metrics@.len() ==> metric_keys_of(
            metrics,
        ).contains(metrics[r].scope_metrics@[s].metrics@.map_values(|x: OtelMetric| x.name@)),
    decreases spans.len() + logs.len() + metrics.len(),
{
    if 0 <= r < spans.len() && 0 <= s < spans[r].scope_spans@.len() {
        let (head, tail) = (
            span_keys_of(spans.drop_last()),
            spans.last().scope_spans@.map_values(
                |s: crate::ingest::otlp::ScopeSpans| s.spans@.map_values(|x: OtelSpan| span_key(x)),
            ),
        );
        let keys = spans[r].scope_spans@[s].spans@.map_values(|x: OtelSpan| span_key(x));
        if r == spans.len() - 1 {
            assert(tail[s] == keys);
            assert((head + tail)[head.len() + s] == keys);
        } else {
            keys_are_those_of_the_items(spans.drop_last(), Seq::empty(), Seq::empty(), r, s);
            let i = choose|i: int| 0 <= i < head.len() && head[i] == keys;
            assert((head + tail)[i] == keys);
        }
    }
    if 0 <= r < logs.len() && 0 <= s < logs[r].scope_logs@.len() {
        let service = metric_service_of(logs.last().resource);
        let (head, tail) = (
            log_keys_of(logs.drop_last()),
            logs.last().scope_logs@.map_values(
                |s: crate::ingest::otlp_logs::ScopeLogs|
                    s.log_records@.map_values(|x: OtelLog| log_key(service, x)),
            ),
        );
        let keys = logs[r].scope_logs@[s].log_records@.map_values(
            |x: OtelLog| log_key(metric_service_of(logs[r].resource), x),
        );
        if r == logs.len() - 1 {
            assert(tail[s] =~= keys);
            assert((head + tail)[head.len() + s] == keys);
        } else {
            keys_are_those_of_the_items(Seq::empty(), logs.drop_last(), Seq::empty(), r, s);
            assert(logs.drop_last()[r] == logs[r]);
            let i = choose|i: int| 0 <= i < head.len() && head[i] == keys;
            assert((head + tail)[i] == keys);
        }
    }
    if 0 <= r < metrics.len() && 0 <= s < metrics[r].scope_metrics@.len() {
        let (head, tail) = (
            metric_keys_of(metrics.drop_last()),
            metrics.last().scope_metrics@.map_values(
                |s: crate::ingest::otlp_metrics::ScopeMetrics|
                    s.metrics@.map_values(|x: OtelMetric| x.name@),
            ),
        );
        let keys = metrics[r].scope_metrics@[s].metrics@.map_values(|x: OtelMetric| x.name@);
        if r == metrics.len() - 1 {
            assert(tail[s] == keys);
            assert((head + tail)[head.len() + s] == keys);
        } else {
            keys_are_those_of_the_items(Seq::empty(), Seq::empty(), metrics.drop_last(), r, s);
            let i = choose|i: int| 0 <= i < head.len() && head[i] == keys;
            assert((head + tail)[i] == keys);
        }
    }
}

/// The hash of a key starts from the offset basis and takes in one byte after the
/// other: the byte is mixed in, then the whole is multiplied by the prime. Every
/// key has a shard.
pub proof fn keys_are_hashed_byte_by_byte(bytes: Seq<u8>, b: u8, key: Seq<char>, n: int)
    requires
        n > 0,
    ensures
        key_hash(Seq::empty()) == 14695981039346656037,
        key_hash(bytes.push(b)) == (key_hash(bytes) ^ (b as u64)).wrapping_mul(1099511628211),
        0 <= shard_of(key, n) < n,
        n == 1 ==> shard_of(key, n) == 0,
{
    assert(bytes.push(b).drop_last() =~= bytes);
    vstd::arithmetic::div_mod::lemma_mod_bound(key_hash(vstd::utf8::encode_utf8(key)) as int, n);
}

/// A key that is set is sent as a bearer token without the space around it; a
/// blank one is none.
pub proof fn keys_are_sent_as_bearer_tokens(k: Seq<char>)
    ensures
        fallback_auth(None) is None,
        trimmed(k).len() == 0 ==> fallback_auth(Some(k)) is None,
        trimmed(k).len() > 0 ==> fallback_auth(Some(k)) == Some("Bearer "@ + trimmed(k)),
{
}

/// A shard's refusal is passed on as what it is: who asks for credentials or
/// denies them does so here too, and one at capacity asks to try again; whatever
/// else fails is this node's fault.
pub proof fn refusals_are_passed_on(status: u16)
    ensures
        refusal_code(status) == ServiceCode::Unauthenticated <==> status == 401,
        refusal_code(status) == ServiceCode::PermissionDenied <==> status == 403,
        refusal_code(status) == ServiceCode::ResourceExhausted <==> status == 429 || status == 503,
        status != 401 && status != 403 && status != 429 && status != 503 ==> refusal_code(status)
            == ServiceCode::Internal,
        crate::ingest::otlp_http::status_of(refusal_code(401)) == 401,
        crate::ingest::otlp_http::status_of(refusal_code(403)) == 403,
        crate::ingest::otlp_http::status_of(refusal_code(429)) == 429,
{
}

} // verus!
