//! The service dependency graph, as the spans themselves show it.

use crate::grouping::{double_views, group_by, group_by2, group_views, grouping, grouping2, DoubleGroup};
use crate::ranking::as_ints;
use crate::spans::{Span, SpanStatus};
use crate::text::{same, texts};
use vstd::prelude::*;

verus! {

/// The last span with an identifier; negative where there is none.
pub open spec fn span_named(spans: Seq<Span>, id: Seq<char>) -> int
    decreases spans.len(),
{
    if spans.len() == 0 {
        -1
    } else if spans.last().span_id@ == id {
        spans.len() - 1
    } else {
        span_named(spans.drop_last(), id)
    }
}

/// How a span hangs together with the others.
pub enum Link {
    Root,
    /// Its parent is outside of what was queried.
    Dangling,
    /// Its parent is of the same service.
    Internal,
    /// Its parent is of another service.
    Call(Seq<char>),
}

pub open spec fn link_of(spans: Seq<Span>, i: int) -> Link {
    match spans[i].parent_span_id {
        None => Link::Root,
        Some(p) => {
            let at = span_named(spans, p@);
            if at < 0 {
                Link::Dangling
            } else if spans[at].service@ == spans[i].service@ {
                Link::Internal
            } else {
                Link::Call(spans[at].service@)
            }
        },
    }
}

/// The spans, of the first `n`, that were called from another service.
pub open spec fn calls_among(spans: Seq<Span>, n: nat) -> Seq<int>
    decreases n,
{
    if n == 0 {
        Seq::empty()
    } else {
        let before = calls_among(spans, (n - 1) as nat);
        if link_of(spans, n - 1) is Call {
            before.push(n - 1)
        } else {
            before
        }
    }
}

pub open spec fn dangling_among(spans: Seq<Span>, n: nat) -> nat
    decreases n,
{
    if n == 0 {
        0
    } else {
        dangling_among(spans, (n - 1) as nat) + if link_of(spans, n - 1) is Dangling {
            1nat
        } else {
            0
        }
    }
}

pub open spec fn errors_at(spans: Seq<Span>, places: Seq<int>) -> nat
    decreases places.len(),
{
    if places.len() == 0 {
        0
    } else {
        errors_at(spans, places.drop_last()) + if spans[places.last()].status
            == SpanStatus::Error {
            1nat
        } else {
            0
        }
    }
}

/// A service, with its spans and how many of them failed.
#[derive(Debug)]
pub struct Node {
    pub service: String,
    pub span_count: usize,
    pub error_count: usize,
}

pub struct NodeModel {
    pub service: Seq<char>,
    pub span_count: nat,
    pub error_count: nat,
}

impl View for Node {
    type V = NodeModel;

    open spec fn view(&self) -> NodeModel {
        NodeModel {
            service: self.service@,
            span_count: self.span_count as nat,
            error_count: self.error_count as nat,
        }
    }
}

/// A dependency: the spans of one service that another called, by position.
#[derive(Debug)]
pub struct Edge {
    pub from: String,
    pub to: String,
    pub calls: Vec<usize>,
    pub errors: usize,
}

pub struct EdgeModel {
    pub from: Seq<char>,
    pub to: Seq<char>,
    pub calls: Seq<int>,
    pub errors: nat,
}

impl View for Edge {
    type V = EdgeModel;

    open spec fn view(&self) -> EdgeModel {
        EdgeModel {
            from: self.from@,
            to: self.to@,
            calls: as_ints(self.calls@),
            errors: self.errors as nat,
        }
    }
}

#[derive(Debug)]
pub struct Topology {
    pub nodes: Vec<Node>,
    pub edges: Vec<Edge>,
    /// Spans whose parent is outside of what was queried. They would otherwise
    /// look like roots and overstate entry points.
    pub dangling: usize,
}

pub open spec fn services(spans: Seq<Span>) -> Seq<Seq<char>> {
    spans.map_values(|s: Span| s.service@)
}

/// The services, in order.
pub open spec fn nodes_of(spans: Seq<Span>) -> Seq<NodeModel> {
    grouping(services(spans)).map_values(
        |g: (Seq<char>, Seq<int>)|
            NodeModel {
                service: g.0,
                span_count: g.1.len(),
                error_count: errors_at(spans, g.1),
            },
    )
}

pub open spec fn callers(spans: Seq<Span>, calls: Seq<int>) -> Seq<Seq<char>> {
    calls.map_values(|i: int| link_of(spans, i)->Call_0)
}

pub open spec fn callees(spans: Seq<Span>, calls: Seq<int>) -> Seq<Seq<char>> {
    calls.map_values(|i: int| spans[i].service@)
}

/// The dependencies on one service's side.
pub open spec fn edges_from(
    spans: Seq<Span>,
    calls: Seq<int>,
    from: Seq<char>,
    groups: Seq<(Seq<char>, Seq<int>)>,
) -> Seq<EdgeModel> {
    groups.map_values(
        |h: (Seq<char>, Seq<int>)|
            {
                let places = h.1.map_values(|k: int| calls[k]);
                EdgeModel { from, to: h.0, calls: places, errors: errors_at(spans, places) }
            },
    )
}

pub open spec fn edges_among(
    spans: Seq<Span>,
    calls: Seq<int>,
    groups: Seq<(Seq<char>, Seq<(Seq<char>, Seq<int>)>)>,
) -> Seq<EdgeModel>
    decreases groups.len(),
{
    if groups.len() == 0 {
        Seq::empty()
    } else {
        edges_among(spans, calls, groups.drop_last()) + edges_from(
            spans,
            calls,
            groups.last().0,
            groups.last().1,
        )
    }
}

/// The dependencies, in the order of the caller and then of the called.
pub open spec fn edges_of(spans: Seq<Span>) -> Seq<EdgeModel> {
    let calls = calls_among(spans, spans.len());
    edges_among(spans, calls, grouping2(callers(spans, calls), callees(spans, calls)))
}

fn find_span(spans: &Vec<Span>, id: &str) -> (r: Option<usize>)
    ensures
        match r {
            Some(i) => span_named(spans@, id@) == i as int && i < spans@.len(),
            None => span_named(spans@, id@) < 0,
        },
{
    let mut n: usize = spans.len();
    assert(spans@.take(n as int) =~= spans@);
    while n > 0
        invariant
            n <= spans@.len(),
            span_named(spans@, id@) == span_named(spans@.take(n as int), id@),
        decreases n,
    {
        assert(spans@.take(n as int).drop_last() =~= spans@.take(n as int - 1));
        if same(spans[n - 1].span_id.as_str(), id) {
            return Some(n - 1);
        }
        n = n - 1;
    }
    None
}

fn failed(s: &Span) -> (r: bool)
    ensures
        r == (s.status == SpanStatus::Error),
{
    match s.status {
        SpanStatus::Error => true,
        _ => false,
    }
}

fn count_errors(spans: &Vec<Span>, places: &Vec<usize>) -> (r: usize)
    requires
        forall|k: int| 0 <= k < places@.len() ==> #[trigger] places@[k] < spans@.len(),
    ensures
        r == errors_at(spans@, as_ints(places@)),
{
    let ghost ints = as_ints(places@);
    let mut n: usize = 0;
    let mut i: usize = 0;
    assert(ints.take(0) =~= Seq::<int>::empty());
    while i < places.len()
        invariant
            i <= places@.len(),
            ints == as_ints(places@),
            forall|k: int| 0 <= k < places@.len() ==> #[trigger] places@[k] < spans@.len(),
            n <= i,
            n == errors_at(spans@, ints.take(i as int)),
        decreases places@.len() - i,
    {
        assert(ints.take(i as int + 1).drop_last() =~= ints.take(i as int));
        assert(ints.take(i as int + 1).last() == places@[i as int] as int);
        if failed(&spans[places[i]]) {
            n = n + 1;
        }
        i = i + 1;
    }
    assert(ints.take(places@.len() as int) =~= ints);
    n
}

fn list_services(spans: &Vec<Span>) -> (r: Vec<String>)
    ensures
        texts(r@) == services(spans@),
{
    let mut out: Vec<String> = Vec::new();
    let mut i: usize = 0;
    while i < spans.len()
        invariant
            i <= spans@.len(),
            texts(out@) == services(spans@).take(i as int),
        decreases spans@.len() - i,
    {
        let ghost before = out@;
        let s = spans[i].service.clone();
        out.push(s);
        assert(texts(out@) =~= texts(before).push(s@));
        i = i + 1;
        assert(texts(out@) =~= services(spans@).take(i as int));
    }
    assert(services(spans@).take(spans@.len() as int) =~= services(spans@));
    out
}

pub open spec fn node_views(v: Seq<Node>) -> Seq<NodeModel> {
    v.map_values(|n: Node| n@)
}

pub open spec fn edge_views(v: Seq<Edge>) -> Seq<EdgeModel> {
    v.map_values(|e: Edge| e@)
}

fn build_nodes(spans: &Vec<Span>) -> (r: Vec<Node>)
    ensures
        node_views(r@) == nodes_of(spans@),
{
    let keys = list_services(spans);
    assert(texts(keys@).len() == keys@.len());
    let groups = group_by(&keys);
    let ghost wanted = nodes_of(spans@);
    let mut out: Vec<Node> = Vec::new();
    let mut g: usize = 0;
    assert(node_views(out@) =~= wanted.take(0));
    while g < groups.len()
        invariant
            g <= groups@.len(),
            wanted == nodes_of(spans@),
            group_views(groups@) == grouping(services(spans@)),
            forall|g: int, k: int|
                0 <= g < groups@.len() && 0 <= k < groups@[g].members@.len()
                    ==> #[trigger] groups@[g].members@[k] < spans@.len(),
            node_views(out@) == wanted.take(g as int),
        decreases groups@.len() - g,
    {
        let ghost before = out@;
        let h = &groups[g];
        assert(group_views(groups@)[g as int] == h@);
        assert(as_ints(h.members@) =~= h@.1);
        let node = Node {
            service: h.key.clone(),
            span_count: h.members.len(),
            error_count: count_errors(spans, &h.members),
        };
        assert(node@ == wanted[g as int]);
        out.push(node);
        assert(node_views(out@) =~= node_views(before).push(node@));
        g = g + 1;
        assert(node_views(out@) =~= wanted.take(g as int));
    }
    assert(wanted.take(groups@.len() as int) =~= wanted);
    out
}

fn call_places(calls: &Vec<usize>, members: &Vec<usize>) -> (r: Vec<usize>)
    requires
        forall|k: int| 0 <= k < members@.len() ==> #[trigger] members@[k] < calls@.len(),
    ensures
        as_ints(r@) == as_ints(members@).map_values(|k: int| as_ints(calls@)[k]),
        r@.len() == members@.len(),
        forall|k: int| 0 <= k < r@.len() ==> #[trigger] r@[k] == calls@[members@[k] as int],
{
    let mut out: Vec<usize> = Vec::new();
    let mut i: usize = 0;
    while i < members.len()
        invariant
            i <= members@.len(),
            forall|k: int| 0 <= k < members@.len() ==> #[trigger] members@[k] < calls@.len(),
            out@.len() == i,
            forall|k: int| 0 <= k < i ==> #[trigger] out@[k] == calls@[members@[k] as int],
        decreases members@.len() - i,
    {
        out.push(calls[members[i]]);
        i = i + 1;
    }
    assert(as_ints(out@) =~= as_ints(members@).map_values(|k: int| as_ints(calls@)[k]));
    out
}

fn push_edges(spans: &Vec<Span>, calls: &Vec<usize>, from: &DoubleGroup, out: &mut Vec<Edge>)
    requires
        forall|k: int| 0 <= k < calls@.len() ==> #[trigger] calls@[k] < spans@.len(),
        crate::grouping::members_below(from.groups@, calls@.len()),
    ensures
        edge_views(final(out)@) == edge_views(old(out)@) + edges_from(
            spans@,
            as_ints(calls@),
            from@.0,
            from@.1,
        ),
{
    let ghost start = edge_views(out@);
    let ghost added = edges_from(spans@, as_ints(calls@), from@.0, from@.1);
    let mut g: usize = 0;
    assert(start + added.take(0) =~= start);
    while g < from.groups.len()
        invariant
            g <= from.groups@.len(),
            forall|k: int| 0 <= k < calls@.len() ==> #[trigger] calls@[k] < spans@.len(),
            crate::grouping::members_below(from.groups@, calls@.len()),
            added == edges_from(spans@, as_ints(calls@), from@.0, from@.1),
            edge_views(out@) == start + added.take(g as int),
        decreases from.groups@.len() - g,
    {
        let ghost before = out@;
        let h = &from.groups[g];
        assert(from@.1[g as int] == h@);
        assert forall|k: int| 0 <= k < h.members@.len() implies #[trigger] h.members@[k]
            < calls@.len() by {
            assert(from.groups@[g as int].members@[k] < calls@.len());
        }
        let places = call_places(calls, &h.members);
        assert(as_ints(h.members@) =~= h@.1);
        let errors: usize = count_errors(spans, &places);
        let edge = Edge { from: from.key.clone(), to: h.key.clone(), calls: places, errors };
        proof {
            assert(as_ints(places@) =~= h@.1.map_values(|k: int| as_ints(calls@)[k]));
            assert(edge@ == added[g as int]);
        }
        out.push(edge);
        assert(edge_views(out@) =~= edge_views(before).push(edge@));
        g = g + 1;
        assert(edge_views(out@) =~= start + added.take(g as int));
    }
    assert(added.take(from.groups@.len() as int) =~= added);
}

/// Build the graph. An edge exists where a span of one service is the parent
/// of a span of another; a span that calls another inside the same service is
/// internal structure.
pub fn build_topology(spans: &Vec<Span>) -> (r: Topology)
    ensures
        node_views(r.nodes@) == nodes_of(spans@),
        edge_views(r.edges@) == edges_of(spans@),
        r.dangling == dangling_among(spans@, spans@.len()),
{
    let nodes = build_nodes(spans);
    let mut calls: Vec<usize> = Vec::new();
    let mut from: Vec<String> = Vec::new();
    let mut to: Vec<String> = Vec::new();
    let mut dangling: usize = 0;
    let mut i: usize = 0;
    assert(as_ints(calls@) =~= Seq::<int>::empty());
    assert(texts(from@) =~= callers(spans@, as_ints(calls@)));
    assert(texts(to@) =~= callees(spans@, as_ints(calls@)));
    while i < spans.len()
        invariant
            i <= spans@.len(),
            as_ints(calls@) == calls_among(spans@, i as nat),
            texts(from@) == callers(spans@, as_ints(calls@)),
            texts(to@) == callees(spans@, as_ints(calls@)),
            forall|k: int| 0 <= k < calls@.len() ==> #[trigger] calls@[k] < spans@.len(),
            dangling <= i,
            dangling == dangling_among(spans@, i as nat),
        decreases spans@.len() - i,
    {
        if let Some(p) = &spans[i].parent_span_id {
            match find_span(spans, p.as_str()) {
                None => {
                    dangling = dangling + 1;
                },
                Some(at) => {
                    if !same(spans[at].service.as_str(), spans[i].service.as_str()) {
                        let ghost c0 = calls@;
                        let ghost f0 = from@;
                        let ghost t0 = to@;
                        calls.push(i);
                        from.push(spans[at].service.clone());
                        to.push(spans[i].service.clone());
                        proof {
                            assert(as_ints(calls@) =~= as_ints(c0).push(i as int));
                            assert(texts(from@) =~= texts(f0).push(spans@[at as int].service@));
                            assert(texts(to@) =~= texts(t0).push(spans@[i as int].service@));
                            assert(callers(spans@, as_ints(calls@)) =~= callers(
                                spans@,
                                as_ints(c0),
                            ).push(spans@[at as int].service@));
                            assert(callees(spans@, as_ints(calls@)) =~= callees(
                                spans@,
                                as_ints(c0),
                            ).push(spans@[i as int].service@));
                        }
                    }
                },
            }
        }
        i = i + 1;
    }
    assert(texts(from@).len() == from@.len());
    assert(texts(to@).len() == to@.len());
    let groups = group_by2(&from, &to);
    let ghost all = double_views(groups@);
    let ghost ints = as_ints(calls@);
    let mut edges: Vec<Edge> = Vec::new();
    let mut g: usize = 0;
    assert(all.take(0) =~= Seq::<(Seq<char>, Seq<(Seq<char>, Seq<int>)>)>::empty());
    assert(edge_views(edges@) =~= Seq::<EdgeModel>::empty());
    while g < groups.len()
        invariant
            g <= groups@.len(),
            all == double_views(groups@),
            ints == as_ints(calls@),
            from@.len() == calls@.len(),
            forall|k: int| 0 <= k < calls@.len() ==> #[trigger] calls@[k] < spans@.len(),
            forall|g: int|
                0 <= g < groups@.len() ==> crate::grouping::members_below(
                    (#[trigger] groups@[g]).groups@,
                    from@.len(),
                ),
            edge_views(edges@) == edges_among(spans@, ints, all.take(g as int)),
        decreases groups@.len() - g,
    {
        push_edges(spans, &calls, &groups[g], &mut edges);
        assert(all.take(g as int + 1).drop_last() =~= all.take(g as int));
        assert(all.take(g as int + 1).last() == groups@[g as int]@);
        g = g + 1;
    }
    assert(all.take(groups@.len() as int) =~= all);
    Topology { nodes, edges, dangling }
}

// ── Laws ────────────────────────────────────────────────────────────

/// Every call that makes an edge is between two different services, and each of
/// the others is a root, dangling, or internal.
pub proof fn calls_cross_services(spans: Seq<Span>, i: int)
    requires
        0 <= i < spans.len(),
    ensures
        link_of(spans, i) matches Link::Call(from) ==> from != spans[i].service@,
        calls_among(spans, spans.len()).contains(i) <==> link_of(spans, i) is Call,
{
    calls_are_what_crosses(spans, spans.len(), i);
}

proof fn calls_are_what_crosses(spans: Seq<Span>, n: nat, i: int)
    requires
        n <= spans.len(),
        0 <= i < spans.len(),
    ensures
        calls_among(spans, n).contains(i) <==> i < n && link_of(spans, i) is Call,
    decreases n,
{
    if n > 0 {
        let before = calls_among(spans, (n - 1) as nat);
        calls_are_what_crosses(spans, (n - 1) as nat, i);
        let now = calls_among(spans, n);
        if before.contains(i) {
            let k = choose|k: int| 0 <= k < before.len() && before[k] == i;
            assert(now[k] == i);
        }
        if i == n - 1 && link_of(spans, i) is Call {
            assert(now[now.len() - 1] == i);
        }
        if now.contains(i) {
            let k = choose|k: int| 0 <= k < now.len() && now[k] == i;
            if k < before.len() {
                assert(before[k] == i);
            }
        }
    }
}

/// A span is a call where its parent is one of the spans and of another service,
/// whose it is; without a parent it is a root, and with one that was not queried it
/// is dangling.
pub proof fn links_lead_to_the_parent(spans: Seq<Span>, i: int)
    requires
        0 <= i < spans.len(),
    ensures
        link_of(spans, i) is Root <==> spans[i].parent_span_id is None,
        link_of(spans, i) is Dangling <==> (spans[i].parent_span_id matches Some(p) && forall|k: int|
            0 <= k < spans.len() ==> (#[trigger] spans[k]).span_id@ != p@),
        link_of(spans, i) matches Link::Call(from) ==> exists|k: int|
            0 <= k < spans.len() && (#[trigger] spans[k]).span_id@ == spans[i].parent_span_id->0@
                && spans[k].service@ == from && from != spans[i].service@,
        link_of(spans, i) is Internal ==> exists|k: int|
            0 <= k < spans.len() && (#[trigger] spans[k]).span_id@ == spans[i].parent_span_id->0@
                && spans[k].service@ == spans[i].service@,
{
    if let Some(p) = spans[i].parent_span_id {
        the_span_of_an_id(spans, p@);
    }
}

proof fn the_span_of_an_id(spans: Seq<Span>, id: Seq<char>)
    ensures
        span_named(spans, id) < spans.len(),
        span_named(spans, id) >= 0 ==> spans[span_named(spans, id)].span_id@ == id,
        span_named(spans, id) < 0 <==> forall|k: int|
            0 <= k < spans.len() ==> (#[trigger] spans[k]).span_id@ != id,
    decreases spans.len(),
{
    if spans.len() > 0 {
        let init = spans.drop_last();
        the_span_of_an_id(init, id);
        assert(spans[spans.len() - 1] == spans.last());
        assert forall|k: int| 0 <= k < init.len() implies init[k] == #[trigger] spans[k] by {}
        if span_named(init, id) >= 0 {
            assert(init[span_named(init, id)] == spans[span_named(init, id)]);
        }
        if spans.last().span_id@ != id && (forall|k: int|
            0 <= k < spans.len() ==> (#[trigger] spans[k]).span_id@ != id) {
            assert forall|k: int| 0 <= k < init.len() implies (#[trigger] init[k]).span_id@ != id by {
                assert(spans[k].span_id@ != id);
            }
        }
    }
}

/// A service is shown with its spans and with those of them that failed.
pub proof fn services_count_their_spans(spans: Seq<Span>, n: int, i: int)
    requires
        0 <= n < nodes_of(spans).len(),
    ensures
        ({
            let node = nodes_of(spans)[n];
            let places = grouping(services(spans))[n].1;
            &&& places.contains(i) <==> 0 <= i < spans.len() && spans[i].service@ == node.service
            &&& node.span_count == places.len()
            &&& node.error_count == places.filter(
                |k: int| spans[k].status == SpanStatus::Error,
            ).len()
        }),
{
    let places = grouping(services(spans))[n].1;
    crate::grouping::groups_gather_their_key(services(spans), n, n, i);
    if 0 <= i < spans.len() {
        assert(services(spans)[i] == spans[i].service@);
    }
    errors_are_a_filter(spans, places);
}

proof fn errors_are_a_filter(spans: Seq<Span>, places: Seq<int>)
    ensures
        errors_at(spans, places) == places.filter(
            |k: int| spans[k].status == SpanStatus::Error,
        ).len(),
    decreases places.len(),
{
    reveal(Seq::filter);
    if places.len() > 0 {
        errors_are_a_filter(spans, places.drop_last());
    }
}

/// Every service that a span names is shown.
pub proof fn every_service_is_shown(spans: Seq<Span>, i: int)
    requires
        0 <= i < spans.len(),
    ensures
        exists|n: int|
            0 <= n < nodes_of(spans).len() && (#[trigger] nodes_of(spans)[n]).service
                == spans[i].service@,
{
    let keys = services(spans);
    crate::grouping::grouping_exists(keys);
    assert(keys[i] == spans[i].service@);
    let n = choose|n: int| 0 <= n < grouping(keys).len() && (#[trigger] grouping(keys)[n]).0 == keys[i];
    assert(nodes_of(spans)[n].service == spans[i].service@);
}

/// An edge leads from the service of the parents to that of the spans it holds,
/// and counts those of them that failed.
pub proof fn edges_lead_from_caller_to_callee(spans: Seq<Span>, e: int, k: int)
    requires
        0 <= e < edges_of(spans).len(),
    ensures
        edges_of(spans)[e].calls.len() > 0,
        edges_of(spans)[e].errors == edges_of(spans)[e].calls.filter(
            |i: int| spans[i].status == SpanStatus::Error,
        ).len(),
        0 <= k < edges_of(spans)[e].calls.len() ==> {
            let i = edges_of(spans)[e].calls[k];
            &&& 0 <= i < spans.len()
            &&& link_of(spans, i) == Link::Call(edges_of(spans)[e].from)
            &&& spans[i].service@ == edges_of(spans)[e].to
        },
{
    let calls = calls_among(spans, spans.len());
    let (firsts, seconds) = (callers(spans, calls), callees(spans, calls));
    let groups = grouping2(firsts, seconds);
    let (a, b) = edge_comes_from(spans, calls, groups, e);
    let edge = edges_of(spans)[e];
    let places = groups[a].1[b].1;
    crate::grouping::items_stand_under_both_keys(firsts, seconds, a, b, 0);
    errors_are_a_filter(spans, edge.calls);
    if 0 <= k < edge.calls.len() {
        let at = places[k];
        assert(places.contains(at));
        crate::grouping::items_stand_under_both_keys(firsts, seconds, a, b, at);
        calls_are_calls(spans, spans.len(), at);
        assert(edge.calls[k] == calls[at]);
        assert(firsts[at] == link_of(spans, calls[at])->Call_0);
        assert(seconds[at] == spans[calls[at]].service@);
    }
}

proof fn calls_are_calls(spans: Seq<Span>, n: nat, at: int)
    requires
        n <= spans.len(),
    ensures
        0 <= at < calls_among(spans, n).len() ==> 0 <= calls_among(spans, n)[at] < n && link_of(
            spans,
            calls_among(spans, n)[at],
        ) is Call,
    decreases n,
{
    if n > 0 {
        calls_are_calls(spans, (n - 1) as nat, at);
    }
}

proof fn edge_comes_from(
    spans: Seq<Span>,
    calls: Seq<int>,
    groups: Seq<(Seq<char>, Seq<(Seq<char>, Seq<int>)>)>,
    e: int,
) -> (at: (int, int))
    requires
        0 <= e < edges_among(spans, calls, groups).len(),
    ensures
        0 <= at.0 < groups.len(),
        0 <= at.1 < groups[at.0].1.len(),
        ({
            let edge = edges_among(spans, calls, groups)[e];
            let h = groups[at.0].1[at.1];
            &&& edge.from == groups[at.0].0
            &&& edge.to == h.0
            &&& edge.calls == h.1.map_values(|k: int| calls[k])
            &&& edge.errors == errors_at(spans, edge.calls)
        }),
    decreases groups.len(),
{
    let head = edges_among(spans, calls, groups.drop_last());
    if e < head.len() {
        let at = edge_comes_from(spans, calls, groups.drop_last(), e);
        assert(groups.drop_last()[at.0] == groups[at.0]);
        at
    } else {
        (groups.len() - 1, e - head.len())
    }
}

/// Every call between services is on the edge between them.
pub proof fn every_call_is_on_its_edge(spans: Seq<Span>, i: int)
    requires
        0 <= i < spans.len(),
        link_of(spans, i) is Call,
    ensures
        exists|e: int|
            0 <= e < edges_of(spans).len() && (#[trigger] edges_of(spans)[e]).calls.contains(i),
{
    let calls = calls_among(spans, spans.len());
    calls_cross_services(spans, i);
    let n = choose|n: int| 0 <= n < calls.len() && calls[n] == i;
    let (firsts, seconds) = (callers(spans, calls), callees(spans, calls));
    let groups = grouping2(firsts, seconds);
    let at = crate::grouping::every_item_has_a_group(firsts, seconds, n);
    let e = edge_of_group(spans, calls, groups, at.0, at.1);
    let places = groups[at.0].1[at.1].1;
    let k = choose|k: int| 0 <= k < places.len() && places[k] == n;
    assert(edges_of(spans)[e].calls[k] == i);
}

proof fn edge_of_group(
    spans: Seq<Span>,
    calls: Seq<int>,
    groups: Seq<(Seq<char>, Seq<(Seq<char>, Seq<int>)>)>,
    a: int,
    b: int,
) -> (e: int)
    requires
        0 <= a < groups.len(),
        0 <= b < groups[a].1.len(),
    ensures
        0 <= e < edges_among(spans, calls, groups).len(),
        edges_among(spans, calls, groups)[e].calls == groups[a].1[b].1.map_values(|k: int| calls[k]),
    decreases groups.len(),
{
    let head = edges_among(spans, calls, groups.drop_last());
    if a < groups.len() - 1 {
        edge_of_group(spans, calls, groups.drop_last(), a, b)
    } else {
        head.len() + b
    }
}

/// What is dangling is counted, each span once.
pub proof fn dangling_spans_are_counted(spans: Seq<Span>, n: nat)
    requires
        n < spans.len(),
    ensures
        dangling_among(spans, 0) == 0,
        dangling_among(spans, n + 1) == dangling_among(spans, n) + if spans[n as int].parent_span_id is Some
            && forall|k: int|
            0 <= k < spans.len() ==> (#[trigger] spans[k]).span_id@
                != spans[n as int].parent_span_id->0@ {
            1nat
        } else {
            0nat
        },
{
    links_lead_to_the_parent(spans, n as int);
}

} // verus!
