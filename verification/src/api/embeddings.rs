//! What an embedding is made of, and which traces still need one.

use crate::crypto::is_hex_char;
use crate::grouping::{group_by, group_views, grouping, Group};
use crate::labels::{one_more_text, sorted_distinct, text_set, texts_have_a_first, the_same_texts, Labels};
use crate::spans::{under, LlmSpan, Span, SpanStatus};
use crate::text::{is_blank, join, joined, opt_text, same, texts, trimmed};
use vstd::prelude::*;

verus! {

/// What a span contributes when an attribute is set: the attribute and its
/// value.
pub open spec fn attribute_part(s: Span, name: Seq<char>) -> Seq<Seq<char>> {
    match under(s.attributes@, name) {
        Some(v) => seq![name + "="@ + v],
        None => Seq::empty(),
    }
}

/// What a span contributes when a text of its model call is set.
pub open spec fn text_part(label: Seq<char>, value: Option<String>) -> Seq<Seq<char>> {
    match value {
        Some(v) => seq![label + v@],
        None => Seq::empty(),
    }
}

/// What a span says of a model call: whom it asked, how the answer ended, and
/// the hashes of its payloads.
pub open spec fn llm_parts(l: Option<LlmSpan>) -> Seq<Seq<char>> {
    match l {
        Some(l) => seq!["llm "@ + l.provider@ + " "@ + l.model@] + text_part(
            "finish="@,
            l.finish_reason,
        ) + text_part("prompt="@, l.prompt_sha256) + text_part(
            "completion="@,
            l.completion_sha256,
        ),
        None => Seq::empty(),
    }
}

pub open spec fn call_parts(s: Span) -> Seq<Seq<char>> {
    seq![s.service@ + " "@ + s.operation@] + if s.status == SpanStatus::Error {
        seq!["error "@ + s.operation@]
    } else {
        Seq::empty()
    }
}

/// What a span says of its trace: what it tried to do and how it failed, not
/// the identifiers and times that make every trace superficially unique.
pub open spec fn span_parts(s: Span) -> Seq<Seq<char>> {
    call_parts(s) + attribute_part(s, "error.type"@) + attribute_part(s, "exception.type"@) + attribute_part(
        s,
        "rpc.grpc.status_code"@,
    ) + llm_parts(s.llm)
}

/// What all spans of a trace say.
pub open spec fn trace_parts(spans: Seq<Span>) -> Seq<Seq<char>>
    decreases spans.len(),
{
    if spans.len() == 0 {
        Seq::empty()
    } else {
        trace_parts(spans.drop_last()) + span_parts(spans.last())
    }
}

pub open spec fn signature_of(spans: Seq<Span>) -> Seq<char> {
    joined(sorted_distinct(trace_parts(spans)), " "@)
}

/// Whether a set holds the texts of some parts.
spec fn collects(set: Labels, parts: Seq<Seq<char>>) -> bool {
    set@ == text_set(parts)
}

fn note(set: &mut Labels, part: String, Ghost(parts): Ghost<Seq<Seq<char>>>)
    requires
        collects(*old(set), parts),
    ensures
        collects(*final(set), parts.push(part@)),
{
    let none = String::new();
    assert(none@ =~= Seq::<char>::empty());
    assert(parts.push(part@).drop_last() =~= parts);
    set.insert(part, none);
}

fn note_attribute(set: &mut Labels, s: &Span, name: &str, Ghost(parts): Ghost<Seq<Seq<char>>>)
    requires
        collects(*old(set), parts),
    ensures
        collects(*final(set), parts + attribute_part(*s, name@)),
{
    match s.attributes.get(name) {
        Some(v) => {
            let mut part = name.to_owned();
            part.append("=");
            part.append(v.as_str());
            assert(parts + attribute_part(*s, name@) =~= parts.push(part@));
            note(set, part, Ghost(parts));
        },
        None => {
            assert(parts + attribute_part(*s, name@) =~= parts);
        },
    }
}

fn note_call(set: &mut Labels, s: &Span, Ghost(parts): Ghost<Seq<Seq<char>>>)
    requires
        collects(*old(set), parts),
    ensures
        collects(*final(set), parts + call_parts(*s)),
{
    let mut what = s.service.clone();
    what.append(" ");
    what.append(s.operation.as_str());
    let ghost p = parts.push(what@);
    note(set, what, Ghost(parts));
    match s.status {
        SpanStatus::Error => {
            let mut part = "error ".to_owned();
            part.append(s.operation.as_str());
            assert(parts + call_parts(*s) =~= p.push(part@));
            note(set, part, Ghost(p));
        },
        _ => {
            assert(parts + call_parts(*s) =~= p);
        },
    }
}

fn note_text(
    set: &mut Labels,
    label: &str,
    value: &Option<String>,
    Ghost(parts): Ghost<Seq<Seq<char>>>,
)
    requires
        collects(*old(set), parts),
    ensures
        collects(*final(set), parts + text_part(label@, *value)),
{
    match value {
        Some(v) => {
            let mut part = label.to_owned();
            part.append(v.as_str());
            assert(parts + text_part(label@, *value) =~= parts.push(part@));
            note(set, part, Ghost(parts));
        },
        None => {
            assert(parts + text_part(label@, *value) =~= parts);
        },
    }
}

fn note_llm(set: &mut Labels, llm: &Option<LlmSpan>, Ghost(parts): Ghost<Seq<Seq<char>>>)
    requires
        collects(*old(set), parts),
    ensures
        collects(*final(set), parts + llm_parts(*llm)),
{
    match llm {
        Some(l) => {
            let mut part = "llm ".to_owned();
            part.append(l.provider.as_str());
            part.append(" ");
            part.append(l.model.as_str());
            let ghost p1 = parts.push(part@);
            note(set, part, Ghost(parts));
            note_text(set, "finish=", &l.finish_reason, Ghost(p1));
            let ghost p2 = p1 + text_part("finish="@, l.finish_reason);
            note_text(set, "prompt=", &l.prompt_sha256, Ghost(p2));
            let ghost p3 = p2 + text_part("prompt="@, l.prompt_sha256);
            note_text(set, "completion=", &l.completion_sha256, Ghost(p3));
            assert(parts + llm_parts(*llm) =~= p3 + text_part("completion="@, l.completion_sha256));
        },
        None => {
            assert(parts + llm_parts(*llm) =~= parts);
        },
    }
}

fn note_span(set: &mut Labels, s: &Span, Ghost(parts): Ghost<Seq<Seq<char>>>)
    requires
        collects(*old(set), parts),
    ensures
        collects(*final(set), parts + span_parts(*s)),
{
    note_call(set, s, Ghost(parts));
    let ghost p1 = parts + call_parts(*s);
    note_attribute(set, s, "error.type", Ghost(p1));
    let ghost p2 = p1 + attribute_part(*s, "error.type"@);
    note_attribute(set, s, "exception.type", Ghost(p2));
    let ghost p3 = p2 + attribute_part(*s, "exception.type"@);
    note_attribute(set, s, "rpc.grpc.status_code", Ghost(p3));
    let ghost p4 = p3 + attribute_part(*s, "rpc.grpc.status_code"@);
    note_llm(set, &s.llm, Ghost(p4));
    assert(parts + span_parts(*s) =~= p4 + llm_parts(s.llm));
}

/// The text that an embedding represents for one trace.
pub fn trace_signature(spans: &Vec<Span>) -> (r: String)
    ensures
        r@ == signature_of(spans@),
{
    let mut set = Labels::new();
    let mut i: usize = 0;
    assert(spans@.take(0) =~= Seq::<Span>::empty());
    assert(collects(set, trace_parts(spans@.take(0))));
    while i < spans.len()
        invariant
            i <= spans@.len(),
            collects(set, trace_parts(spans@.take(i as int))),
        decreases spans@.len() - i,
    {
        note_span(&mut set, &spans[i], Ghost(trace_parts(spans@.take(i as int))));
        assert(spans@.take(i as int + 1).drop_last() =~= spans@.take(i as int));
        assert(spans@.take(i as int + 1).last() == spans@[i as int]);
        i = i + 1;
    }
    assert(spans@.take(spans@.len() as int) =~= spans@);
    join(&set.names(), " ")
}

// ── Which traces to embed ───────────────────────────────────────────

/// What becomes of a trace: one that is embedded already stays as it is, since
/// a trace does not change once it is written, and one that says nothing is
/// passed over.
pub open spec fn needs_embedding(embedded: bool, signature: Seq<char>) -> bool {
    !embedded && trimmed(signature).len() > 0
}

pub fn should_embed(embedded: bool, signature: &str) -> (r: bool)
    ensures
        r == needs_embedding(embedded, signature@),
{
    !embedded && !is_blank(signature)
}

/// The traces among spans, in order, each with its spans.
pub fn traces_of(trace_ids: &Vec<String>) -> (r: Vec<Group>)
    ensures
        group_views(r@) == grouping(texts(trace_ids@)),
{
    group_by(trace_ids)
}

// ── Laws ────────────────────────────────────────────────────────────

/// Two traces whose spans say the same have the same signature, in whatever
/// order the spans come.
pub proof fn signatures_ignore_order(a: Seq<Span>, b: Seq<Span>)
    requires
        forall|t: Seq<char>| #[trigger] trace_parts(a).contains(t) <==> trace_parts(b).contains(t),
    ensures
        signature_of(a) == signature_of(b),
{
    the_same_texts(trace_parts(a), trace_parts(b));
}

/// A trace with another hash of the prompt of one of its model calls.
pub open spec fn with_prompt(spans: Seq<Span>, i: int, hash: Option<String>) -> Seq<Span> {
    spans.update(
        i,
        Span { llm: Some(LlmSpan { prompt_sha256: hash, ..spans[i].llm->0 }), ..spans[i] },
    )
}

/// A trace with another hash of the completion of one of its model calls.
pub open spec fn with_completion(spans: Seq<Span>, i: int, hash: Option<String>) -> Seq<Span> {
    spans.update(
        i,
        Span { llm: Some(LlmSpan { completion_sha256: hash, ..spans[i].llm->0 }), ..spans[i] },
    )
}

/// Whether a hash is a text of hexadecimal digits of which a trace says nothing.
pub open spec fn is_new_hash(spans: Seq<Span>, label: Seq<char>, hash: Option<String>) -> bool {
    hash matches Some(h) ==> {
        &&& forall|k: int| 0 <= k < h@.len() ==> is_hex_char(#[trigger] h@[k])
        &&& !trace_parts(spans).contains(label + h@)
    }
}

/// Another prompt makes another signature: two traces that differ in the hash
/// of one prompt alone have different signatures, unless the hash is also said
/// elsewhere in the trace.
pub proof fn another_prompt_is_another_signature(
    spans: Seq<Span>,
    i: int,
    a: Option<String>,
    b: Option<String>,
)
    requires
        0 <= i < spans.len(),
        spans[i].llm is Some,
        opt_text(a) != opt_text(b),
        is_new_hash(with_prompt(spans, i, None), "prompt="@, a),
        is_new_hash(with_prompt(spans, i, None), "prompt="@, b),
    ensures
        signature_of(with_prompt(spans, i, a)) != signature_of(with_prompt(spans, i, b)),
{
    let l = spans[i].llm->0;
    let rest = with_prompt(spans, i, None);
    let front = seq!["llm "@ + l.provider@ + " "@ + l.model@] + text_part(
        "finish="@,
        l.finish_reason,
    );
    let back = text_part("completion="@, l.completion_sha256);
    reveal_strlit("prompt=");
    said_beside(rest, with_prompt(spans, i, a), i, front, back, "prompt="@, a);
    said_beside(rest, with_prompt(spans, i, b), i, front, back, "prompt="@, b);
    another_part_is_another_text(
        trace_parts(rest),
        trace_parts(with_prompt(spans, i, a)),
        trace_parts(with_prompt(spans, i, b)),
        "prompt="@,
        a,
        b,
    );
}

/// Another completion makes another signature, as another prompt does.
pub proof fn another_completion_is_another_signature(
    spans: Seq<Span>,
    i: int,
    a: Option<String>,
    b: Option<String>,
)
    requires
        0 <= i < spans.len(),
        spans[i].llm is Some,
        opt_text(a) != opt_text(b),
        is_new_hash(with_completion(spans, i, None), "completion="@, a),
        is_new_hash(with_completion(spans, i, None), "completion="@, b),
    ensures
        signature_of(with_completion(spans, i, a)) != signature_of(with_completion(spans, i, b)),
{
    let l = spans[i].llm->0;
    let rest = with_completion(spans, i, None);
    let front = seq!["llm "@ + l.provider@ + " "@ + l.model@] + text_part(
        "finish="@,
        l.finish_reason,
    ) + text_part("prompt="@, l.prompt_sha256);
    let back = Seq::<Seq<char>>::empty();
    reveal_strlit("completion=");
    said_beside(rest, with_completion(spans, i, a), i, front, back, "completion="@, a);
    said_beside(rest, with_completion(spans, i, b), i, front, back, "completion="@, b);
    another_part_is_another_text(
        trace_parts(rest),
        trace_parts(with_completion(spans, i, a)),
        trace_parts(with_completion(spans, i, b)),
        "completion="@,
        a,
        b,
    );
}

proof fn in_either(a: Seq<Seq<char>>, b: Seq<Seq<char>>, t: Seq<char>)
    ensures
        (a + b).contains(t) <==> a.contains(t) || b.contains(t),
{
    let c = a + b;
    if a.contains(t) {
        let k = choose|k: int| 0 <= k < a.len() && a[k] == t;
        assert(c[k] == t);
    }
    if b.contains(t) {
        let k = choose|k: int| 0 <= k < b.len() && b[k] == t;
        assert(c[a.len() + k] == t);
    }
    if c.contains(t) {
        let k = choose|k: int| 0 <= k < c.len() && c[k] == t;
        if k < a.len() {
            assert(a[k] == t);
        } else {
            assert(b[k - a.len()] == t);
        }
    }
}

/// A trace says what its spans say.
proof fn spans_say(spans: Seq<Span>, t: Seq<char>)
    ensures
        trace_parts(spans).contains(t) <==> exists|j: int|
            0 <= j < spans.len() && span_parts(#[trigger] spans[j]).contains(t),
    decreases spans.len(),
{
    if spans.len() > 0 {
        let fewer = spans.drop_last();
        spans_say(fewer, t);
        in_either(trace_parts(fewer), span_parts(spans.last()), t);
        if trace_parts(fewer).contains(t) {
            let j = choose|j: int|
                0 <= j < fewer.len() && span_parts(#[trigger] fewer[j]).contains(t);
            assert(spans[j] == fewer[j]);
        }
        if span_parts(spans.last()).contains(t) {
            assert(spans[spans.len() - 1] == spans.last());
        }
        if exists|j: int| 0 <= j < spans.len() && span_parts(#[trigger] spans[j]).contains(t) {
            let j = choose|j: int|
                0 <= j < spans.len() && span_parts(#[trigger] spans[j]).contains(t);
            if j < spans.len() - 1 {
                assert(fewer[j] == spans[j]);
            }
        }
    }
}

/// With a hash set in one span, a trace says that and whatever it said before.
proof fn said_beside(
    rest: Seq<Span>,
    more: Seq<Span>,
    i: int,
    front: Seq<Seq<char>>,
    back: Seq<Seq<char>>,
    label: Seq<char>,
    hash: Option<String>,
)
    requires
        0 <= i < rest.len(),
        rest.len() == more.len(),
        forall|j: int| 0 <= j < rest.len() && j != i ==> #[trigger] more[j] == rest[j],
        more[i] == (Span { llm: more[i].llm, ..rest[i] }),
        llm_parts(rest[i].llm) == front + back,
        llm_parts(more[i].llm) == front + text_part(label, hash) + back,
    ensures
        forall|t: Seq<char>| #[trigger]
            trace_parts(more).contains(t) <==> trace_parts(rest).contains(t) || text_part(
                label,
                hash,
            ).contains(t),
{
    let added = text_part(label, hash);
    let shared = call_parts(rest[i]) + attribute_part(rest[i], "error.type"@) + attribute_part(
        rest[i],
        "exception.type"@,
    ) + attribute_part(rest[i], "rpc.grpc.status_code"@);
    assert(span_parts(rest[i]) == shared + llm_parts(rest[i].llm));
    assert(span_parts(more[i]) == shared + llm_parts(more[i].llm));
    assert forall|t: Seq<char>| #[trigger]
        trace_parts(more).contains(t) <==> trace_parts(rest).contains(t) || added.contains(t) by {
        spans_say(rest, t);
        spans_say(more, t);
        in_either(shared, front + back, t);
        in_either(shared, front + added + back, t);
        in_either(front, back, t);
        in_either(front + added, back, t);
        in_either(front, added, t);
        if trace_parts(more).contains(t) {
            let j = choose|j: int| 0 <= j < more.len() && span_parts(#[trigger] more[j]).contains(t);
            assert(j == i || more[j] == rest[j]);
            if !added.contains(t) {
                assert(span_parts(rest[j]).contains(t));
            }
        }
        if trace_parts(rest).contains(t) {
            let j = choose|j: int| 0 <= j < rest.len() && span_parts(#[trigger] rest[j]).contains(t);
            assert(j == i || more[j] == rest[j]);
            assert(span_parts(more[j]).contains(t));
        }
        if added.contains(t) {
            assert(span_parts(more[i]).contains(t));
        }
    }
}

/// Some parts, each with a space behind it.
spec fn run(parts: Seq<Seq<char>>) -> Seq<char>
    decreases parts.len(),
{
    if parts.len() == 0 {
        Seq::empty()
    } else {
        run(parts.drop_last()) + parts.last() + " "@
    }
}

proof fn joined_is_run(parts: Seq<Seq<char>>)
    requires
        parts.len() > 0,
    ensures
        joined(parts, " "@) + " "@ == run(parts),
    decreases parts.len(),
{
    if parts.len() == 1 {
        assert(run(parts.drop_last()) =~= Seq::<char>::empty());
        assert(joined(parts, " "@) + " "@ =~= run(parts));
    } else {
        joined_is_run(parts.drop_last());
        assert(joined(parts, " "@) + " "@ =~= run(parts));
    }
}

proof fn run_of_both(a: Seq<Seq<char>>, b: Seq<Seq<char>>)
    ensures
        run(a + b) == run(a) + run(b),
        b.len() > 0 ==> run(b).len() > 0 && run(b).last() == ' ',
    decreases b.len(),
{
    reveal_strlit(" ");
    if b.len() == 0 {
        assert(a + b =~= a);
        assert(run(a) + run(b) =~= run(a));
    } else {
        run_of_both(a, b.drop_last());
        assert((a + b).drop_last() =~= a + b.drop_last());
        assert(run(a + b) =~= run(a) + run(b));
    }
}

/// A part that is put in stands between the runs of what is around it.
proof fn run_with(parts: Seq<Seq<char>>, at: int, t: Seq<char>)
    requires
        0 <= at <= parts.len(),
    ensures
        run(parts.insert(at, t)) == run(parts.take(at)) + (t + " "@) + run(parts.skip(at)),
{
    let front = parts.take(at).push(t);
    assert(parts.insert(at, t) =~= front + parts.skip(at));
    run_of_both(front, parts.skip(at));
    assert(front.drop_last() =~= parts.take(at));
    assert(run(front) =~= run(parts.take(at)) + (t + " "@));
}

/// No word without a space can be moved past words that end in one and come
/// out as another.
proof fn no_word_moves(p: Seq<char>, q: Seq<char>, between: Seq<char>)
    requires
        p.len() == q.len(),
        forall|k: int| 0 <= k < p.len() ==> #[trigger] p[k] != ' ',
        between.len() > 0 ==> between.last() == ' ',
        (p + " "@) + between == between + (q + " "@),
    ensures
        p == q,
    decreases between.len(),
{
    reveal_strlit(" ");
    let d = p + " "@;
    let e = q + " "@;
    let left = d + between;
    let right = between + e;
    if between.len() == 0 {
        assert forall|k: int| 0 <= k < p.len() implies p[k] == q[k] by {
            assert(left[k] == p[k] && right[k] == q[k]);
        }
        assert(p =~= q);
    } else if between.len() <= p.len() {
        let k = between.len() - 1;
        assert(left[k] == p[k]);
        assert(right[k] == between[k]);
    } else {
        let n = d.len() as int;
        let shorter = between.skip(n);
        assert forall|k: int| 0 <= k < n implies between[k] == d[k] by {
            assert(left[k] == d[k] && right[k] == between[k]);
        }
        assert(between =~= d + shorter);
        assert(d + shorter =~= shorter + e) by {
            assert forall|k: int| 0 <= k < (d + shorter).len() implies (d + shorter)[k] == (shorter
                + e)[k] by {
                assert(left[n + k] == between[k]);
                assert(right[n + k] == (shorter + e)[k]);
            }
        }
        no_word_moves(p, q, shorter);
    }
}

/// Parts that differ in one, which has no space, make different texts.
proof fn another_part_in_order(rest: Seq<Seq<char>>, i: int, p: Seq<char>, j: int, q: Seq<char>)
    requires
        0 <= i <= j <= rest.len(),
        p != q,
        forall|k: int| 0 <= k < p.len() ==> #[trigger] p[k] != ' ',
    ensures
        run(rest.insert(i, p)) != run(rest.insert(j, q)),
{
    reveal_strlit(" ");
    let x = rest.take(i);
    let m = rest.subrange(i, j);
    let y = rest.skip(j);
    run_with(rest, i, p);
    run_with(rest, j, q);
    assert(rest.skip(i) =~= m + y);
    assert(rest.take(j) =~= x + m);
    run_of_both(m, y);
    run_of_both(x, m);
    let a = run(x);
    let n = run(m);
    let b = run(y);
    let d = p + " "@;
    let e = q + " "@;
    if run(rest.insert(i, p)) == run(rest.insert(j, q)) {
        assert(a + d + (n + b) == (a + n) + e + b);
        let left = a + d + (n + b);
        let right = (a + n) + e + b;
        assert(left.len() == right.len());
        assert(d.len() == e.len());
        assert forall|k: int| 0 <= k < d.len() + n.len() implies (d + n)[k] == (n + e)[k] by {
            assert(left[a.len() + k] == (d + n)[k]);
            assert(right[a.len() + k] == (n + e)[k]);
        }
        assert(d + n =~= n + e);
        no_word_moves(p, q, n);
    }
}

proof fn no_space_in(label: Seq<char>, h: Seq<char>)
    requires
        forall|k: int| 0 <= k < label.len() ==> #[trigger] label[k] != ' ',
        forall|k: int| 0 <= k < h.len() ==> is_hex_char(#[trigger] h[k]),
    ensures
        forall|k: int| 0 <= k < (label + h).len() ==> #[trigger] (label + h)[k] != ' ',
{
    assert forall|k: int| 0 <= k < (label + h).len() implies #[trigger] (label + h)[k] != ' ' by {
        if k >= label.len() {
            assert(is_hex_char(h[k - label.len()]));
        }
    }
}

proof fn another_part_is_another_text(
    rest: Seq<Seq<char>>,
    with_a: Seq<Seq<char>>,
    with_b: Seq<Seq<char>>,
    label: Seq<char>,
    a: Option<String>,
    b: Option<String>,
)
    requires
        rest.len() > 0,
        opt_text(a) != opt_text(b),
        forall|k: int| 0 <= k < label.len() ==> #[trigger] label[k] != ' ',
        a matches Some(h) ==> !rest.contains(label + h@) && forall|k: int|
            0 <= k < h@.len() ==> is_hex_char(#[trigger] h@[k]),
        b matches Some(h) ==> !rest.contains(label + h@) && forall|k: int|
            0 <= k < h@.len() ==> is_hex_char(#[trigger] h@[k]),
        forall|t: Seq<char>| #[trigger]
            with_a.contains(t) <==> rest.contains(t) || text_part(label, a).contains(t),
        forall|t: Seq<char>| #[trigger]
            with_b.contains(t) <==> rest.contains(t) || text_part(label, b).contains(t),
    ensures
        joined(sorted_distinct(with_a), " "@) != joined(sorted_distinct(with_b), " "@),
{
    reveal_strlit(" ");
    let c = sorted_distinct(rest);
    texts_have_a_first(rest);
    let i = placed(rest, with_a, label, a);
    let j = placed(rest, with_b, label, b);
    joined_is_run(sorted_distinct(with_a));
    joined_is_run(sorted_distinct(with_b));
    match (a, b) {
        (Some(x), Some(y)) => {
            let p = label + x@;
            let q = label + y@;
            no_space_in(label, x@);
            no_space_in(label, y@);
            if p == q {
                assert(x@ =~= p.skip(label.len() as int));
                assert(y@ =~= q.skip(label.len() as int));
            }
            if i <= j {
                another_part_in_order(c, i, p, j, q);
            } else {
                another_part_in_order(c, j, q, i, p);
            }
        },
        (Some(x), None) => {
            longer_with(c, i, label + x@);
        },
        (None, Some(y)) => {
            longer_with(c, j, label + y@);
        },
        (None, None) => {},
    }
}

proof fn longer_with(parts: Seq<Seq<char>>, at: int, t: Seq<char>)
    requires
        0 <= at <= parts.len(),
    ensures
        run(parts.insert(at, t)).len() > run(parts).len(),
{
    reveal_strlit(" ");
    run_with(parts, at, t);
    assert(parts =~= parts.take(at) + parts.skip(at));
    run_of_both(parts.take(at), parts.skip(at));
}

/// Where a part that may be set stands among the different ones.
proof fn placed(
    rest: Seq<Seq<char>>,
    more: Seq<Seq<char>>,
    label: Seq<char>,
    hash: Option<String>,
) -> (at: int)
    requires
        hash matches Some(h) ==> !rest.contains(label + h@),
        forall|t: Seq<char>| #[trigger]
            more.contains(t) <==> rest.contains(t) || text_part(label, hash).contains(t),
    ensures
        0 <= at <= sorted_distinct(rest).len(),
        sorted_distinct(more) == match hash {
            Some(h) => sorted_distinct(rest).insert(at, label + h@),
            None => sorted_distinct(rest),
        },
{
    match hash {
        Some(h) => {
            let t = label + h@;
            assert forall|u: Seq<char>| #[trigger] more.contains(u) <==> rest.contains(u) || u
                == t by {
                assert(text_part(label, hash)[0] == t);
                if text_part(label, hash).contains(u) {
                    assert(u == t);
                }
            }
            one_more_text(rest, more, t)
        },
        None => {
            the_same_texts(more, rest);
            0
        },
    }
}

/// What a trace is told by: of each span what was called where, whether it failed,
/// the errors that it names, and of a call to a model which one, why it ended and
/// the digests of what was said.
pub proof fn traces_are_told_by_their_spans(spans: Seq<Span>, i: int)
    requires
        0 <= i < spans.len(),
    ensures
        ({
            let parts = trace_parts(spans);
            let s = spans[i];
            &&& parts.contains(s.service@ + " "@ + s.operation@)
            &&& s.status == SpanStatus::Error ==> parts.contains("error "@ + s.operation@)
            &&& s.attributes@.dom().contains("error.type"@) ==> parts.contains(
                "error.type"@ + "="@ + s.attributes@["error.type"@],
            )
            &&& s.attributes@.dom().contains("exception.type"@) ==> parts.contains(
                "exception.type"@ + "="@ + s.attributes@["exception.type"@],
            )
            &&& s.attributes@.dom().contains("rpc.grpc.status_code"@) ==> parts.contains(
                "rpc.grpc.status_code"@ + "="@ + s.attributes@["rpc.grpc.status_code"@],
            )
            &&& s.llm matches Some(l) ==> parts.contains("llm "@ + l.provider@ + " "@ + l.model@)
            &&& s.llm matches Some(l) ==> (l.finish_reason matches Some(t) ==> parts.contains(
                "finish="@ + t@,
            ))
            &&& s.llm matches Some(l) ==> (l.prompt_sha256 matches Some(t) ==> parts.contains(
                "prompt="@ + t@,
            ))
            &&& s.llm matches Some(l) ==> (l.completion_sha256 matches Some(t) ==> parts.contains(
                "completion="@ + t@,
            ))
        }),
{
    let s = spans[i];
    spans_are_told(s);
    part_of_a_trace(spans, i, s.service@ + " "@ + s.operation@);
    part_of_a_trace(spans, i, "error "@ + s.operation@);
    part_of_a_trace(spans, i, "error.type"@ + "="@ + s.attributes@["error.type"@]);
    part_of_a_trace(spans, i, "exception.type"@ + "="@ + s.attributes@["exception.type"@]);
    part_of_a_trace(
        spans,
        i,
        "rpc.grpc.status_code"@ + "="@ + s.attributes@["rpc.grpc.status_code"@],
    );
    if let Some(l) = s.llm {
        calls_are_told(l);
        part_of_a_trace(spans, i, "llm "@ + l.provider@ + " "@ + l.model@);
        if let Some(t) = l.finish_reason {
            part_of_a_trace(spans, i, "finish="@ + t@);
        }
        if let Some(t) = l.prompt_sha256 {
            part_of_a_trace(spans, i, "prompt="@ + t@);
        }
        if let Some(t) = l.completion_sha256 {
            part_of_a_trace(spans, i, "completion="@ + t@);
        }
    }
}

proof fn all_in_either(a: Seq<Seq<char>>, b: Seq<Seq<char>>)
    ensures
        forall|x: Seq<char>| #[trigger]
            (a + b).contains(x) <==> a.contains(x) || b.contains(x),
{
    assert forall|x: Seq<char>| #[trigger] (a + b).contains(x) <==> a.contains(x) || b.contains(
        x,
    ) by {
        in_either(a, b, x);
    }
}

proof fn spans_are_told(s: Span)
    ensures
        span_parts(s).contains(s.service@ + " "@ + s.operation@),
        s.status == SpanStatus::Error ==> span_parts(s).contains("error "@ + s.operation@),
        s.attributes@.dom().contains("error.type"@) ==> span_parts(s).contains(
            "error.type"@ + "="@ + s.attributes@["error.type"@],
        ),
        s.attributes@.dom().contains("exception.type"@) ==> span_parts(s).contains(
            "exception.type"@ + "="@ + s.attributes@["exception.type"@],
        ),
        s.attributes@.dom().contains("rpc.grpc.status_code"@) ==> span_parts(s).contains(
            "rpc.grpc.status_code"@ + "="@ + s.attributes@["rpc.grpc.status_code"@],
        ),
        forall|x: Seq<char>| #[trigger] llm_parts(s.llm).contains(x) ==> span_parts(s).contains(x),
{
    let (c, d, e, f) = (
        call_parts(s),
        attribute_part(s, "error.type"@),
        attribute_part(s, "exception.type"@),
        attribute_part(s, "rpc.grpc.status_code"@),
    );
    all_in_either(c, d);
    all_in_either(c + d, e);
    all_in_either(c + d + e, f);
    all_in_either(c + d + e + f, llm_parts(s.llm));
    assert(c[0] == s.service@ + " "@ + s.operation@);
    if s.status == SpanStatus::Error {
        assert(c[1] == "error "@ + s.operation@);
    }
    if s.attributes@.dom().contains("error.type"@) {
        assert(d[0] == "error.type"@ + "="@ + s.attributes@["error.type"@]);
    }
    if s.attributes@.dom().contains("exception.type"@) {
        assert(e[0] == "exception.type"@ + "="@ + s.attributes@["exception.type"@]);
    }
    if s.attributes@.dom().contains("rpc.grpc.status_code"@) {
        assert(f[0] == "rpc.grpc.status_code"@ + "="@ + s.attributes@["rpc.grpc.status_code"@]);
    }
}

proof fn calls_are_told(l: LlmSpan)
    ensures
        llm_parts(Some(l)).contains("llm "@ + l.provider@ + " "@ + l.model@),
        l.finish_reason matches Some(t) ==> llm_parts(Some(l)).contains("finish="@ + t@),
        l.prompt_sha256 matches Some(t) ==> llm_parts(Some(l)).contains("prompt="@ + t@),
        l.completion_sha256 matches Some(t) ==> llm_parts(Some(l)).contains("completion="@ + t@),
{
    let h = seq!["llm "@ + l.provider@ + " "@ + l.model@];
    let (p, q, r) = (
        text_part("finish="@, l.finish_reason),
        text_part("prompt="@, l.prompt_sha256),
        text_part("completion="@, l.completion_sha256),
    );
    all_in_either(h, p);
    all_in_either(h + p, q);
    all_in_either(h + p + q, r);
    assert(h[0] == "llm "@ + l.provider@ + " "@ + l.model@);
    if let Some(t) = l.finish_reason {
        assert(p[0] == "finish="@ + t@);
    }
    if let Some(t) = l.prompt_sha256 {
        assert(q[0] == "prompt="@ + t@);
    }
    if let Some(t) = l.completion_sha256 {
        assert(r[0] == "completion="@ + t@);
    }
}

proof fn part_of_a_trace(spans: Seq<Span>, i: int, part: Seq<char>)
    requires
        0 <= i < spans.len(),
    ensures
        span_parts(spans[i]).contains(part) ==> trace_parts(spans).contains(part),
    decreases spans.len(),
{
    let (head, tail) = (trace_parts(spans.drop_last()), span_parts(spans.last()));
    all_in_either(head, tail);
    if i < spans.len() - 1 {
        part_of_a_trace(spans.drop_last(), i, part);
    }
}

} // verus!
