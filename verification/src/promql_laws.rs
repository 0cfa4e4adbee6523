//! What every query keeps to: it reads back as it is written, and what stands
//! behind a whole query, or an aggregate around a comparison, makes none.

use crate::promql::{after_ws, agg_name, agg_op, behind, digit_run_end, expressions_are_plain, is_decimal_literal, is_name_char, is_number_char, is_quantile, lemma_after_ws, lemma_expr_progress, lemma_find_forward, lemma_name_end, name_end, next_compare_op, next_is, number_end, p_by_clause, p_duration, p_expect, p_expr, p_ident, p_matcher, p_matcher_list, p_matchers, p_name_list, p_number, p_optional_by, p_quantile, p_query, p_rate, p_selector, p_string, unit_seconds, AggOp, CompareOp, ExprModel, Fault, MatchOp, MatcherModel, SelectorModel};
use crate::text::{decimal, digits_value, find_char, is_digit, is_whitespace, starts_with_at};
use vstd::prelude::*;

verus! {

/// Whether a text ends what stands before it and carries no query on: it begins
/// with no character of a name, and what it holds first, behind whitespace, opens
/// neither matchers nor a `by` clause nor a comparison.
pub open spec fn carries_nothing_on(t: Seq<char>) -> bool {
    let first = after_ws(t, 0);
    &&& first < t.len()
    &&& !is_name_char(t[0])
    &&& t[first] != '{'
    &&& t[first] != 'b'
    &&& t[first] != '>'
    &&& t[first] != '<'
    &&& t[first] != '='
    &&& t[first] != '!'
}

/// A text `s` that stands in a larger one, from `n` on and before `t`.
struct Frame {
    s: Seq<char>,
    t: Seq<char>,
    big: Seq<char>,
    n: int,
}

impl Frame {
    spec fn wf(self) -> bool {
        &&& self.n >= 0
        &&& self.big.len() == self.n + self.s.len() + self.t.len()
        &&& forall|k: int|
            self.n <= k < self.n + self.s.len() ==> #[trigger] self.big[k] == self.s[k - self.n]
        &&& forall|k: int|
            self.n + self.s.len() <= k < self.big.len() ==> #[trigger] self.big[k] == self.t[k
                - self.n - self.s.len()]
        &&& carries_nothing_on(self.t)
    }

    /// The end of `s` and the whitespace behind it.
    spec fn beyond(self) -> int {
        self.n + self.s.len() + after_ws(self.t, 0)
    }

    /// Whether a position of the larger text is one of `s`, or lies behind
    /// whitespace where that is its end.
    spec fn meets(self, p: int, q: int) -> bool {
        &&& 0 <= p <= self.s.len()
        &&& q == self.n + p || (p == self.s.len() && q == self.beyond())
    }
}

proof fn ws_behind(f: Frame, k: int)
    requires
        f.wf(),
        0 <= k <= f.t.len(),
    ensures
        after_ws(f.big, f.n + f.s.len() + k) == f.n + f.s.len() + after_ws(f.t, k),
    decreases f.t.len() - k,
{
    if k < f.t.len() {
        assert(f.big[f.n + f.s.len() + k] == f.t[k]);
        if is_whitespace(f.t[k]) {
            ws_behind(f, k + 1);
        }
    }
}

/// Whitespace ends at the same place, or beyond.
proof fn ws_meets(f: Frame, p: int, q: int)
    requires
        f.wf(),
        f.meets(p, q),
    ensures
        p <= after_ws(f.s, p) <= f.s.len(),
        after_ws(f.s, p) < f.s.len() ==> after_ws(f.big, q) == f.n + after_ws(f.s, p),
        after_ws(f.s, p) == f.s.len() ==> after_ws(f.big, q) == f.beyond(),
    decreases f.s.len() - p,
{
    lemma_after_ws(f.s, p);
    lemma_after_ws(f.t, 0);
    if p == f.s.len() {
        ws_behind(f, 0);
        ws_behind(f, after_ws(f.t, 0));
    } else {
        assert(f.big[f.n + p] == f.s[p]);
        if is_whitespace(f.s[p]) {
            ws_meets(f, p + 1, q + 1);
        }
    }
}

proof fn runs_meet(f: Frame, p: int)
    requires
        f.wf(),
        0 <= p <= f.s.len(),
    ensures
        name_end(f.big, f.n + p) == f.n + name_end(f.s, p),
        number_end(f.big, f.n + p) == f.n + number_end(f.s, p),
        digit_run_end(f.big, f.n + p) == f.n + digit_run_end(f.s, p),
        p <= name_end(f.s, p) <= f.s.len(),
        p <= number_end(f.s, p) <= f.s.len(),
        p <= digit_run_end(f.s, p) <= f.s.len(),
    decreases f.s.len() - p,
{
    if p < f.s.len() {
        assert(f.big[f.n + p] == f.s[p]);
        runs_meet(f, p + 1);
    } else {
        assert(f.big[f.n + p] == f.t[0]);
        assert(!is_digit(f.t[0])) by {
            assert(!is_name_char(f.t[0]));
        }
    }
}

proof fn quotes_meet(f: Frame, p: int)
    requires
        f.wf(),
        0 <= p <= f.s.len(),
        find_char(f.s, p, '"') < f.s.len(),
    ensures
        find_char(f.big, f.n + p, '"') == f.n + find_char(f.s, p, '"'),
    decreases f.s.len() - p,
{
    assert(f.big[f.n + p] == f.s[p]);
    if f.s[p] != '"' {
        quotes_meet(f, p + 1);
    }
}

proof fn same_piece(f: Frame, a: int, b: int)
    requires
        f.wf(),
        0 <= a <= b <= f.s.len(),
    ensures
        f.big.subrange(f.n + a, f.n + b) == f.s.subrange(a, b),
{
    assert forall|k: int| 0 <= k < b - a implies f.big.subrange(f.n + a, f.n + b)[k]
        == f.s.subrange(a, b)[k] by {
        assert(f.big[f.n + a + k] == f.s[a + k]);
    }
    assert(f.big.subrange(f.n + a, f.n + b) =~= f.s.subrange(a, b));
}

/// A token that is next stays next.
proof fn next_meets(f: Frame, p: int, q: int, lit: Seq<char>)
    requires
        f.wf(),
        f.meets(p, q),
        lit.len() > 0,
        next_is(f.s, p, lit),
    ensures
        next_is(f.big, q, lit),
        f.meets(behind(f.s, p, lit), behind(f.big, q, lit)),
        behind(f.big, q, lit) == f.n + behind(f.s, p, lit),
        p < behind(f.s, p, lit),
{
    ws_meets(f, p, q);
    let w = after_ws(f.s, p);
    same_piece(f, w, w + lit.len());
}

/// A token that is not next does not become it, unless the text behind begins
/// with it.
proof fn not_next_meets(f: Frame, p: int, q: int, lit: Seq<char>)
    requires
        f.wf(),
        f.meets(p, q),
        0 < lit.len() <= 2,
        !next_is(f.s, p, lit),
        after_ws(f.s, p) == f.s.len() ==> lit[0] != f.t[after_ws(f.t, 0)],
        lit.len() == 2 ==> lit[1] != f.t[0],
    ensures
        !next_is(f.big, q, lit),
{
    ws_meets(f, p, q);
    lemma_after_ws(f.t, 0);
    let w = after_ws(f.s, p);
    let v = after_ws(f.big, q);
    if next_is(f.big, q, lit) {
        let piece = f.big.subrange(v, v + lit.len());
        assert(piece == lit);
        assert(piece[0] == f.big[v]);
        if w == f.s.len() {
            assert(f.big[v] == f.t[after_ws(f.t, 0)]);
        } else if w + lit.len() <= f.s.len() {
            same_piece(f, w, w + lit.len());
        } else {
            assert(piece[1] == f.big[v + 1]);
            assert(f.big[v + 1] == f.t[0]);
        }
    }
}

proof fn expect_meets(f: Frame, p: int, q: int, lit: Seq<char>)
    requires
        f.wf(),
        f.meets(p, q),
        lit.len() > 0,
        p_expect(f.s, p, lit) is Ok,
    ensures
        p_expect(f.big, q, lit) is Ok,
        f.meets(p_expect(f.s, p, lit)->Ok_0, p_expect(f.big, q, lit)->Ok_0),
        p < p_expect(f.s, p, lit)->Ok_0,
        after_ws(f.s, p) < f.s.len(),
{
    next_meets(f, p, q, lit);
    ws_meets(f, p, q);
}

proof fn ident_meets(f: Frame, p: int, q: int)
    requires
        f.wf(),
        f.meets(p, q),
        p_ident(f.s, p) is Ok,
    ensures
        p_ident(f.big, q) is Ok,
        p_ident(f.big, q)->Ok_0.0 == p_ident(f.s, p)->Ok_0.0,
        p_ident(f.big, q)->Ok_0.1 == f.n + p_ident(f.s, p)->Ok_0.1,
        f.meets(p_ident(f.s, p)->Ok_0.1, p_ident(f.big, q)->Ok_0.1),
        p < p_ident(f.s, p)->Ok_0.1,
        after_ws(f.s, p) < f.s.len(),
{
    ws_meets(f, p, q);
    let w = after_ws(f.s, p);
    lemma_name_end(f.s, w);
    runs_meet(f, w);
    same_piece(f, w, name_end(f.s, w));
}

proof fn string_meets(f: Frame, p: int, q: int)
    requires
        f.wf(),
        f.meets(p, q),
        p_string(f.s, p) is Ok,
    ensures
        p_string(f.big, q) is Ok,
        p_string(f.big, q)->Ok_0.0 == p_string(f.s, p)->Ok_0.0,
        f.meets(p_string(f.s, p)->Ok_0.1, p_string(f.big, q)->Ok_0.1),
        p < p_string(f.s, p)->Ok_0.1,
{
    ws_meets(f, p, q);
    let w = after_ws(f.s, p);
    assert(f.big[f.n + w] == f.s[w]);
    lemma_find_forward(f.s, w + 1);
    quotes_meet(f, w + 1);
    same_piece(f, w + 1, find_char(f.s, w + 1, '"'));
}

proof fn number_meets(f: Frame, p: int, q: int)
    requires
        f.wf(),
        f.meets(p, q),
        p_number(f.s, p) is Ok,
    ensures
        p_number(f.big, q) is Ok,
        p_number(f.big, q)->Ok_0.0 == p_number(f.s, p)->Ok_0.0,
        f.meets(p_number(f.s, p)->Ok_0.1, p_number(f.big, q)->Ok_0.1),
{
    ws_meets(f, p, q);
    let w = after_ws(f.s, p);
    if w == f.s.len() {
        assert(number_end(f.s, w) == w);
    }
    runs_meet(f, w);
    same_piece(f, w, number_end(f.s, w));
}

proof fn duration_meets(f: Frame, p: int, q: int)
    requires
        f.wf(),
        f.meets(p, q),
        p_duration(f.s, p) is Ok,
    ensures
        p_duration(f.big, q) is Ok,
        p_duration(f.big, q)->Ok_0.0 == p_duration(f.s, p)->Ok_0.0,
        f.meets(p_duration(f.s, p)->Ok_0.1, p_duration(f.big, q)->Ok_0.1),
{
    ws_meets(f, p, q);
    let w = after_ws(f.s, p);
    if w == f.s.len() {
        assert(digit_run_end(f.s, w) == w);
    }
    runs_meet(f, w);
    let e = digit_run_end(f.s, w);
    same_piece(f, w, e);
    assert(f.big[f.n + e] == f.s[e]);
}

proof fn matcher_meets(f: Frame, p: int, q: int)
    requires
        f.wf(),
        f.meets(p, q),
        p_matcher(f.s, p) is Ok,
    ensures
        p_matcher(f.big, q) is Ok,
        p_matcher(f.big, q)->Ok_0.0 == p_matcher(f.s, p)->Ok_0.0,
        f.meets(p_matcher(f.s, p)->Ok_0.1, p_matcher(f.big, q)->Ok_0.1),
        p < p_matcher(f.s, p)->Ok_0.1,
        after_ws(f.s, p) < f.s.len(),
{
    reveal_strlit("=");
    reveal_strlit("!=");
    ident_meets(f, p, q);
    let a = p_ident(f.s, p)->Ok_0.1;
    let b = p_ident(f.big, q)->Ok_0.1;
    if next_is(f.s, a, "="@) {
        next_meets(f, a, b, "="@);
        string_meets(f, behind(f.s, a, "="@), behind(f.big, b, "="@));
    } else {
        ws_meets(f, a, b);
        not_next_meets(f, a, b, "="@);
        next_meets(f, a, b, "!="@);
        string_meets(f, behind(f.s, a, "!="@), behind(f.big, b, "!="@));
    }
}

proof fn matcher_list_meets(f: Frame, p: int, q: int)
    requires
        f.wf(),
        f.meets(p, q),
        p_matcher_list(f.s, p) is Ok,
    ensures
        p_matcher_list(f.big, q) is Ok,
        p_matcher_list(f.big, q)->Ok_0.0 == p_matcher_list(f.s, p)->Ok_0.0,
        f.meets(p_matcher_list(f.s, p)->Ok_0.1, p_matcher_list(f.big, q)->Ok_0.1),
    decreases f.s.len() - p,
{
    reveal_strlit("}");
    reveal_strlit(",");
    lemma_after_ws(f.t, 0);
    if next_is(f.s, p, "}"@) {
        next_meets(f, p, q, "}"@);
    } else {
        matcher_meets(f, p, q);
        not_next_meets(f, p, q, "}"@);
        let a = p_matcher(f.s, p)->Ok_0.1;
        let b = p_matcher(f.big, q)->Ok_0.1;
        if next_is(f.s, a, ","@) {
            next_meets(f, a, b, ","@);
            matcher_list_meets(f, behind(f.s, a, ","@), behind(f.big, b, ","@));
        } else {
            expect_meets(f, a, b, "}"@);
            not_next_meets(f, a, b, ","@);
        }
    }
}

proof fn matchers_meet(f: Frame, p: int, q: int)
    requires
        f.wf(),
        f.meets(p, q),
        p_matchers(f.s, p) is Ok,
    ensures
        p_matchers(f.big, q) is Ok,
        p_matchers(f.big, q)->Ok_0.0 == p_matchers(f.s, p)->Ok_0.0,
        f.meets(p_matchers(f.s, p)->Ok_0.1, p_matchers(f.big, q)->Ok_0.1),
{
    reveal_strlit("{");
    if next_is(f.s, p, "{"@) {
        next_meets(f, p, q, "{"@);
        matcher_list_meets(f, behind(f.s, p, "{"@), behind(f.big, q, "{"@));
    } else {
        not_next_meets(f, p, q, "{"@);
        ws_meets(f, p, q);
    }
}

proof fn selector_meets(f: Frame, p: int, q: int)
    requires
        f.wf(),
        f.meets(p, q),
        p_selector(f.s, p) is Ok,
    ensures
        p_selector(f.big, q) is Ok,
        p_selector(f.big, q)->Ok_0.0 == p_selector(f.s, p)->Ok_0.0,
        f.meets(p_selector(f.s, p)->Ok_0.1, p_selector(f.big, q)->Ok_0.1),
{
    ident_meets(f, p, q);
    matchers_meet(f, p_ident(f.s, p)->Ok_0.1, p_ident(f.big, q)->Ok_0.1);
}

proof fn name_list_meets(f: Frame, p: int, q: int)
    requires
        f.wf(),
        f.meets(p, q),
        p_name_list(f.s, p) is Ok,
    ensures
        p_name_list(f.big, q) is Ok,
        p_name_list(f.big, q)->Ok_0.0 == p_name_list(f.s, p)->Ok_0.0,
        f.meets(p_name_list(f.s, p)->Ok_0.1, p_name_list(f.big, q)->Ok_0.1),
    decreases f.s.len() - p,
{
    reveal_strlit(")");
    reveal_strlit(",");
    if next_is(f.s, p, ")"@) {
        next_meets(f, p, q, ")"@);
    } else {
        ident_meets(f, p, q);
        not_next_meets(f, p, q, ")"@);
        let a = p_ident(f.s, p)->Ok_0.1;
        let b = p_ident(f.big, q)->Ok_0.1;
        if next_is(f.s, a, ","@) {
            next_meets(f, a, b, ","@);
            name_list_meets(f, behind(f.s, a, ","@), behind(f.big, b, ","@));
        } else {
            expect_meets(f, a, b, ")"@);
            not_next_meets(f, a, b, ","@);
        }
    }
}

proof fn by_clause_meets(f: Frame, p: int, q: int)
    requires
        f.wf(),
        f.meets(p, q),
        p_by_clause(f.s, p) is Ok,
    ensures
        p_by_clause(f.big, q) is Ok,
        p_by_clause(f.big, q)->Ok_0.0 == p_by_clause(f.s, p)->Ok_0.0,
        f.meets(p_by_clause(f.s, p)->Ok_0.1, p_by_clause(f.big, q)->Ok_0.1),
{
    reveal_strlit("(");
    expect_meets(f, p, q, "("@);
    name_list_meets(f, p_expect(f.s, p, "("@)->Ok_0, p_expect(f.big, q, "("@)->Ok_0);
}

proof fn no_by_behind(f: Frame, p: int, q: int)
    requires
        f.wf(),
        f.meets(p, q),
        !next_is(f.s, p, "by"@),
    ensures
        !next_is(f.big, q, "by"@),
{
    reveal_strlit("by");
    assert(is_name_char('y'));
    not_next_meets(f, p, q, "by"@);
}

proof fn optional_by_meets(f: Frame, p: int, q: int)
    requires
        f.wf(),
        f.meets(p, q),
        p_optional_by(f.s, p) is Ok,
    ensures
        p_optional_by(f.big, q) is Ok,
        p_optional_by(f.big, q)->Ok_0.0 == p_optional_by(f.s, p)->Ok_0.0,
        f.meets(p_optional_by(f.s, p)->Ok_0.1, p_optional_by(f.big, q)->Ok_0.1),
{
    reveal_strlit("by");
    if next_is(f.s, p, "by"@) {
        next_meets(f, p, q, "by"@);
        by_clause_meets(f, behind(f.s, p, "by"@), behind(f.big, q, "by"@));
    } else {
        no_by_behind(f, p, q);
        ws_meets(f, p, q);
    }
}

proof fn rate_meets(f: Frame, p: int, q: int)
    requires
        f.wf(),
        f.meets(p, q),
        p_rate(f.s, p) is Ok,
    ensures
        p_rate(f.big, q) is Ok,
        p_rate(f.big, q)->Ok_0.0 == p_rate(f.s, p)->Ok_0.0,
        f.meets(p_rate(f.s, p)->Ok_0.1, p_rate(f.big, q)->Ok_0.1),
{
    reveal_strlit("(");
    reveal_strlit("[");
    reveal_strlit("]");
    reveal_strlit(")");
    expect_meets(f, p, q, "("@);
    let (p1, q1) = (p_expect(f.s, p, "("@)->Ok_0, p_expect(f.big, q, "("@)->Ok_0);
    selector_meets(f, p1, q1);
    let (p2, q2) = (p_selector(f.s, p1)->Ok_0.1, p_selector(f.big, q1)->Ok_0.1);
    expect_meets(f, p2, q2, "["@);
    let (p3, q3) = (p_expect(f.s, p2, "["@)->Ok_0, p_expect(f.big, q2, "["@)->Ok_0);
    duration_meets(f, p3, q3);
    let (p4, q4) = (p_duration(f.s, p3)->Ok_0.1, p_duration(f.big, q3)->Ok_0.1);
    expect_meets(f, p4, q4, "]"@);
    expect_meets(f, p_expect(f.s, p4, "]"@)->Ok_0, p_expect(f.big, q4, "]"@)->Ok_0, ")"@);
}

proof fn quantile_meets(f: Frame, p: int, q: int)
    requires
        f.wf(),
        f.meets(p, q),
        p_quantile(f.s, p) is Ok,
    ensures
        p_quantile(f.big, q) is Ok,
        p_quantile(f.big, q)->Ok_0.0 == p_quantile(f.s, p)->Ok_0.0,
        f.meets(p_quantile(f.s, p)->Ok_0.1, p_quantile(f.big, q)->Ok_0.1),
{
    reveal_strlit("(");
    reveal_strlit(",");
    reveal_strlit(")");
    expect_meets(f, p, q, "("@);
    let (p1, q1) = (p_expect(f.s, p, "("@)->Ok_0, p_expect(f.big, q, "("@)->Ok_0);
    number_meets(f, p1, q1);
    let (p2, q2) = (p_number(f.s, p1)->Ok_0.1, p_number(f.big, q1)->Ok_0.1);
    expect_meets(f, p2, q2, ","@);
    let (p3, q3) = (p_expect(f.s, p2, ","@)->Ok_0, p_expect(f.big, q2, ","@)->Ok_0);
    selector_meets(f, p3, q3);
    let (p4, q4) = (p_selector(f.s, p3)->Ok_0.1, p_selector(f.big, q3)->Ok_0.1);
    expect_meets(f, p4, q4, ")"@);
    optional_by_meets(f, p_expect(f.s, p4, ")"@)->Ok_0, p_expect(f.big, q4, ")"@)->Ok_0);
}

/// An expression reads the same wherever it stands, if what is behind carries
/// nothing on.
proof fn expr_meets(f: Frame, p: int, q: int)
    requires
        f.wf(),
        f.meets(p, q),
        p_expr(f.s, p) is Ok,
    ensures
        p_expr(f.big, q) is Ok,
        p_expr(f.big, q)->Ok_0.0 == p_expr(f.s, p)->Ok_0.0,
        f.meets(p_expr(f.s, p)->Ok_0.1, p_expr(f.big, q)->Ok_0.1),
    decreases f.s.len() - p,
{
    reveal_strlit("(");
    reveal_strlit(")");
    reveal_strlit("by");
    ws_meets(f, p, q);
    lemma_after_ws(f.s, p);
    lemma_after_ws(f.t, 0);
    lemma_after_ws(f.big, q);
    let a = after_ws(f.s, p);
    let b = after_ws(f.big, q);
    assert(f.meets(a, b));
    ident_meets(f, a, b);
    lemma_expr_progress(f.s, p);
    let ident = p_ident(f.s, a)->Ok_0.0;
    let (p1, q1) = (p_ident(f.s, a)->Ok_0.1, p_ident(f.big, b)->Ok_0.1);
    if ident == "rate"@ {
        rate_meets(f, p1, q1);
    } else if ident == "histogram_quantile"@ {
        quantile_meets(f, p1, q1);
    } else if agg_op(ident) is Some {
        if next_is(f.s, p1, "by"@) {
            next_meets(f, p1, q1, "by"@);
            let (p2, q2) = (behind(f.s, p1, "by"@), behind(f.big, q1, "by"@));
            by_clause_meets(f, p2, q2);
            let (p3, q3) = (p_by_clause(f.s, p2)->Ok_0.1, p_by_clause(f.big, q2)->Ok_0.1);
            expect_meets(f, p3, q3, "("@);
            let (p4, q4) = (p_expect(f.s, p3, "("@)->Ok_0, p_expect(f.big, q3, "("@)->Ok_0);
            expr_meets(f, p4, q4);
            expect_meets(f, p_expr(f.s, p4)->Ok_0.1, p_expr(f.big, q4)->Ok_0.1, ")"@);
        } else {
            no_by_behind(f, p1, q1);
            expect_meets(f, p1, q1, "("@);
            let (p2, q2) = (p_expect(f.s, p1, "("@)->Ok_0, p_expect(f.big, q1, "("@)->Ok_0);
            expr_meets(f, p2, q2);
            let (p3, q3) = (p_expr(f.s, p2)->Ok_0.1, p_expr(f.big, q2)->Ok_0.1);
            expect_meets(f, p3, q3, ")"@);
            optional_by_meets(f, p_expect(f.s, p3, ")"@)->Ok_0, p_expect(f.big, q3, ")"@)->Ok_0);
        }
    } else {
        matchers_meet(f, p1, q1);
    }
}

proof fn compare_op_meets(f: Frame, p: int, q: int)
    requires
        f.wf(),
        f.meets(p, q),
    ensures
        next_compare_op(f.big, q) == next_compare_op(f.s, p),
        next_compare_op(f.s, p) matches Some(op) ==> f.meets(
            behind(f.s, p, op.symbol()),
            behind(f.big, q, op.symbol()),
        ) && after_ws(f.s, p) < f.s.len(),
{
    reveal_strlit(">=");
    reveal_strlit("<=");
    reveal_strlit("==");
    reveal_strlit("!=");
    reveal_strlit(">");
    reveal_strlit("<");
    lemma_after_ws(f.t, 0);
    ws_meets(f, p, q);
    assert(f.t[0] != '=') by {
        assert(!is_whitespace('='));
    }
    op_meets(f, p, q, ">="@);
    op_meets(f, p, q, "<="@);
    op_meets(f, p, q, "=="@);
    op_meets(f, p, q, "!="@);
    op_meets(f, p, q, ">"@);
    op_meets(f, p, q, "<"@);
}

proof fn op_meets(f: Frame, p: int, q: int, lit: Seq<char>)
    requires
        f.wf(),
        f.meets(p, q),
        0 < lit.len() <= 2,
        lit[0] == '>' || lit[0] == '<' || lit[0] == '=' || lit[0] == '!',
        lit.len() == 2 ==> lit[1] != f.t[0],
    ensures
        next_is(f.big, q, lit) == next_is(f.s, p, lit),
        next_is(f.s, p, lit) ==> f.meets(behind(f.s, p, lit), behind(f.big, q, lit)) && after_ws(
            f.s,
            p,
        ) < f.s.len(),
{
    if next_is(f.s, p, lit) {
        next_meets(f, p, q, lit);
        ws_meets(f, p, q);
    } else {
        not_next_meets(f, p, q, lit);
    }
}

/// More text behind a query makes it none, where that text begins nothing that
/// could belong to it.
pub proof fn trailing_text_is_refused(s: Seq<char>, t: Seq<char>)
    requires
        p_query(s) is Ok,
        carries_nothing_on(t),
    ensures
        p_query(s + t) matches Err(Fault::TrailingInput { .. }),
{
    let f = Frame { s, t, big: s + t, n: 0 };
    lemma_after_ws(t, 0);
    expr_meets(f, 0, 0);
    let (p, q) = (p_expr(s, 0)->Ok_0.1, p_expr(s + t, 0)->Ok_0.1);
    compare_op_meets(f, p, q);
    match next_compare_op(s, p) {
        Some(op) => {
            let (p1, q1) = (behind(s, p, op.symbol()), behind(s + t, q, op.symbol()));
            number_meets(f, p1, q1);
            ws_meets(f, p_number(s, p1)->Ok_0.1, p_number(s + t, q1)->Ok_0.1);
        },
        None => {
            ws_meets(f, p, q);
        },
    }
}

/// A word behind a query, set off by a space, makes it none; `by` and what
/// begins like it apart.
pub proof fn a_word_behind_is_refused(s: Seq<char>, word: Seq<char>)
    requires
        p_query(s) is Ok,
        word.len() > 0,
        is_name_char(word[0]),
        !is_whitespace(word[0]),
        word[0] != 'b',
    ensures
        p_query(s + " "@ + word) matches Err(Fault::TrailingInput { .. }),
{
    reveal_strlit(" ");
    let t = " "@ + word;
    assert(t[0] == ' ' && t[1] == word[0]);
    assert(after_ws(t, 1) == 1);
    assert(after_ws(t, 0) == 1);
    assert(s + " "@ + word =~= s + t);
    trailing_text_is_refused(s, t);
}

/// A comparison stands at the top level only: inside an aggregate it is
/// refused.
pub proof fn compared_queries_are_not_aggregated(s: Seq<char>, name: Seq<char>)
    requires
        p_query(s) matches Ok(ExprModel::Compare { .. }),
        agg_op(name) is Some,
    ensures
        p_query(name + "("@ + s + ")"@) is Err,
{
    let big = name + "("@ + s + ")"@;
    let n = name.len() as int;
    aggregates_open(name, s);
    comparison_stays_open(name, s);
    // Behind the name stands the bracket, and what it holds ends at the operator.
    assert(p_expr(big, 0) is Err);
}

/// The name of an aggregate and the bracket behind it are read first.
proof fn aggregates_open(name: Seq<char>, s: Seq<char>)
    requires
        agg_op(name) is Some,
    ensures
        ({
            let big = name + "("@ + s + ")"@;
            let n = name.len() as int;
            &&& after_ws(big, 0) == 0
            &&& p_ident(big, 0) == Ok::<(Seq<char>, int), Fault>((name, n))
            &&& name != "rate"@ && name != "histogram_quantile"@
            &&& !next_is(big, n, "by"@)
            &&& p_expect(big, n, "("@) == Ok::<int, Fault>(n + 1)
        }),
{
    reveal_strlit("(");
    reveal_strlit(")");
    reveal_strlit("by");
    let big = name + "("@ + s + ")"@;
    let n = name.len() as int;
    aggregates_are_words(name);
    assert(forall|k: int| 0 <= k < n ==> #[trigger] big[k] == name[k]);
    assert(big[n] == '(');
    assert(big[0] == name[0]);
    name_is_whole(big, n, 0);
    assert(big.subrange(0, n) =~= name);
    assert(after_ws(big, n) == n);
    assert(!next_is(big, n, "by"@)) by {
        assert(big.subrange(n, n + 2)[0] == '(');
    }
    assert(big.subrange(n, n + 1) =~= "("@);
}

proof fn aggregates_are_words(name: Seq<char>)
    requires
        agg_op(name) is Some,
    ensures
        name.len() > 0,
        forall|k: int| 0 <= k < name.len() ==> is_name_char(#[trigger] name[k]),
        !is_whitespace(name[0]),
        name != "rate"@,
        name != "histogram_quantile"@,
{
    reveal_strlit("sum");
    reveal_strlit("avg");
    reveal_strlit("min");
    reveal_strlit("max");
    reveal_strlit("count");
    reveal_strlit("rate");
    reveal_strlit("histogram_quantile");
}

/// What stands in the brackets reads as it does alone, up to its operator, where
/// no bracket closes.
proof fn comparison_stays_open(name: Seq<char>, s: Seq<char>)
    requires
        p_query(s) matches Ok(ExprModel::Compare { .. }),
    ensures
        ({
            let big = name + "("@ + s + ")"@;
            let n = name.len() as int;
            p_expr(big, n + 1) matches Ok((_, q)) && p_expect(big, q, ")"@) is Err
        }),
{
    let f = in_brackets(name, s);
    comparisons_have_an_operator(s);
    expr_meets(f, 0, f.n);
    operators_are_no_brackets(f, p_expr(s, 0)->Ok_0.1, p_expr(f.big, f.n)->Ok_0.1);
}

proof fn in_brackets(name: Seq<char>, s: Seq<char>) -> (f: Frame)
    ensures
        f.wf(),
        f.s == s,
        f.n == name.len() + 1,
        f.big == name + "("@ + s + ")"@,
        f.meets(0, f.n),
{
    reveal_strlit("(");
    reveal_strlit(")");
    let t = ")"@;
    assert(t[0] == ')');
    assert(after_ws(t, 0) == 0);
    Frame { s, t, big: name + "("@ + s + ")"@, n: name.len() as int + 1 }
}

proof fn comparisons_have_an_operator(s: Seq<char>)
    requires
        p_query(s) matches Ok(ExprModel::Compare { .. }),
    ensures
        p_expr(s, 0) matches Ok((_, p)) && next_compare_op(s, p) is Some,
{
    expressions_are_plain(s, 0);
}

proof fn operators_are_no_brackets(f: Frame, p: int, q: int)
    requires
        f.wf(),
        f.meets(p, q),
        next_compare_op(f.s, p) is Some,
    ensures
        p_expect(f.big, q, ")"@) is Err,
{
    reveal_strlit(")");
    compare_op_meets(f, p, q);
    ws_meets(f, p, q);
    let op = next_compare_op(f.s, p)->0;
    let w = after_ws(f.s, p);
    operators_open(op);
    assert(next_is(f.s, p, op.symbol()));
    assert(f.s.subrange(w, w + op.symbol().len())[0] == f.s[w]);
    assert(f.big[f.n + w] == f.s[w]);
    assert(f.big.subrange(f.n + w, f.n + w + 1)[0] == f.big[f.n + w]);
}

proof fn operators_open(op: CompareOp)
    ensures
        op.symbol().len() > 0,
        op.symbol()[0] == '>' || op.symbol()[0] == '<' || op.symbol()[0] == '='
            || op.symbol()[0] == '!',
{
    reveal_strlit(">=");
    reveal_strlit("<=");
    reveal_strlit("==");
    reveal_strlit("!=");
    reveal_strlit(">");
    reveal_strlit("<");
}

proof fn name_is_whole(s: Seq<char>, n: int, from: int)
    requires
        0 <= from <= n < s.len(),
        forall|k: int| 0 <= k < n ==> is_name_char(#[trigger] s[k]),
        s[n] == '(',
    ensures
        name_end(s, from) == n,
    decreases n - from,
{
    if from < n {
        assert(is_name_char(s[from]));
        name_is_whole(s, n, from + 1);
    }
}

// ── Queries as they are written ─────────────────────────────────────

/// Whether a text can stand as a name.
pub open spec fn is_word(s: Seq<char>) -> bool {
    &&& s.len() > 0
    &&& !is_whitespace(s[0])
    &&& forall|k: int| 0 <= k < s.len() ==> is_name_char(#[trigger] s[k])
}

pub open spec fn matcher_text(m: MatcherModel) -> Seq<char> {
    m.name + match m.op {
        MatchOp::Eq => "=\""@,
        MatchOp::NotEq => "!=\""@,
    } + m.value + "\""@
}

/// What stands behind `{`.
pub open spec fn matchers_text(ms: Seq<MatcherModel>) -> Seq<char>
    decreases ms.len(),
{
    if ms.len() == 0 {
        "}"@
    } else {
        matcher_text(ms[0]) + if ms.len() == 1 {
            "}"@
        } else {
            ","@ + matchers_text(ms.drop_first())
        }
    }
}

pub open spec fn selector_text(s: SelectorModel) -> Seq<char> {
    s.metric + if s.matchers.len() == 0 {
        Seq::empty()
    } else {
        "{"@ + matchers_text(s.matchers)
    }
}

/// What stands behind `by(`.
pub open spec fn names_text(names: Seq<Seq<char>>) -> Seq<char>
    decreases names.len(),
{
    if names.len() == 0 {
        ")"@
    } else {
        names[0] + if names.len() == 1 {
            ")"@
        } else {
            ","@ + names_text(names.drop_first())
        }
    }
}

/// A query as it is written: `sum by(a)(rate(m{b="c"}[60s]))>5`.
pub open spec fn query_text(e: ExprModel) -> Seq<char>
    decreases e,
{
    match e {
        ExprModel::Selector(s) => selector_text(s),
        ExprModel::Rate { selector, range_seconds } => "rate("@ + selector_text(selector) + "["@
            + decimal(range_seconds as nat) + "s])"@,
        ExprModel::Aggregate { op, by, inner } => agg_name(op) + if by.len() == 0 {
            Seq::empty()
        } else {
            " by("@ + names_text(by)
        } + "("@ + query_text(*inner) + ")"@,
        ExprModel::HistogramQuantile { phi, selector, by } => "histogram_quantile("@ + phi + ","@
            + selector_text(selector) + ")"@ + if by.len() == 0 {
            Seq::empty()
        } else {
            "by("@ + names_text(by)
        },
        ExprModel::Compare { inner, op, threshold } => query_text(*inner) + op.symbol() + threshold,
    }
}

pub open spec fn selector_can_be_written(s: SelectorModel) -> bool {
    &&& is_word(s.metric)
    &&& forall|i: int|
        0 <= i < s.matchers.len() ==> is_word((#[trigger] s.matchers[i]).name)
            && !s.matchers[i].value.contains('"')
}

pub open spec fn number_can_be_written(s: Seq<char>) -> bool {
    &&& s.len() > 0
    &&& is_decimal_literal(s)
    &&& forall|k: int| 0 <= k < s.len() ==> is_number_char(#[trigger] s[k])
}

/// Whether an expression can be written: its names are words that stand for
/// nothing else, its values hold no quote, and its numbers are literals.
pub open spec fn can_be_written(e: ExprModel) -> bool
    decreases e,
{
    match e {
        ExprModel::Selector(s) => selector_can_be_written(s) && s.metric != "rate"@ && s.metric
            != "histogram_quantile"@ && agg_op(s.metric) is None,
        ExprModel::Rate { selector, range_seconds } => selector_can_be_written(selector)
            && range_seconds >= 0,
        ExprModel::Aggregate { by, inner, .. } => can_be_written(*inner) && !(*inner is Compare)
            && forall|i: int| 0 <= i < by.len() ==> is_word(#[trigger] by[i]),
        ExprModel::HistogramQuantile { phi, selector, by } => number_can_be_written(phi)
            && is_quantile(phi) && selector_can_be_written(selector) && forall|i: int|
            0 <= i < by.len() ==> is_word(#[trigger] by[i]),
        ExprModel::Compare { inner, threshold, .. } => can_be_written(*inner) && !(*inner is Compare)
            && number_can_be_written(threshold),
    }
}

/// Whether a text stands at a position.
spec fn stands(s: Seq<char>, pos: int, x: Seq<char>) -> bool {
    0 <= pos && starts_with_at(s, pos, x)
}

/// Whether what stands behind a position ends an expression.
spec fn closes(s: Seq<char>, p: int) -> bool {
    p == s.len() || (0 <= p < s.len() && (s[p] == ')' || s[p] == '[' || s[p] == '>' || s[p] == '<'
        || s[p] == '=' || s[p] == '!'))
}

proof fn pieces(s: Seq<char>, pos: int, x: Seq<char>, y: Seq<char>)
    requires
        stands(s, pos, x + y),
    ensures
        stands(s, pos, x),
        stands(s, pos + x.len(), y),
{
    let all = x + y;
    let here = s.subrange(pos, pos + all.len());
    assert forall|k: int| 0 <= k < x.len() implies s[pos + k] == x[k] by {
        assert(here[k] == all[k]);
    }
    assert forall|k: int| 0 <= k < y.len() implies s[pos + x.len() + k] == y[k] by {
        assert(here[x.len() + k] == all[x.len() + k]);
    }
    assert(s.subrange(pos, pos + x.len()) =~= x);
    assert(s.subrange(pos + x.len(), pos + x.len() + y.len()) =~= y);
}

proof fn letters(s: Seq<char>, pos: int, x: Seq<char>)
    requires
        stands(s, pos, x),
    ensures
        forall|k: int| pos <= k < pos + x.len() ==> #[trigger] s[k] == x[k - pos],
        pos + x.len() <= s.len(),
{
    let here = s.subrange(pos, pos + x.len());
    assert forall|k: int| pos <= k < pos + x.len() implies #[trigger] s[k] == x[k - pos] by {
        assert(here[k - pos] == s[k]);
    }
}

proof fn token_reads(s: Seq<char>, pos: int, lit: Seq<char>)
    requires
        stands(s, pos, lit),
        lit.len() > 0,
        !is_whitespace(lit[0]),
    ensures
        next_is(s, pos, lit),
        behind(s, pos, lit) == pos + lit.len(),
        p_expect(s, pos, lit) == Ok::<int, Fault>(pos + lit.len()),
{
    letters(s, pos, lit);
    assert(s[pos] == lit[0]);
}

/// No token stands where another character does.
proof fn token_is_not(s: Seq<char>, pos: int, lit: Seq<char>)
    requires
        0 <= pos <= s.len(),
        lit.len() > 0,
        pos < s.len() ==> !is_whitespace(s[pos]) && s[pos] != lit[0],
    ensures
        !next_is(s, pos, lit),
{
    if next_is(s, pos, lit) {
        assert(s.subrange(pos, pos + lit.len())[0] == s[pos]);
    }
}

proof fn name_runs(s: Seq<char>, from: int, end: int)
    requires
        0 <= from <= end <= s.len(),
        forall|k: int| from <= k < end ==> is_name_char(#[trigger] s[k]),
        end < s.len() ==> !is_name_char(s[end]),
    ensures
        name_end(s, from) == end,
    decreases end - from,
{
    if from < end {
        assert(is_name_char(s[from]));
        name_runs(s, from + 1, end);
    }
}

proof fn number_runs(s: Seq<char>, from: int, end: int)
    requires
        0 <= from <= end <= s.len(),
        forall|k: int| from <= k < end ==> is_number_char(#[trigger] s[k]),
        end < s.len() ==> !is_number_char(s[end]),
    ensures
        number_end(s, from) == end,
    decreases end - from,
{
    if from < end {
        assert(is_number_char(s[from]));
        number_runs(s, from + 1, end);
    }
}

proof fn digits_run(s: Seq<char>, from: int, end: int)
    requires
        0 <= from <= end <= s.len(),
        forall|k: int| from <= k < end ==> is_digit(#[trigger] s[k]),
        end < s.len() ==> !is_digit(s[end]),
    ensures
        digit_run_end(s, from) == end,
    decreases end - from,
{
    if from < end {
        assert(is_digit(s[from]));
        digits_run(s, from + 1, end);
    }
}

proof fn quote_is_next(s: Seq<char>, from: int, end: int)
    requires
        0 <= from <= end < s.len(),
        forall|k: int| from <= k < end ==> #[trigger] s[k] != '"',
        s[end] == '"',
    ensures
        find_char(s, from, '"') == end,
    decreases end - from,
{
    if from < end {
        assert(s[from] != '"');
        quote_is_next(s, from + 1, end);
    }
}

proof fn word_reads(s: Seq<char>, pos: int, w: Seq<char>)
    requires
        is_word(w),
        stands(s, pos, w),
        pos + w.len() < s.len() ==> !is_name_char(s[pos + w.len()]),
    ensures
        after_ws(s, pos) == pos,
        p_ident(s, pos) == Ok::<(Seq<char>, int), Fault>((w, pos + w.len())),
{
    letters(s, pos, w);
    assert(s[pos] == w[0]);
    assert forall|k: int| pos <= k < pos + w.len() implies is_name_char(#[trigger] s[k]) by {
        assert(is_name_char(w[k - pos]));
    }
    name_runs(s, pos, pos + w.len());
}

proof fn number_reads(s: Seq<char>, pos: int, x: Seq<char>)
    requires
        number_can_be_written(x),
        stands(s, pos, x),
        pos + x.len() < s.len() ==> !is_number_char(s[pos + x.len()]),
    ensures
        p_number(s, pos) == Ok::<(Seq<char>, int), Fault>((x, pos + x.len())),
{
    letters(s, pos, x);
    assert(s[pos] == x[0]);
    assert(is_number_char(x[0]));
    assert forall|k: int| pos <= k < pos + x.len() implies is_number_char(#[trigger] s[k]) by {
        assert(is_number_char(x[k - pos]));
    }
    number_runs(s, pos, pos + x.len());
}

proof fn matcher_reads(s: Seq<char>, pos: int, m: MatcherModel)
    requires
        is_word(m.name),
        !m.value.contains('"'),
        stands(s, pos, matcher_text(m)),
    ensures
        p_matcher(s, pos) == Ok::<(MatcherModel, int), Fault>((m, pos + matcher_text(m).len())),
        after_ws(s, pos) == pos,
        is_name_char(s[pos]),
        !is_whitespace(s[pos]),
        pos < s.len(),
{
    reveal_strlit("=\"");
    reveal_strlit("!=\"");
    reveal_strlit("\"");
    reveal_strlit("=");
    reveal_strlit("!=");
    let op = match m.op {
        MatchOp::Eq => "=\""@,
        MatchOp::NotEq => "!=\""@,
    };
    let lit = match m.op {
        MatchOp::Eq => "="@,
        MatchOp::NotEq => "!="@,
    };
    pieces(s, pos, m.name + op + m.value, "\""@);
    pieces(s, pos, m.name + op, m.value);
    pieces(s, pos, m.name, op);
    letters(s, pos, m.name);
    let p = pos + m.name.len();
    letters(s, p, op);
    assert(s[pos] == m.name[0]);
    assert(is_name_char(m.name[0]));
    assert(s[p] == op[0]);
    word_reads(s, pos, m.name);
    let q = p + op.len();
    assert(op =~= lit + "\""@);
    pieces(s, p, lit, "\""@);
    token_reads(s, p, lit);
    if m.op == MatchOp::NotEq {
        token_is_not(s, p, "="@);
    }
    assert(s[q - 1] == '"') by {
        assert(s[q - 1] == op[op.len() - 1]);
    }
    letters(s, q, m.value);
    let end = q + m.value.len();
    letters(s, end, "\""@);
    assert(s[end] == '"');
    assert forall|k: int| q <= k < end implies #[trigger] s[k] != '"' by {
        assert(m.value.contains(m.value[k - q]));
    }
    quote_is_next(s, q, end);
    assert(s.subrange(q, end) =~= m.value);
}

proof fn matcher_list_reads(s: Seq<char>, pos: int, ms: Seq<MatcherModel>)
    requires
        forall|i: int|
            0 <= i < ms.len() ==> is_word((#[trigger] ms[i]).name) && !ms[i].value.contains('"'),
        stands(s, pos, matchers_text(ms)),
    ensures
        p_matcher_list(s, pos) == Ok::<(Seq<MatcherModel>, int), Fault>(
            (ms, pos + matchers_text(ms).len()),
        ),
    decreases ms.len(),
{
    reveal_strlit("}");
    reveal_strlit(",");
    if ms.len() == 0 {
        token_reads(s, pos, "}"@);
        assert(ms =~= Seq::<MatcherModel>::empty());
    } else {
        let m = ms[0];
        let rest = ms.drop_first();
        let first = matcher_text(m);
        let p = pos + first.len();
        if ms.len() == 1 {
            pieces(s, pos, first, "}"@);
            matcher_reads(s, pos, m);
            token_is_not(s, pos, "}"@);
            letters(s, p, "}"@);
            token_is_not(s, p, ","@);
            token_reads(s, p, "}"@);
            assert(ms =~= seq![m]);
        } else {
            pieces(s, pos, first, ","@ + matchers_text(rest));
            pieces(s, p, ","@, matchers_text(rest));
            matcher_reads(s, pos, m);
            token_is_not(s, pos, "}"@);
            token_reads(s, p, ","@);
            assert forall|i: int| 0 <= i < rest.len() implies is_word((#[trigger] rest[i]).name)
                && !rest[i].value.contains('"') by {
                assert(rest[i] == ms[i + 1]);
            }
            matcher_list_reads(s, p + 1, rest);
            assert(seq![m] + rest =~= ms);
        }
    }
}

proof fn matchers_read(s: Seq<char>, pos: int, sel: SelectorModel)
    requires
        selector_can_be_written(sel),
        stands(s, pos, selector_text(sel)),
        closes(s, pos + selector_text(sel).len()),
    ensures
        after_ws(s, pos) == pos,
        p_ident(s, pos) == Ok::<(Seq<char>, int), Fault>((sel.metric, pos + sel.metric.len())),
        p_matchers(s, pos + sel.metric.len()) == Ok::<(Seq<MatcherModel>, int), Fault>(
            (sel.matchers, pos + selector_text(sel).len()),
        ),
{
    reveal_strlit("{");
    let p = pos + sel.metric.len();
    if sel.matchers.len() == 0 {
        assert(selector_text(sel) =~= sel.metric);
        word_reads(s, pos, sel.metric);
        token_is_not(s, p, "{"@);
        assert(sel.matchers =~= Seq::<MatcherModel>::empty());
    } else {
        let rest = matchers_text(sel.matchers);
        pieces(s, pos, sel.metric, "{"@ + rest);
        pieces(s, p, "{"@, rest);
        letters(s, p, "{"@);
        word_reads(s, pos, sel.metric);
        token_reads(s, p, "{"@);
        matcher_list_reads(s, p + 1, sel.matchers);
    }
}

proof fn selector_reads(s: Seq<char>, pos: int, sel: SelectorModel)
    requires
        selector_can_be_written(sel),
        stands(s, pos, selector_text(sel)),
        closes(s, pos + selector_text(sel).len()),
    ensures
        p_selector(s, pos) == Ok::<(SelectorModel, int), Fault>(
            (sel, pos + selector_text(sel).len()),
        ),
{
    matchers_read(s, pos, sel);
}

proof fn name_list_reads(s: Seq<char>, pos: int, names: Seq<Seq<char>>)
    requires
        forall|i: int| 0 <= i < names.len() ==> is_word(#[trigger] names[i]),
        stands(s, pos, names_text(names)),
    ensures
        p_name_list(s, pos) == Ok::<(Seq<Seq<char>>, int), Fault>(
            (names, pos + names_text(names).len()),
        ),
    decreases names.len(),
{
    reveal_strlit(")");
    reveal_strlit(",");
    if names.len() == 0 {
        token_reads(s, pos, ")"@);
        assert(names =~= Seq::<Seq<char>>::empty());
    } else {
        let w = names[0];
        let rest = names.drop_first();
        let p = pos + w.len();
        if names.len() == 1 {
            pieces(s, pos, w, ")"@);
            letters(s, p, ")"@);
            letters(s, pos, w);
            assert(s[pos] == w[0] && is_name_char(w[0]));
            word_reads(s, pos, w);
            token_is_not(s, pos, ")"@);
            token_is_not(s, p, ","@);
            token_reads(s, p, ")"@);
            assert(names =~= seq![w]);
        } else {
            pieces(s, pos, w, ","@ + names_text(rest));
            pieces(s, p, ","@, names_text(rest));
            letters(s, p, ","@);
            letters(s, pos, w);
            assert(s[pos] == w[0] && is_name_char(w[0]));
            word_reads(s, pos, w);
            token_is_not(s, pos, ")"@);
            token_reads(s, p, ","@);
            assert forall|i: int| 0 <= i < rest.len() implies is_word(#[trigger] rest[i]) by {
                assert(rest[i] == names[i + 1]);
            }
            name_list_reads(s, p + 1, rest);
            assert(seq![w] + rest =~= names);
        }
    }
}

/// A duration in seconds reads as the number that it is written as.
proof fn seconds_read(s: Seq<char>, pos: int, n: i64)
    requires
        n >= 0,
        stands(s, pos, decimal(n as nat) + "s"@),
    ensures
        p_duration(s, pos) == Ok::<(i64, int), Fault>((n, pos + decimal(n as nat).len() + 1)),
{
    reveal_strlit("s");
    let d = decimal(n as nat);
    crate::text::decimal_reads_back(n as nat);
    pieces(s, pos, d, "s"@);
    letters(s, pos, d);
    letters(s, pos + d.len(), "s"@);
    assert(s[pos] == d[0]);
    assert forall|k: int| pos <= k < pos + d.len() implies is_digit(#[trigger] s[k]) by {
        assert(is_digit(d[k - pos]));
    }
    digits_run(s, pos, pos + d.len());
    assert(s.subrange(pos, pos + d.len()) =~= d);
}

#[verifier::rlimit(40)]
#[verifier::spinoff_prover]
proof fn rate_reads(s: Seq<char>, pos: int, sel: SelectorModel, n: i64)
    requires
        selector_can_be_written(sel),
        n >= 0,
        stands(s, pos, "("@ + selector_text(sel) + "["@ + decimal(n as nat) + "s])"@),
    ensures
        p_rate(s, pos) == Ok::<(ExprModel, int), Fault>(
            (
                ExprModel::Rate { selector: sel, range_seconds: n },
                pos + selector_text(sel).len() + decimal(n as nat).len() + 5,
            ),
        ),
{
    reveal_strlit("(");
    reveal_strlit("[");
    reveal_strlit("s");
    reveal_strlit("s])");
    reveal_strlit("]");
    reveal_strlit(")");
    let t = selector_text(sel);
    let d = decimal(n as nat);
    assert("s])"@ =~= "s"@ + "]"@ + ")"@);
    pieces(s, pos, "("@ + t + "["@ + d, "s])"@);
    pieces(s, pos, "("@ + t + "["@, d);
    pieces(s, pos, "("@ + t, "["@);
    pieces(s, pos, "("@, t);
    token_reads(s, pos, "("@);
    let p = pos + 1 + t.len();
    letters(s, p, "["@);
    selector_reads(s, pos + 1, sel);
    token_reads(s, p, "["@);
    let q = p + 1 + d.len();
    pieces(s, q, "s"@ + "]"@, ")"@);
    pieces(s, q, "s"@, "]"@);
    letters(s, p + 1, d);
    letters(s, q, "s"@);
    assert(s.subrange(p + 1, p + 1 + d.len() + 1) =~= d + "s"@);
    seconds_read(s, p + 1, n);
    token_reads(s, q + 1, "]"@);
    token_reads(s, q + 2, ")"@);
}

/// A `by` clause that may be left out.
spec fn by_text(by: Seq<Seq<char>>) -> Seq<char> {
    if by.len() == 0 {
        Seq::empty()
    } else {
        "by("@ + names_text(by)
    }
}

proof fn by_reads(s: Seq<char>, pos: int, by: Seq<Seq<char>>)
    requires
        by.len() > 0,
        forall|i: int| 0 <= i < by.len() ==> is_word(#[trigger] by[i]),
        stands(s, pos, "by("@ + names_text(by)),
    ensures
        next_is(s, pos, "by"@),
        behind(s, pos, "by"@) == pos + 2,
        p_by_clause(s, pos + 2) == Ok::<(Seq<Seq<char>>, int), Fault>(
            (by, pos + 3 + names_text(by).len()),
        ),
{
    reveal_strlit("by");
    reveal_strlit("by(");
    reveal_strlit("(");
    assert("by("@ =~= "by"@ + "("@);
    pieces(s, pos, "by("@, names_text(by));
    pieces(s, pos, "by"@, "("@);
    token_reads(s, pos, "by"@);
    token_reads(s, pos + 2, "("@);
    name_list_reads(s, pos + 3, by);
}

proof fn optional_by_reads(s: Seq<char>, pos: int, by: Seq<Seq<char>>)
    requires
        forall|i: int| 0 <= i < by.len() ==> is_word(#[trigger] by[i]),
        stands(s, pos, by_text(by)),
        closes(s, pos + by_text(by).len()),
    ensures
        p_optional_by(s, pos) == Ok::<(Seq<Seq<char>>, int), Fault>(
            (by, pos + by_text(by).len()),
        ),
{
    reveal_strlit("by");
    reveal_strlit("by(");
    if by.len() == 0 {
        token_is_not(s, pos, "by"@);
        assert(by =~= Seq::<Seq<char>>::empty());
    } else {
        by_reads(s, pos, by);
    }
}

#[verifier::rlimit(40)]
#[verifier::spinoff_prover]
proof fn quantile_reads(
    s: Seq<char>,
    pos: int,
    phi: Seq<char>,
    sel: SelectorModel,
    by: Seq<Seq<char>>,
)
    requires
        number_can_be_written(phi),
        is_quantile(phi),
        selector_can_be_written(sel),
        forall|i: int| 0 <= i < by.len() ==> is_word(#[trigger] by[i]),
        stands(s, pos, "("@ + phi + ","@ + selector_text(sel) + ")"@ + by_text(by)),
        closes(s, pos + phi.len() + selector_text(sel).len() + by_text(by).len() + 3),
    ensures
        p_quantile(s, pos) == Ok::<(ExprModel, int), Fault>(
            (
                ExprModel::HistogramQuantile { phi, selector: sel, by },
                pos + phi.len() + selector_text(sel).len() + by_text(by).len() + 3,
            ),
        ),
{
    reveal_strlit("(");
    reveal_strlit(",");
    reveal_strlit(")");
    let t = selector_text(sel);
    pieces(s, pos, "("@ + phi + ","@ + t + ")"@, by_text(by));
    pieces(s, pos, "("@ + phi + ","@ + t, ")"@);
    pieces(s, pos, "("@ + phi + ","@, t);
    pieces(s, pos, "("@ + phi, ","@);
    pieces(s, pos, "("@, phi);
    token_reads(s, pos, "("@);
    let p = pos + 1 + phi.len();
    letters(s, p, ","@);
    number_reads(s, pos + 1, phi);
    token_reads(s, p, ","@);
    let q = p + 1 + t.len();
    letters(s, q, ")"@);
    selector_reads(s, p + 1, sel);
    token_reads(s, q, ")"@);
    optional_by_reads(s, q + 1, by);
}

/// What stands in front of the bracket of an aggregate, behind its name.
spec fn aggregate_by(by: Seq<Seq<char>>) -> Seq<char> {
    if by.len() == 0 {
        Seq::empty()
    } else {
        " by("@ + names_text(by)
    }
}

/// Where the expression in an aggregate begins.
spec fn aggregate_opens(pos: int, op: AggOp, by: Seq<Seq<char>>) -> int {
    pos + agg_name(op).len() + aggregate_by(by).len() + 1
}

proof fn aggregate_parts(
    s: Seq<char>,
    pos: int,
    op: AggOp,
    by: Seq<Seq<char>>,
    t: Seq<char>,
)
    requires
        stands(s, pos, agg_name(op) + aggregate_by(by) + "("@ + t + ")"@),
    ensures
        stands(s, pos, agg_name(op)),
        stands(s, pos + agg_name(op).len(), aggregate_by(by)),
        stands(s, aggregate_opens(pos, op, by) - 1, "("@),
        stands(s, aggregate_opens(pos, op, by), t),
        stands(s, aggregate_opens(pos, op, by) + t.len(), ")"@),
        closes(s, aggregate_opens(pos, op, by) + t.len()),
{
    reveal_strlit("(");
    reveal_strlit(")");
    let w = agg_name(op);
    let b = aggregate_by(by);
    pieces(s, pos, w + b + "("@ + t, ")"@);
    pieces(s, pos, w + b + "("@, t);
    pieces(s, pos, w + b, "("@);
    pieces(s, pos, w, b);
    letters(s, aggregate_opens(pos, op, by) + t.len(), ")"@);
}

/// The bracket that opens an aggregate and the one that closes it.
proof fn brackets_read(s: Seq<char>, open: int, close: int)
    requires
        stands(s, open, "("@),
        stands(s, close, ")"@),
    ensures
        s[open] == '(' && 0 <= open < s.len(),
        p_expect(s, open, "("@) == Ok::<int, Fault>(open + 1),
        p_expect(s, close, ")"@) == Ok::<int, Fault>(close + 1),
{
    reveal_strlit("(");
    reveal_strlit(")");
    letters(s, open, "("@);
    token_reads(s, open, "("@);
    token_reads(s, close, ")"@);
}

#[verifier::spinoff_prover]
proof fn plain_aggregate_reads(s: Seq<char>, pos: int, op: AggOp, by: Seq<Seq<char>>, inner: ExprModel)
    requires
        by.len() == 0,
        forall|i: int| 0 <= i < by.len() ==> is_word(#[trigger] by[i]),
        ({
            let t = query_text(inner);
            let at = aggregate_opens(pos, op, by);
            &&& stands(s, pos, agg_name(op))
            &&& stands(s, pos + agg_name(op).len(), aggregate_by(by))
            &&& stands(s, at - 1, "("@)
            &&& stands(s, at + t.len(), ")"@)
            &&& closes(s, at + t.len() + 1)
            &&& p_expr(s, at) == Ok::<(ExprModel, int), Fault>((inner, at + t.len()))
        }),
    ensures
        p_expr(s, pos) == Ok::<(ExprModel, int), Fault>(
            (
                ExprModel::Aggregate { op, by, inner: Box::new(inner) },
                aggregate_opens(pos, op, by) + query_text(inner).len() + 1,
            ),
        ),
{
    let w = agg_name(op);
    let at = aggregate_opens(pos, op, by);
    let n = pos + w.len();
    let end = at + query_text(inner).len();
    aggregators_read_back(op);
    aggregates_are_words(w);
    brackets_read(s, at - 1, end);
    assert(by =~= Seq::<Seq<char>>::empty());
    assert(at == n + 1);
    word_reads(s, pos, w);
    assert(!next_is(s, n, "by"@)) by {
        reveal_strlit("by");
        token_is_not(s, n, "by"@);
    }
    assert(s.subrange(end + 1, end + 1) =~= by_text(by));
    optional_by_reads(s, end + 1, by);
}

#[verifier::spinoff_prover]
proof fn grouped_aggregate_reads(s: Seq<char>, pos: int, op: AggOp, by: Seq<Seq<char>>, inner: ExprModel)
    requires
        by.len() > 0,
        forall|i: int| 0 <= i < by.len() ==> is_word(#[trigger] by[i]),
        ({
            let t = query_text(inner);
            let at = aggregate_opens(pos, op, by);
            &&& stands(s, pos, agg_name(op))
            &&& stands(s, pos + agg_name(op).len(), aggregate_by(by))
            &&& stands(s, at - 1, "("@)
            &&& stands(s, at + t.len(), ")"@)
            &&& closes(s, at + t.len() + 1)
            &&& p_expr(s, at) == Ok::<(ExprModel, int), Fault>((inner, at + t.len()))
        }),
    ensures
        p_expr(s, pos) == Ok::<(ExprModel, int), Fault>(
            (
                ExprModel::Aggregate { op, by, inner: Box::new(inner) },
                aggregate_opens(pos, op, by) + query_text(inner).len() + 1,
            ),
        ),
{
    let w = agg_name(op);
    let at = aggregate_opens(pos, op, by);
    let n = pos + w.len();
    let end = at + query_text(inner).len();
    aggregators_read_back(op);
    aggregates_are_words(w);
    brackets_read(s, at - 1, end);
    let names = "by("@ + names_text(by);
    assert(aggregate_by(by) =~= seq![' '] + names && names.len() == 3 + names_text(by).len()) by {
        reveal_strlit(" by(");
        reveal_strlit("by(");
    }
    pieces(s, n, seq![' '], names);
    letters(s, n, seq![' ']);
    assert(s[n] == ' ');
    word_reads(s, pos, w);
    by_reads(s, n + 1, by);
    token_after_space(s, n, "by"@);
}

proof fn aggregate_reads(s: Seq<char>, pos: int, op: AggOp, by: Seq<Seq<char>>, inner: ExprModel)
    requires
        forall|i: int| 0 <= i < by.len() ==> is_word(#[trigger] by[i]),
        ({
            let t = query_text(inner);
            let at = aggregate_opens(pos, op, by);
            &&& stands(s, pos, agg_name(op))
            &&& stands(s, pos + agg_name(op).len(), aggregate_by(by))
            &&& stands(s, at - 1, "("@)
            &&& stands(s, at + t.len(), ")"@)
            &&& closes(s, at + t.len() + 1)
            &&& p_expr(s, at) == Ok::<(ExprModel, int), Fault>((inner, at + t.len()))
        }),
    ensures
        p_expr(s, pos) == Ok::<(ExprModel, int), Fault>(
            (
                ExprModel::Aggregate { op, by, inner: Box::new(inner) },
                aggregate_opens(pos, op, by) + query_text(inner).len() + 1,
            ),
        ),
{
    if by.len() == 0 {
        plain_aggregate_reads(s, pos, op, by, inner);
    } else {
        grouped_aggregate_reads(s, pos, op, by, inner);
    }
}

/// A function's name in front of its bracket.
proof fn function_opens(s: Seq<char>, pos: int, w: Seq<char>, rest: Seq<char>)
    requires
        is_word(w),
        rest.len() > 0,
        rest[0] == '(',
        stands(s, pos, w + rest),
    ensures
        after_ws(s, pos) == pos,
        p_ident(s, pos) == Ok::<(Seq<char>, int), Fault>((w, pos + w.len())),
        stands(s, pos + w.len(), rest),
{
    pieces(s, pos, w, rest);
    letters(s, pos + w.len(), rest);
    assert(s[pos + w.len()] == '(');
    word_reads(s, pos, w);
}

#[verifier::rlimit(40)]
#[verifier::spinoff_prover]
proof fn selector_expression_reads(s: Seq<char>, pos: int, sel: SelectorModel)
    requires
        can_be_written(ExprModel::Selector(sel)),
        stands(s, pos, selector_text(sel)),
        closes(s, pos + selector_text(sel).len()),
    ensures
        p_expr(s, pos) == Ok::<(ExprModel, int), Fault>(
            (ExprModel::Selector(sel), pos + selector_text(sel).len()),
        ),
{
    matchers_read(s, pos, sel);
    assert(p_ident(s, after_ws(s, pos))->Ok_0.0 == sel.metric);
}

#[verifier::rlimit(40)]
#[verifier::spinoff_prover]
proof fn rate_expression_reads(s: Seq<char>, pos: int, sel: SelectorModel, n: i64)
    requires
        selector_can_be_written(sel),
        n >= 0,
        stands(s, pos, "rate("@ + selector_text(sel) + "["@ + decimal(n as nat) + "s])"@),
    ensures
        p_expr(s, pos) == Ok::<(ExprModel, int), Fault>(
            (
                ExprModel::Rate { selector: sel, range_seconds: n },
                pos + ("rate("@ + selector_text(sel) + "["@ + decimal(n as nat) + "s])"@).len(),
            ),
        ),
{
    let rest = "("@ + selector_text(sel) + "["@ + decimal(n as nat) + "s])"@;
    let all = "rate("@ + selector_text(sel) + "["@ + decimal(n as nat) + "s])"@;
    assert(all =~= "rate"@ + rest && rest.len() == selector_text(sel).len() + decimal(
        n as nat,
    ).len() + 5 && rest[0] == '(' && "rate"@.len() == 4 && is_word("rate"@)) by {
        reveal_strlit("(");
        reveal_strlit("rate");
        reveal_strlit("rate(");
        reveal_strlit("s])");
        reveal_strlit("[");
        assert("rate("@ =~= "rate"@ + "("@);
    }
    function_opens(s, pos, "rate"@, rest);
    rate_reads(s, pos + 4, sel, n);
    assert(p_expr(s, pos) == p_rate(s, pos + 4));
}

#[verifier::rlimit(40)]
#[verifier::spinoff_prover]
proof fn quantile_expression_reads(
    s: Seq<char>,
    pos: int,
    phi: Seq<char>,
    sel: SelectorModel,
    by: Seq<Seq<char>>,
)
    requires
        number_can_be_written(phi),
        is_quantile(phi),
        selector_can_be_written(sel),
        forall|i: int| 0 <= i < by.len() ==> is_word(#[trigger] by[i]),
        ({
            let all = "histogram_quantile("@ + phi + ","@ + selector_text(sel) + ")"@ + by_text(by);
            stands(s, pos, all) && closes(s, pos + all.len())
        }),
    ensures
        p_expr(s, pos) == Ok::<(ExprModel, int), Fault>(
            (
                ExprModel::HistogramQuantile { phi, selector: sel, by },
                pos + ("histogram_quantile("@ + phi + ","@ + selector_text(sel) + ")"@ + by_text(
                    by,
                )).len(),
            ),
        ),
{
    reveal_strlit("(");
    reveal_strlit(")");
    reveal_strlit(",");
    reveal_strlit("rate");
    reveal_strlit("histogram_quantile");
    reveal_strlit("histogram_quantile(");
    let rest = "("@ + phi + ","@ + selector_text(sel) + ")"@ + by_text(by);
    let all = "histogram_quantile("@ + phi + ","@ + selector_text(sel) + ")"@ + by_text(by);
    let w = "histogram_quantile"@;
    assert("histogram_quantile("@ =~= w + "("@);
    assert(all =~= w + rest);
    function_opens(s, pos, w, rest);
    quantile_reads(s, pos + w.len(), phi, sel, by);
}

/// An expression reads back wherever it stands, if what is behind ends it.
#[verifier::rlimit(60)]
proof fn expression_reads(s: Seq<char>, pos: int, e: ExprModel)
    requires
        can_be_written(e),
        !(e is Compare),
        stands(s, pos, query_text(e)),
        closes(s, pos + query_text(e).len()),
    ensures
        p_expr(s, pos) == Ok::<(ExprModel, int), Fault>((e, pos + query_text(e).len())),
    decreases e,
{
    match e {
        ExprModel::Selector(sel) => {
            selector_expression_reads(s, pos, sel);
        },
        ExprModel::Rate { selector, range_seconds } => {
            rate_expression_reads(s, pos, selector, range_seconds);
        },
        ExprModel::HistogramQuantile { phi, selector, by } => {
            assert(query_text(e) =~= "histogram_quantile("@ + phi + ","@ + selector_text(selector)
                + ")"@ + by_text(by));
            quantile_expression_reads(s, pos, phi, selector, by);
        },
        ExprModel::Aggregate { op, by, inner } => {
            let t = query_text(*inner);
            reveal_strlit("(");
            reveal_strlit(")");
            aggregate_parts(s, pos, op, by, t);
            expression_reads(s, aggregate_opens(pos, op, by), *inner);
            aggregate_reads(s, pos, op, by, *inner);
        },
        ExprModel::Compare { .. } => {},
    }
}

proof fn token_after_space(s: Seq<char>, n: int, lit: Seq<char>)
    requires
        0 <= n < s.len(),
        s[n] == ' ',
    ensures
        next_is(s, n, lit) == next_is(s, n + 1, lit),
        behind(s, n, lit) == behind(s, n + 1, lit),
{
    assert(after_ws(s, n) == after_ws(s, n + 1));
}

#[verifier::rlimit(40)]
#[verifier::spinoff_prover]
proof fn operator_reads(s: Seq<char>, pos: int, op: CompareOp)
    requires
        stands(s, pos, op.symbol()),
        pos + op.symbol().len() < s.len(),
        s[pos + op.symbol().len()] != '=',
    ensures
        next_compare_op(s, pos) == Some(op),
        behind(s, pos, op.symbol()) == pos + op.symbol().len(),
{
    reveal_strlit(">=");
    reveal_strlit("<=");
    reveal_strlit("==");
    reveal_strlit("!=");
    reveal_strlit(">");
    reveal_strlit("<");
    let x = op.symbol();
    letters(s, pos, x);
    token_reads(s, pos, x);
    assert(s[pos] == x[0]);
    if x.len() == 2 {
        assert(s[pos + 1] == x[1]);
    }
    let two = s.subrange(pos, pos + 2);
    assert(pos + 2 <= s.len());
    assert(two[0] == s[pos] && two[1] == s[pos + 1]);
    assert(after_ws(s, pos) == pos);
    assert(next_is(s, pos, ">="@) <==> s[pos] == '>' && s[pos + 1] == '=') by {
        if s[pos] == '>' && s[pos + 1] == '=' {
            assert(two =~= ">="@);
        }
    }
    assert(next_is(s, pos, "<="@) <==> s[pos] == '<' && s[pos + 1] == '=') by {
        if s[pos] == '<' && s[pos + 1] == '=' {
            assert(two =~= "<="@);
        }
    }
    assert(next_is(s, pos, "=="@) <==> s[pos] == '=' && s[pos + 1] == '=') by {
        if s[pos] == '=' && s[pos + 1] == '=' {
            assert(two =~= "=="@);
        }
    }
    assert(next_is(s, pos, "!="@) <==> s[pos] == '!' && s[pos + 1] == '=') by {
        if s[pos] == '!' && s[pos + 1] == '=' {
            assert(two =~= "!="@);
        }
    }
    let one = s.subrange(pos, pos + 1);
    assert(one[0] == s[pos]);
    assert(next_is(s, pos, ">"@) <==> s[pos] == '>') by {
        if s[pos] == '>' {
            assert(one =~= ">"@);
        }
    }
    assert(next_is(s, pos, "<"@) <==> s[pos] == '<') by {
        if s[pos] == '<' {
            assert(one =~= "<"@);
        }
    }
}

#[verifier::rlimit(40)]
#[verifier::spinoff_prover]
proof fn comparison_reads(inner: ExprModel, op: CompareOp, threshold: Seq<char>)
    requires
        can_be_written(inner),
        !(inner is Compare),
        number_can_be_written(threshold),
    ensures
        p_query(query_text(inner) + op.symbol() + threshold) == Ok::<ExprModel, Fault>(
            ExprModel::Compare { inner: Box::new(inner), op, threshold },
        ),
{
    let t = query_text(inner);
    let s = t + op.symbol() + threshold;
    let p = t.len() as int;
    let q = p + op.symbol().len();
    comparison_parts(t, op, threshold);
    expression_reads(s, 0, inner);
    operator_reads(s, p, op);
    number_reads(s, q, threshold);
    query_ends(s, inner, p, op, q, threshold);
}

proof fn comparison_parts(t: Seq<char>, op: CompareOp, threshold: Seq<char>)
    requires
        number_can_be_written(threshold),
    ensures
        ({
            let s = t + op.symbol() + threshold;
            let p = t.len() as int;
            let q = p + op.symbol().len();
            &&& stands(s, 0, t) && closes(s, p)
            &&& stands(s, p, op.symbol()) && q < s.len() && s[q] != '='
            &&& stands(s, q, threshold) && q + threshold.len() == s.len()
        }),
{
    let s = t + op.symbol() + threshold;
    let p = t.len() as int;
    let q = p + op.symbol().len();
    operators_open(op);
    assert(s.subrange(0, p) =~= t);
    assert(s.subrange(p, q) =~= op.symbol());
    assert(s.subrange(q, q + threshold.len()) =~= threshold);
    assert(s[p] == op.symbol()[0]);
    assert(s[q] == threshold[0] && is_number_char(threshold[0]));
}

/// A query whose expression, operator and threshold use up its text.
proof fn query_ends(
    s: Seq<char>,
    inner: ExprModel,
    p: int,
    op: CompareOp,
    q: int,
    threshold: Seq<char>,
)
    requires
        p_expr(s, 0) == Ok::<(ExprModel, int), Fault>((inner, p)),
        next_compare_op(s, p) == Some(op),
        behind(s, p, op.symbol()) == q,
        p_number(s, q) == Ok::<(Seq<char>, int), Fault>((threshold, s.len() as int)),
    ensures
        p_query(s) == Ok::<ExprModel, Fault>(
            ExprModel::Compare { inner: Box::new(inner), op, threshold },
        ),
{
    no_operator_at_the_end(s);
}

/// A query reads back as it is written, whatever it asks for.
pub proof fn queries_read_back(e: ExprModel)
    requires
        can_be_written(e),
    ensures
        p_query(query_text(e)) == Ok::<ExprModel, Fault>(e),
{
    let s = query_text(e);
    assert(s.subrange(0, s.len() as int) =~= s);
    match e {
        ExprModel::Compare { inner, op, threshold } => {
            comparison_reads(*inner, op, threshold);
        },
        _ => {
            expression_reads(s, 0, e);
            no_operator_at_the_end(s);
        },
    }
}

proof fn no_operator_at_the_end(s: Seq<char>)
    ensures
        next_compare_op(s, s.len() as int) is None,
        after_ws(s, s.len() as int) == s.len(),
{
    reveal_strlit(">=");
    reveal_strlit("<=");
    reveal_strlit("==");
    reveal_strlit("!=");
    reveal_strlit(">");
    reveal_strlit("<");
}

/// An aggregator is read back from the name that its results carry, and that
/// name is the one of the function it computes.
pub proof fn aggregators_read_back(op: AggOp)
    ensures
        agg_op(agg_name(op)) == Some(op),
        forall|other: AggOp| #[trigger] agg_name(other) == agg_name(op) ==> other == op,
{
    reveal_strlit("sum");
    reveal_strlit("avg");
    reveal_strlit("min");
    reveal_strlit("max");
    reveal_strlit("count");
    assert("sum"@[0] == 's' && "avg"@[0] == 'a' && "min"@[1] == 'i' && "max"@[1] == 'a');
    assert("min"@[0] == 'm' && "max"@[0] == 'm');
}

/// `NAME(q)` asks for the aggregate whose results carry that name, over what the
/// query asks for, and over all its series.
#[verifier::rlimit(60)]
#[verifier::spinoff_prover]
pub proof fn aggregates_carry_their_name(name: Seq<char>, s: Seq<char>)
    requires
        agg_op(name) is Some,
        p_query(s) is Ok,
        !(p_query(s)->Ok_0 is Compare),
    ensures
        p_query(name + "("@ + s + ")"@) matches Ok(ExprModel::Aggregate { op, by, inner }) && agg_name(
            op,
        ) == name && by.len() == 0 && *inner == p_query(s)->Ok_0,
{
    let big = name + "("@ + s + ")"@;
    aggregates_open(name, s);
    plain_queries_close(name, s);
    no_operator_at_the_end(big);
    named_aggregators(name);
    let op = agg_op(name)->0;
    assert(p_expr(big, 0) == Ok::<(ExprModel, int), Fault>(
        (
            ExprModel::Aggregate { op, by: Seq::empty(), inner: Box::new(p_query(s)->Ok_0) },
            big.len() as int,
        ),
    ));
}

/// What stands in the brackets is read whole, so that the bracket closes.
proof fn plain_queries_close(name: Seq<char>, s: Seq<char>)
    requires
        p_query(s) is Ok,
        !(p_query(s)->Ok_0 is Compare),
    ensures
        ({
            let big = name + "("@ + s + ")"@;
            let n = name.len() as int;
            &&& p_expr(big, n + 1) matches Ok((e, q)) && e == p_query(s)->Ok_0 && p_expect(
                big,
                q,
                ")"@,
            ) == Ok::<int, Fault>(big.len() as int)
            &&& p_optional_by(big, big.len() as int) == Ok::<(Seq<Seq<char>>, int), Fault>(
                (Seq::empty(), big.len() as int),
            )
        }),
{
    reveal_strlit("(");
    reveal_strlit(")");
    reveal_strlit("by");
    let f = in_brackets(name, s);
    expr_meets(f, 0, f.n);
    let (p, q) = (p_expr(s, 0)->Ok_0.1, p_expr(f.big, f.n)->Ok_0.1);
    assert(next_compare_op(s, p) is None);
    ws_meets(f, p, q);
    lemma_after_ws(s, p);
    assert(after_ws(s, p) == s.len());
    let v = after_ws(f.big, q);
    assert(f.t.len() == 1);
    assert(f.big[f.n + s.len()] == ')');
    assert(f.t[0] == ')');
    assert(after_ws(f.t, 0) == 0);
    assert(v == f.big.len() - 1);
    assert(f.big.subrange(v, v + 1) =~= ")"@);
}

proof fn named_aggregators(name: Seq<char>)
    requires
        agg_op(name) is Some,
    ensures
        agg_name(agg_op(name)->0) == name,
{
}

/// The units of a duration are multiples of one another: a minute is sixty
/// seconds, an hour sixty minutes, a day twenty-four hours.
pub proof fn units_are_multiples(n: int)
    requires
        0 <= n <= 1000000000000,
    ensures
        unit_seconds(n, 's') == Ok::<i64, Fault>(n as i64),
        unit_seconds(n, 'm') == unit_seconds(60 * n, 's'),
        unit_seconds(n, 'h') == unit_seconds(60 * n, 'm'),
        unit_seconds(n, 'd') == unit_seconds(24 * n, 'h'),
{
}

/// A whole number is a quantile exactly when it is zero or one, and so is any
/// number below one.
pub proof fn quantiles_lie_between_zero_and_one(n: nat, fraction: Seq<char>)
    requires
        forall|k: int| 0 <= k < fraction.len() ==> is_digit(#[trigger] fraction[k]),
    ensures
        is_quantile(decimal(n)) <==> n <= 1,
        is_quantile("0."@ + fraction),
        n >= 2 ==> !is_quantile(decimal(n) + "."@ + fraction),
{
    reveal_strlit("0.");
    reveal_strlit(".");
    crate::text::decimal_reads_back(n);
    let d = decimal(n);
    no_dot(d, 0);
    reveal_with_fuel(crate::number::without_leading_zeros, 3);
    assert(d.take(d.len() as int) =~= d);
    if n == 0 {
        assert(d =~= seq!['0']);
        assert(d.drop_first() =~= Seq::<char>::empty());
    } else if n == 1 {
        assert(d =~= seq!['1']);
    } else {
        assert(d != seq!['1']) by {
            if d == seq!['1'] {
                assert(d.drop_last() =~= Seq::<char>::empty());
                reveal_with_fuel(digits_value, 2);
                assert(digits_value(d) == 1);
            }
        }
        let long = d + "."@ + fraction;
        dot_behind(long, 0, d.len() as int);
        assert(long.take(d.len() as int) =~= d);
    }
    let part = "0."@ + fraction;
    assert(part[0] == '0' && part[1] == '.');
    dot_behind(part, 0, 1);
    assert(part.take(1) =~= seq!['0']);
    assert(seq!['0'].drop_first() =~= Seq::<char>::empty());
}

proof fn no_dot(s: Seq<char>, from: int)
    requires
        0 <= from <= s.len(),
        forall|k: int| 0 <= k < s.len() ==> is_digit(#[trigger] s[k]),
    ensures
        find_char(s, from, '.') == s.len(),
    decreases s.len() - from,
{
    if from < s.len() {
        assert(is_digit(s[from]));
        no_dot(s, from + 1);
    }
}

proof fn dot_behind(s: Seq<char>, from: int, end: int)
    requires
        0 <= from <= end < s.len(),
        forall|k: int| 0 <= k < end ==> is_digit(#[trigger] s[k]),
        s[end] == '.',
    ensures
        find_char(s, from, '.') == end,
    decreases end - from,
{
    if from < end {
        assert(is_digit(s[from]));
        dot_behind(s, from + 1, end);
    }
}

/// A name is made of letters, digits, `_`, `:` and `.`; none of the characters
/// that a query is punctuated with can stand in one. A number is made of digits
/// and at most one point.
pub proof fn names_hold_no_punctuation(c: char, n: nat, fraction: Seq<char>)
    requires
        forall|k: int| 0 <= k < fraction.len() ==> is_digit(#[trigger] fraction[k]),
    ensures
        ('a' <= c <= 'z') || ('A' <= c <= 'Z') || ('0' <= c <= '9') || c == '_' || c == ':' || c
            == '.' ==> is_name_char(c),
        c == '(' || c == ')' || c == '{' || c == '}' || c == '[' || c == ']' || c == ',' || c == '"'
            || c == '=' || c == '!' || c == '<' || c == '>' || c == ' ' || c == '-' ==> !is_name_char(
            c,
        ),
        number_can_be_written(decimal(n)),
        number_can_be_written(decimal(n) + seq!['.'] + fraction),
        !is_decimal_literal(decimal(n) + seq!['.'] + fraction + seq!['.']),
        !is_decimal_literal(seq!['.']),
{
    crate::text::decimal_reads_back(n);
    let d = decimal(n);
    let l = d.len() as int;
    assert(is_digit(d[0]));
    assert forall|k: int| 0 <= k < d.len() implies is_number_char(#[trigger] d[k]) && d[k] != '.' by {
        assert(is_digit(d[k]));
    }
    let f = d + seq!['.'] + fraction;
    assert(f[0] == d[0]);
    assert forall|k: int| 0 <= k < f.len() implies is_number_char(#[trigger] f[k]) && (f[k] == '.'
        ==> k == l) by {
        if k < l {
            assert(is_digit(d[k]));
        } else if k > l {
            assert(is_digit(fraction[k - l - 1]));
        }
    }
    let g = f + seq!['.'];
    assert(g[l] == '.' && g[g.len() - 1] == '.');
    assert(!is_digit(seq!['.'][0]));
}

} // verus!
