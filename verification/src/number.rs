//! Which texts are numbers.

use crate::text::{char_is_digit, chars, find, find_char, is_digit, same, text};
use vstd::prelude::*;

verus! {

/// The position behind the digits that stand at `from`.
pub open spec fn digits_from(s: Seq<char>, from: int) -> int
    decreases s.len() - from,
{
    if 0 <= from < s.len() && is_digit(s[from]) {
        digits_from(s, from + 1)
    } else {
        from
    }
}

/// The position behind an optional sign at `from`.
pub open spec fn after_sign(s: Seq<char>, from: int) -> int {
    if 0 <= from < s.len() && (s[from] == '+' || s[from] == '-') {
        from + 1
    } else {
        from
    }
}

/// Whether what follows `from` is an exponent, or nothing: `e` or `E`, an
/// optional sign, at least one digit.
pub open spec fn is_exponent(s: Seq<char>, from: int) -> bool {
    if from >= s.len() {
        from == s.len()
    } else {
        let start = after_sign(s, from + 1);
        (s[from] == 'e' || s[from] == 'E') && digits_from(s, start) > start && digits_from(s, start)
            == s.len()
    }
}

/// Whether what follows `from` is a decimal number: digits with an optional
/// point in front of, between or behind them, and an optional exponent.
pub open spec fn is_decimal(s: Seq<char>, from: int) -> bool {
    let whole = digits_from(s, from);
    if whole < s.len() && s[whole] == '.' {
        let end = digits_from(s, whole + 1);
        (whole > from || end > whole + 1) && is_exponent(s, end)
    } else {
        whole > from && is_exponent(s, whole)
    }
}

/// Whether what follows `from` is the name of a number: infinity or not a
/// number, whatever the case.
pub open spec fn is_special(s: Seq<char>) -> bool {
    let w = s.map_values(|c: char| crate::text::ascii_lower(c));
    w == "inf"@ || w == "infinity"@ || w == "nan"@
}

/// Whether a text denotes a floating-point number: an optional sign, then a
/// decimal number or one of the special names.
pub open spec fn is_float(s: Seq<char>) -> bool {
    let from = after_sign(s, 0);
    is_special(s.skip(from)) || is_decimal(s, from)
}

// ── Plain forms ─────────────────────────────────────────────────────

/// A decimal number of at most so many significant digits is the shortest text
/// for the double that is nearest to it.
pub const SHORT_DIGITS: usize = 15;

/// A whole number of at most so many digits lies within the doubles.
pub const FINITE_DIGITS: usize = 308;

pub open spec fn without_leading_zeros(s: Seq<char>) -> Seq<char>
    decreases s.len(),
{
    if s.len() > 0 && s[0] == '0' {
        without_leading_zeros(s.drop_first())
    } else {
        s
    }
}

pub open spec fn without_trailing_zeros(s: Seq<char>) -> Seq<char>
    decreases s.len(),
{
    if s.len() > 0 && s.last() == '0' {
        without_trailing_zeros(s.drop_last())
    } else {
        s
    }
}

/// The digits in front of the point of a literal, without leading zeros.
pub open spec fn whole_digits(literal: Seq<char>) -> Seq<char> {
    without_leading_zeros(literal.take(find_char(literal, 0, '.')))
}

/// The digits behind the point of a literal, without trailing zeros.
pub open spec fn fraction_digits(literal: Seq<char>) -> Seq<char> {
    let dot = find_char(literal, 0, '.');
    if dot < literal.len() {
        without_trailing_zeros(literal.skip(dot + 1))
    } else {
        Seq::empty()
    }
}

/// Whether a literal of digits and perhaps a point is short enough for its
/// double to be written as it stands, but for needless zeros.
pub open spec fn is_short(literal: Seq<char>) -> bool {
    let whole = whole_digits(literal);
    let fraction = fraction_digits(literal);
    if fraction.len() == 0 {
        without_trailing_zeros(whole).len() <= SHORT_DIGITS && whole.len() <= FINITE_DIGITS
    } else {
        whole.len() + fraction.len() <= SHORT_DIGITS
    }
}

/// A literal without needless zeros, and without a point that nothing follows.
pub open spec fn plain_form(literal: Seq<char>) -> Seq<char> {
    let whole = whole_digits(literal);
    let fraction = fraction_digits(literal);
    (if whole.len() == 0 {
        "0"@
    } else {
        whole
    }) + (if fraction.len() == 0 {
        Seq::empty()
    } else {
        "."@ + fraction
    })
}

/// The position behind the leading zeros among the first characters.
pub fn first_nonzero(v: &Vec<char>, end: usize) -> (r: usize)
    requires
        end <= v@.len(),
    ensures
        r <= end,
        without_leading_zeros(v@.take(end as int)) == v@.subrange(r as int, end as int),
{
    let mut i: usize = 0;
    assert(v@.subrange(0, end as int) =~= v@.take(end as int));
    while i < end && v[i] == '0'
        invariant
            i <= end <= v@.len(),
            without_leading_zeros(v@.take(end as int)) == without_leading_zeros(
                v@.subrange(i as int, end as int),
            ),
        decreases end - i,
    {
        assert(v@.subrange(i as int, end as int).drop_first() =~= v@.subrange(
            i as int + 1,
            end as int,
        ));
        i = i + 1;
    }
    i
}

fn last_nonzero(v: &Vec<char>, from: usize, end: usize) -> (r: usize)
    requires
        from <= end <= v@.len(),
    ensures
        from <= r <= end,
        without_trailing_zeros(v@.subrange(from as int, end as int)) == v@.subrange(
            from as int,
            r as int,
        ),
{
    let mut i: usize = end;
    while i > from && v[i - 1] == '0'
        invariant
            from <= i <= end <= v@.len(),
            without_trailing_zeros(v@.subrange(from as int, end as int)) == without_trailing_zeros(
                v@.subrange(from as int, i as int),
            ),
        decreases i,
    {
        assert(v@.subrange(from as int, i as int).drop_last() =~= v@.subrange(
            from as int,
            i as int - 1,
        ));
        i = i - 1;
    }
    i
}

/// The text of the double nearest to a literal of digits and perhaps a point;
/// nothing where the literal is too long to tell without rounding.
pub fn plain_number(literal: &str) -> (r: Option<String>)
    ensures
        match r {
            Some(t) => is_short(literal@) && t@ == plain_form(literal@),
            None => !is_short(literal@),
        },
{
    let v = chars(literal);
    let n: usize = v.len();
    let dot: usize = find(&v, 0, '.');
    let start: usize = first_nonzero(&v, dot);
    let from: usize = if dot < n {
        dot + 1
    } else {
        n
    };
    let end: usize = last_nonzero(&v, from, n);
    let ghost fraction = fraction_digits(literal@);
    proof {
        if dot < n {
            assert(v@.subrange(from as int, n as int) =~= v@.skip(dot as int + 1));
        } else {
            assert(v@.subrange(from as int, end as int) =~= Seq::<char>::empty());
        }
        assert(fraction == v@.subrange(from as int, end as int));
    }
    let short = if end == from {
        let significant: usize = last_nonzero(&v, start, dot);
        significant - start <= SHORT_DIGITS && dot - start <= FINITE_DIGITS
    } else {
        dot - start <= SHORT_DIGITS && end - from <= SHORT_DIGITS - (dot - start)
    };
    if !short {
        return None;
    }
    let mut out = if start == dot {
        "0".to_owned()
    } else {
        text(&v, start, dot)
    };
    if end > from {
        out.append(".");
        out.append(text(&v, from, end).as_str());
    }
    assert(out@ =~= plain_form(literal@));
    Some(out)
}

fn digits_to(v: &Vec<char>, from: usize) -> (r: usize)
    requires
        from <= v@.len(),
    ensures
        r == digits_from(v@, from as int),
        from <= r <= v@.len(),
{
    let mut i: usize = from;
    while i < v.len() && char_is_digit(v[i])
        invariant
            from <= i <= v@.len(),
            digits_from(v@, from as int) == digits_from(v@, i as int),
        decreases v@.len() - i,
    {
        i = i + 1;
    }
    i
}

fn sign_to(v: &Vec<char>, from: usize) -> (r: usize)
    requires
        from <= v@.len(),
    ensures
        r == after_sign(v@, from as int),
        from <= r <= v@.len(),
{
    if from < v.len() && (v[from] == '+' || v[from] == '-') {
        from + 1
    } else {
        from
    }
}

fn exponent_at(v: &Vec<char>, from: usize) -> (r: bool)
    requires
        from <= v@.len(),
    ensures
        r == is_exponent(v@, from as int),
{
    if from >= v.len() {
        return true;
    }
    if !(v[from] == 'e' || v[from] == 'E') {
        return false;
    }
    let start: usize = sign_to(v, from + 1);
    let end: usize = digits_to(v, start);
    end > start && end == v.len()
}

/// Whether a text denotes a floating-point number.
pub fn float_literal(s: &str) -> (r: bool)
    ensures
        r == is_float(s@),
{
    let v = chars(s);
    let n: usize = v.len();
    let from: usize = sign_to(&v, 0);
    let rest = text(&v, from, n);
    assert(rest@ =~= s@.skip(from as int));
    let w = crate::text::ascii_lowercase(rest.as_str());
    if same(w.as_str(), "inf") || same(w.as_str(), "infinity") || same(w.as_str(), "nan") {
        return true;
    }
    let whole: usize = digits_to(&v, from);
    if whole < n && v[whole] == '.' {
        let end: usize = digits_to(&v, whole + 1);
        (whole > from || end > whole + 1) && exponent_at(&v, end)
    } else {
        whole > from && exponent_at(&v, whole)
    }
}

// ── Laws ────────────────────────────────────────────────────────────

/// Digits are a number, with a sign before them, a point and a fraction behind
/// them, or an exponent; nothing is none.
pub proof fn digits_are_numbers(d: Seq<char>, f: Seq<char>)
    requires
        d.len() > 0,
        f.len() > 0,
        crate::text::all_digits(d),
        crate::text::all_digits(f),
    ensures
        is_float(d),
        is_float(seq!['-'] + d),
        is_float(d + seq!['.'] + f),
        is_float(d + seq!['e'] + f),
        is_float(seq!['.'] + f),
        !is_float(Seq::empty()),
        !is_float(seq!['.']),
        !is_float(d.push('e')),
        !is_float(d.push('x')),
{
    let empty = Seq::<char>::empty();
    assert(is_digit(d[0]) && is_digit(f[0]));
    digits_run(d, 0, d.len() as int);
    let neg = seq!['-'] + d;
    assert forall|k: int| 1 <= k < neg.len() implies is_digit(#[trigger] neg[k]) by {
        assert(is_digit(d[k - 1]));
    }
    digits_run(neg, 1, neg.len() as int);
    let (p, e) = (d + seq!['.'] + f, d + seq!['e'] + f);
    let n = d.len() as int;
    assert forall|k: int| 0 <= k < n implies is_digit(#[trigger] p[k]) by {
        assert(is_digit(d[k]));
    }
    assert forall|k: int| 0 <= k < n implies is_digit(#[trigger] e[k]) by {
        assert(is_digit(d[k]));
    }
    assert forall|k: int| n < k < p.len() implies is_digit(#[trigger] p[k]) by {
        assert(is_digit(f[k - n - 1]));
    }
    assert forall|k: int| n < k < e.len() implies is_digit(#[trigger] e[k]) by {
        assert(is_digit(f[k - n - 1]));
    }
    assert(p[0] == d[0] && e[0] == d[0] && p[n] == '.' && e[n] == 'e' && e[n + 1] == f[0]);
    digits_run(p, 0, n);
    digits_run(p, n + 1, p.len() as int);
    digits_run(e, 0, n);
    digits_run(e, n + 1, e.len() as int);
    let q = seq!['.'] + f;
    assert forall|k: int| 1 <= k < q.len() implies is_digit(#[trigger] q[k]) by {
        assert(is_digit(f[k - 1]));
    }
    digits_run(q, 1, q.len() as int);
    digits_run(q, 0, 0);
    reveal_strlit("inf");
    reveal_strlit("infinity");
    reveal_strlit("nan");
    assert("inf"@.len() == 3 && "infinity"@.len() == 8 && "nan"@.len() == 3);
    let dot = seq!['.'];
    assert(empty.skip(0) =~= empty);
    assert(empty.map_values(|c: char| crate::text::ascii_lower(c)).len() == 0);
    assert(dot.skip(0) =~= dot);
    assert(dot.map_values(|c: char| crate::text::ascii_lower(c)).len() == 1);
    digits_run(dot, 0, 0);
    digits_run(dot, 1, 1);
    let (x, y) = (d.push('e'), d.push('x'));
    assert forall|k: int| 0 <= k < n implies is_digit(#[trigger] x[k]) by {
        assert(is_digit(d[k]));
    }
    assert forall|k: int| 0 <= k < n implies is_digit(#[trigger] y[k]) by {
        assert(is_digit(d[k]));
    }
    assert(x[0] == d[0] && y[0] == d[0]);
    digits_run(x, 0, n);
    digits_run(y, 0, n);
    assert(x.skip(0) =~= x && y.skip(0) =~= y);
    assert(x.map_values(|c: char| crate::text::ascii_lower(c))[0] == d[0]);
    assert(y.map_values(|c: char| crate::text::ascii_lower(c))[0] == d[0]);
    assert("inf"@[0] == 'i' && "infinity"@[0] == 'i' && "nan"@[0] == 'n');
}

proof fn digits_run(s: Seq<char>, from: int, end: int)
    requires
        0 <= from <= end <= s.len(),
        forall|k: int| from <= k < end ==> is_digit(#[trigger] s[k]),
        end < s.len() ==> !is_digit(s[end]),
    ensures
        digits_from(s, from) == end,
    decreases end - from,
{
    if from < end {
        assert(is_digit(s[from]));
        digits_run(s, from + 1, end);
    }
}

/// A whole number is written plainly as itself, and zeros that stand before it or
/// at the end of its fraction are left out.
pub proof fn whole_numbers_are_plain(n: nat)
    ensures
        plain_form(crate::text::decimal(n)) == crate::text::decimal(n),
        plain_form(seq!['0'] + crate::text::decimal(n)) == crate::text::decimal(n),
{
    reveal_strlit("0");
    crate::text::decimal_reads_back(n);
    let d = crate::text::decimal(n);
    let z = seq!['0'] + d;
    without_a_point(d);
    assert(crate::text::all_digits(z)) by {
        assert forall|i: int| 0 <= i < z.len() implies is_digit(#[trigger] z[i]) by {
            if i > 0 {
                assert(is_digit(d[i - 1]));
            }
        }
    }
    without_a_point(z);
    assert(z.drop_first() =~= d);
    assert(z[0] == '0');
    if n == 0 {
        assert(d =~= seq!['0']);
        assert(d.drop_first() =~= Seq::<char>::empty());
        assert(without_leading_zeros(d.drop_first()) =~= Seq::<char>::empty());
    }
    assert(plain_form(d) =~= d);
    assert(plain_form(z) =~= d);
}

proof fn without_a_point(s: Seq<char>)
    requires
        crate::text::all_digits(s),
    ensures
        whole_digits(s) == without_leading_zeros(s),
        fraction_digits(s) == Seq::<char>::empty(),
{
    crate::text::the_first_place_is_found(s, 0, '.');
    let dot = find_char(s, 0, '.');
    if dot < s.len() {
        assert(is_digit(s[dot]));
    }
    assert(s.take(s.len() as int) =~= s);
}

} // verus!
