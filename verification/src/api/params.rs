//! Query parameters.

use crate::text::{chars, is_blank, parse_i64, same, sides, signed_literal, split_once, text, trim, trimmed};
use vstd::prelude::*;

verus! {

// ── Durations ───────────────────────────────────────────────────────

/// A 64-bit integer literal.
pub open spec fn integer_in(s: Seq<char>) -> Option<i64> {
    match signed_literal(s) {
        Some(n) => if i64::MIN <= n <= i64::MAX {
            Some(n as i64)
        } else {
            None
        },
        None => None,
    }
}

/// How many seconds a unit stands for; nothing where the character is no unit.
pub open spec fn unit_seconds(c: char) -> Option<i64> {
    if c == 's' {
        Some(1)
    } else if c == 'm' {
        Some(60)
    } else if c == 'h' {
        Some(3600)
    } else if c == 'd' {
        Some(86400)
    } else {
        None
    }
}

/// The seconds that a duration stands for: a number with a unit, or a bare
/// number of seconds. One of more seconds than fit is no duration.
pub open spec fn duration_seconds(s: Seq<char>) -> Option<i64> {
    let t = trimmed(s);
    if t.len() > 0 && unit_seconds(t.last()) is Some {
        match integer_in(t.drop_last()) {
            Some(n) => if i64::MIN <= n * unit_seconds(t.last())->0 <= i64::MAX {
                Some((n * unit_seconds(t.last())->0) as i64)
            } else {
                None
            },
            None => None,
        }
    } else {
        integer_in(t)
    }
}

pub fn parse_duration_to_seconds(s: &str) -> (r: Option<i64>)
    ensures
        r == duration_seconds(s@),
{
    let t = trim(s);
    let v = chars(t.as_str());
    let n: usize = v.len();
    if n == 0 {
        return parse_i64(t.as_str());
    }
    let c: char = v[n - 1];
    let unit: i64 = if c == 's' {
        1
    } else if c == 'm' {
        60
    } else if c == 'h' {
        3600
    } else if c == 'd' {
        86400
    } else {
        return parse_i64(t.as_str());
    };
    let rest = text(&v, 0, n - 1);
    assert(rest@ =~= t@.drop_last());
    match parse_i64(rest.as_str()) {
        Some(k) => k.checked_mul(unit),
        None => None,
    }
}

/// The window of a request, in seconds; a window that cannot be read counts as
/// none.
pub open spec fn window_in(last: Option<Seq<char>>) -> Option<i64> {
    match last {
        Some(s) => duration_seconds(s),
        None => None,
    }
}

pub fn window(last: &Option<String>) -> (r: Option<i64>)
    ensures
        r == window_in(crate::text::opt_text(*last)),
{
    match last {
        Some(s) => parse_duration_to_seconds(s.as_str()),
        None => None,
    }
}

/// The window of a request, or a default.
pub fn window_or(last: &Option<String>, default: i64) -> (r: i64)
    ensures
        r == match window_in(crate::text::opt_text(*last)) {
            Some(n) => n,
            None => default,
        },
{
    match window(last) {
        Some(n) => n,
        None => default,
    }
}

/// The current window and the baseline to hold it against: an hour, and six
/// times the current window, as far as that fits, where nothing else is asked
/// for.
pub fn windows(last: &Option<String>, baseline: &Option<String>) -> (r: (i64, i64))
    ensures
        r.0 == match window_in(crate::text::opt_text(*last)) {
            Some(n) => n,
            None => 3600i64,
        },
        r.1 == match window_in(crate::text::opt_text(*baseline)) {
            Some(n) => n,
            None => if r.0 * 6 > i64::MAX {
                i64::MAX
            } else if r.0 * 6 < i64::MIN {
                i64::MIN
            } else {
                (r.0 * 6) as i64
            },
        },
        r == windows_asked(crate::text::opt_text(*last), crate::text::opt_text(*baseline)),
{
    let current: i64 = window_or(last, 3600);
    let longer: i64 = match current.checked_mul(6) {
        Some(n) => n,
        None => if current > 0 {
            i64::MAX
        } else {
            i64::MIN
        },
    };
    let base: i64 = window_or(baseline, longer);
    (current, base)
}

/// How many comments are listed: a thousand where nothing is asked for, and
/// never more than a hundred thousand.
pub fn comment_limit(limit: Option<usize>) -> (r: usize)
    ensures
        r == match limit {
            None => 1000usize,
            Some(n) => if n < 100000 {
                n
            } else {
                100000
            },
        },
        r == comments_shown(limit),
{
    match limit {
        None => 1000,
        Some(n) => if n < 100000 {
            n
        } else {
            100000
        },
    }
}

// ── Attribute filters ───────────────────────────────────────────────

/// Attribute filters, split by kind.
#[derive(Debug)]
pub struct AttributeFilters {
    pub exact: Vec<(String, String)>,
    pub contains: Vec<(String, String)>,
    pub regex: Vec<(String, String)>,
}

pub struct FiltersModel {
    pub exact: Seq<(Seq<char>, Seq<char>)>,
    pub contains: Seq<(Seq<char>, Seq<char>)>,
    pub regex: Seq<(Seq<char>, Seq<char>)>,
}

pub open spec fn pair_texts(v: Seq<(String, String)>) -> Seq<(Seq<char>, Seq<char>)> {
    v.map_values(|p: (String, String)| (p.0@, p.1@))
}

impl View for AttributeFilters {
    type V = FiltersModel;

    open spec fn view(&self) -> FiltersModel {
        FiltersModel {
            exact: pair_texts(self.exact@),
            contains: pair_texts(self.contains@),
            regex: pair_texts(self.regex@),
        }
    }
}

#[derive(Debug, Clone, Copy, PartialEq, Eq, Structural)]
pub enum FilterKind {
    Exact,
    Contains,
    Regex,
}

/// One filter, `key<op>value`.
#[derive(Debug)]
pub struct Filter {
    pub kind: FilterKind,
    pub key: String,
    pub value: String,
}

pub struct FilterModel {
    pub kind: FilterKind,
    pub key: Seq<char>,
    pub value: Seq<char>,
}

impl View for Filter {
    type V = FilterModel;

    open spec fn view(&self) -> FilterModel {
        FilterModel { kind: self.kind, key: self.key@, value: self.value@ }
    }
}

/// The filter that a text says: `k~=v` (contains), `k=~v` (regex), `k=v`
/// (exact), tried in this order so that no operator's character ends up in a
/// key or a value. A text with no operator, or with a blank key, says none.
pub open spec fn filter_in(s: Seq<char>) -> Option<FilterModel> {
    let parts = match sides(s, "~="@) {
        Some((k, v)) => Some((k, v, FilterKind::Contains)),
        None => match sides(s, "=~"@) {
            Some((k, v)) => Some((k, v, FilterKind::Regex)),
            None => match sides(s, "="@) {
                Some((k, v)) => Some((k, v, FilterKind::Exact)),
                None => None,
            },
        },
    };
    match parts {
        Some((k, v, kind)) => if trimmed(k).len() == 0 {
            None
        } else {
            Some(FilterModel { kind, key: trimmed(k), value: v })
        },
        None => None,
    }
}

pub fn read_filter(s: &str) -> (r: Option<Filter>)
    ensures
        match r {
            Some(f) => filter_in(s@) == Some(f@),
            None => filter_in(s@) is None,
        },
{
    let (k, value, kind) = match split_once(s, "~=") {
        Some((k, v)) => (k, v, FilterKind::Contains),
        None => match split_once(s, "=~") {
            Some((k, v)) => (k, v, FilterKind::Regex),
            None => match split_once(s, "=") {
                Some((k, v)) => (k, v, FilterKind::Exact),
                None => return None,
            },
        },
    };
    if is_blank(k.as_str()) {
        return None;
    }
    Some(Filter { kind, key: trim(k.as_str()), value })
}

/// The filters that some texts say, in order.
pub open spec fn filters_in(specs: Seq<Seq<char>>) -> Seq<FilterModel>
    decreases specs.len(),
{
    if specs.len() == 0 {
        Seq::empty()
    } else {
        let before = filters_in(specs.drop_last());
        match filter_in(specs.last()) {
            Some(f) => before.push(f),
            None => before,
        }
    }
}

pub open spec fn filter_views(v: Seq<Filter>) -> Seq<FilterModel> {
    v.map_values(|f: Filter| f@)
}

/// The values of a name among pairs, in order.
pub open spec fn values_named(pairs: Seq<(Seq<char>, Seq<char>)>, name: Seq<char>) -> Seq<
    Seq<char>,
>
    decreases pairs.len(),
{
    if pairs.len() == 0 {
        Seq::empty()
    } else {
        let before = values_named(pairs.drop_last(), name);
        if pairs.last().0 == name {
            before.push(pairs.last().1)
        } else {
            before
        }
    }
}

/// Read the filters in the `attribute` parameters of a request.
pub fn read_filters(pairs: &Vec<(String, String)>) -> (r: Vec<Filter>)
    ensures
        filter_views(r@) == filters_in(values_named(pair_texts(pairs@), "attribute"@)),
{
    let ghost all = pair_texts(pairs@);
    let mut out: Vec<Filter> = Vec::new();
    let mut i: usize = 0;
    assert(all.take(0) =~= Seq::<(Seq<char>, Seq<char>)>::empty());
    assert(filter_views(out@) =~= Seq::<FilterModel>::empty());
    while i < pairs.len()
        invariant
            i <= pairs@.len(),
            all == pair_texts(pairs@),
            filter_views(out@) == filters_in(values_named(all.take(i as int), "attribute"@)),
        decreases pairs@.len() - i,
    {
        proof {
            assert(all.take(i as int + 1).drop_last() =~= all.take(i as int));
            assert(all.take(i as int + 1).last() == (pairs@[i as int].0@, pairs@[i as int].1@));
            let v = values_named(all.take(i as int), "attribute"@);
            assert(v.push(pairs@[i as int].1@).drop_last() =~= v);
        }
        if same(pairs[i].0.as_str(), "attribute") {
            if let Some(f) = read_filter(pairs[i].1.as_str()) {
                let ghost before = out@;
                out.push(f);
                assert(filter_views(out@) =~= filter_views(before).push(f@));
            }
        }
        i = i + 1;
    }
    assert(all.take(pairs@.len() as int) =~= all);
    out
}

/// A filter whose pattern is malformed, and what is wrong with it.
#[derive(Debug)]
pub struct BadPattern {
    pub key: String,
    pub error: String,
}

impl BadPattern {
    pub fn message(&self) -> (r: String)
        ensures
            r@ == "invalid regex for attribute `"@ + self.key@ + "`: "@ + self.error@,
    {
        let mut m = "invalid regex for attribute `".to_owned();
        m.append(self.key.as_str());
        m.append("`: ");
        m.append(self.error.as_str());
        m
    }
}

pub open spec fn no_filters() -> FiltersModel {
    FiltersModel { exact: Seq::empty(), contains: Seq::empty(), regex: Seq::empty() }
}

pub open spec fn with_filter(m: FiltersModel, f: FilterModel) -> FiltersModel {
    match f.kind {
        FilterKind::Exact => FiltersModel { exact: m.exact.push((f.key, f.value)), ..m },
        FilterKind::Contains => FiltersModel { contains: m.contains.push((f.key, f.value)), ..m },
        FilterKind::Regex => FiltersModel { regex: m.regex.push((f.key, f.value)), ..m },
    }
}

/// Filters split by kind, or the first one whose pattern is malformed, with
/// what is wrong with it. `faults` says for each filter what is wrong with its
/// pattern.
pub open spec fn split_filters(
    filters: Seq<FilterModel>,
    faults: Seq<Option<Seq<char>>>,
) -> Result<FiltersModel, (Seq<char>, Seq<char>)>
    decreases filters.len(),
{
    if filters.len() == 0 {
        Ok(no_filters())
    } else {
        match split_filters(filters.drop_last(), faults.drop_last()) {
            Err(e) => Err(e),
            Ok(m) => if filters.last().kind == FilterKind::Regex && faults.last() is Some {
                Err((filters.last().key, faults.last()->0))
            } else {
                Ok(with_filter(m, filters.last()))
            },
        }
    }
}

pub open spec fn fault_views(v: Seq<Option<String>>) -> Seq<Option<Seq<char>>> {
    v.map_values(|f: Option<String>| crate::text::opt_text(f))
}

pub open spec fn filters_outcome(r: Result<AttributeFilters, BadPattern>) -> Result<
    FiltersModel,
    (Seq<char>, Seq<char>),
> {
    match r {
        Ok(f) => Ok(f@),
        Err(e) => Err((e.key@, e.error@)),
    }
}

proof fn splitting_stops_at_a_fault(
    filters: Seq<FilterModel>,
    faults: Seq<Option<Seq<char>>>,
    i: int,
    e: (Seq<char>, Seq<char>),
)
    requires
        0 <= i <= filters.len(),
        filters.len() == faults.len(),
        split_filters(filters.take(i), faults.take(i)) == Err::<
            FiltersModel,
            (Seq<char>, Seq<char>),
        >(e),
    ensures
        split_filters(filters, faults) == Err::<FiltersModel, (Seq<char>, Seq<char>)>(e),
    decreases filters.len() - i,
{
    if i < filters.len() {
        assert(filters.take(i + 1).drop_last() =~= filters.take(i));
        assert(faults.take(i + 1).drop_last() =~= faults.take(i));
        splitting_stops_at_a_fault(filters, faults, i + 1, e);
    } else {
        assert(filters.take(i) =~= filters);
        assert(faults.take(i) =~= faults);
    }
}

/// Split filters by kind, given what is wrong with the pattern of each.
pub fn collect_filters(filters: &Vec<Filter>, faults: &Vec<Option<String>>) -> (r: Result<
    AttributeFilters,
    BadPattern,
>)
    requires
        filters@.len() == faults@.len(),
    ensures
        filters_outcome(r) == split_filters(filter_views(filters@), fault_views(faults@)),
{
    let ghost all = filter_views(filters@);
    let ghost bad = fault_views(faults@);
    let mut exact: Vec<(String, String)> = Vec::new();
    let mut contains: Vec<(String, String)> = Vec::new();
    let mut regex: Vec<(String, String)> = Vec::new();
    let mut i: usize = 0;
    proof {
        assert(all.take(0) =~= Seq::<FilterModel>::empty());
        assert(pair_texts(exact@) =~= Seq::<(Seq<char>, Seq<char>)>::empty());
    }
    while i < filters.len()
        invariant
            i <= filters@.len(),
            filters@.len() == faults@.len(),
            all == filter_views(filters@),
            bad == fault_views(faults@),
            split_filters(all.take(i as int), bad.take(i as int)) == Ok::<
                FiltersModel,
                (Seq<char>, Seq<char>),
            >(
                FiltersModel {
                    exact: pair_texts(exact@),
                    contains: pair_texts(contains@),
                    regex: pair_texts(regex@),
                },
            ),
        decreases filters@.len() - i,
    {
        let f = &filters[i];
        proof {
            assert(all.take(i as int + 1).drop_last() =~= all.take(i as int));
            assert(bad.take(i as int + 1).drop_last() =~= bad.take(i as int));
            assert(all.take(i as int + 1).last() == f@);
            assert(bad.take(i as int + 1).last() == crate::text::opt_text(faults@[i as int]));
        }
        let pair = (f.key.clone(), f.value.clone());
        match f.kind {
            FilterKind::Exact => {
                let ghost before = exact@;
                exact.push(pair);
                assert(pair_texts(exact@) =~= pair_texts(before).push((pair.0@, pair.1@)));
            },
            FilterKind::Contains => {
                let ghost before = contains@;
                contains.push(pair);
                assert(pair_texts(contains@) =~= pair_texts(before).push((pair.0@, pair.1@)));
            },
            FilterKind::Regex => {
                if let Some(error) = &faults[i] {
                    let bad_pattern = BadPattern { key: f.key.clone(), error: error.clone() };
                    proof {
                        splitting_stops_at_a_fault(
                            all,
                            bad,
                            i as int + 1,
                            (bad_pattern.key@, bad_pattern.error@),
                        );
                    }
                    return Err(bad_pattern);
                }
                let ghost before = regex@;
                regex.push(pair);
                assert(pair_texts(regex@) =~= pair_texts(before).push((pair.0@, pair.1@)));
            },
        }
        i = i + 1;
    }
    proof {
        assert(all.take(filters@.len() as int) =~= all);
        assert(bad.take(filters@.len() as int) =~= bad);
    }
    Ok(AttributeFilters { exact, contains, regex })
}

/// The names and values that form_urlencoded reads in a query string.
pub uninterp spec fn form_pairs(raw: Seq<char>) -> Seq<(Seq<char>, Seq<char>)>;

/// Calls `form_urlencoded::parse` and collects the pairs. Claims that they are
/// a function of the query string.
#[verifier::external_body]
fn form_urlencoded_parse(raw: &str) -> (r: Vec<(String, String)>)
    ensures
        pair_texts(r@) == form_pairs(raw@),
{
    form_urlencoded::parse(raw.as_bytes()).into_owned().collect()
}

/// Calls `Regex::new` and keeps what it says is wrong. Nothing is claimed of
/// the outcome: a pattern near the size limit, which counts the bytes of the
/// machine's own layouts, may compile on one machine and not on another.
#[verifier::external_body]
fn regex_new_fault(pattern: &str) -> (r: Option<String>) {
    regex::Regex::new(pattern).err().map(|e| e.to_string())
}

/// Whether faults belong to filters: only a pattern can have one.
pub open spec fn may_be_faults(
    filters: Seq<FilterModel>,
    faults: Seq<Option<Seq<char>>>,
) -> bool {
    &&& faults.len() == filters.len()
    &&& forall|i: int|
        0 <= i < filters.len() && (#[trigger] filters[i]).kind != FilterKind::Regex
            ==> faults[i] is None
}

/// What is wrong with the pattern of each filter; nothing with one that has no
/// pattern.
fn check_patterns(filters: &Vec<Filter>) -> (r: Vec<Option<String>>)
    ensures
        may_be_faults(filter_views(filters@), fault_views(r@)),
{
    let mut out: Vec<Option<String>> = Vec::new();
    let mut i: usize = 0;
    while i < filters.len()
        invariant
            i <= filters@.len(),
            out@.len() == i,
            forall|j: int|
                0 <= j < i && (#[trigger] filters@[j]).kind != FilterKind::Regex ==> out@[j]
                    is None,
        decreases filters@.len() - i,
    {
        let fault: Option<String> = match filters[i].kind {
            FilterKind::Regex => regex_new_fault(filters[i].value.as_str()),
            _ => None,
        };
        out.push(fault);
        i = i + 1;
    }
    proof {
        let all = filter_views(filters@);
        assert forall|j: int|
            0 <= j < all.len() && (#[trigger] all[j]).kind != FilterKind::Regex implies fault_views(
            out@,
        )[j] is None by {
            assert(all[j] == filters@[j]@);
            assert(filters@[j].kind != FilterKind::Regex);
        }
    }
    out
}

/// Filters without a pattern are never refused.
proof fn plain_filters_split(filters: Seq<FilterModel>, faults: Seq<Option<Seq<char>>>)
    requires
        filters.len() == faults.len(),
        forall|i: int| 0 <= i < filters.len() ==> (#[trigger] filters[i]).kind != FilterKind::Regex,
    ensures
        split_filters(filters, faults) is Ok,
    decreases filters.len(),
{
    if filters.len() > 0 {
        let init = filters.drop_last();
        assert forall|i: int| 0 <= i < init.len() implies (#[trigger] init[i]).kind
            != FilterKind::Regex by {
            assert(init[i] == filters[i]);
        }
        plain_filters_split(init, faults.drop_last());
        assert(filters[filters.len() - 1].kind != FilterKind::Regex);
    }
}

/// The filters of a query string.
pub open spec fn query_filters(raw: Option<Seq<char>>) -> Seq<FilterModel> {
    match raw {
        Some(q) => filters_in(values_named(form_pairs(q), "attribute"@)),
        None => Seq::empty(),
    }
}

/// Pull repeated `attribute=key<op>value` pairs out of a raw query string. A
/// malformed pattern is the caller's mistake and is reported: silently matching
/// nothing would look like "no such traces". Which patterns are malformed is
/// the regex crate's to say; without one, nothing is refused.
pub fn parse_attribute_params(raw: &Option<String>) -> (r: Result<AttributeFilters, BadPattern>)
    ensures
        exists|faults: Seq<Option<Seq<char>>>| #[trigger]
            may_be_faults(query_filters(crate::text::opt_text(*raw)), faults) && filters_outcome(r)
                == split_filters(query_filters(crate::text::opt_text(*raw)), faults),
        (forall|i: int|
            0 <= i < query_filters(crate::text::opt_text(*raw)).len() ==> (#[trigger] query_filters(
                crate::text::opt_text(*raw),
            )[i]).kind != FilterKind::Regex) ==> r is Ok,
{
    let filters: Vec<Filter> = match raw {
        Some(q) => read_filters(&form_urlencoded_parse(q.as_str())),
        None => {
            let none: Vec<Filter> = Vec::new();
            assert(filter_views(none@) =~= Seq::<FilterModel>::empty());
            none
        },
    };
    let faults = check_patterns(&filters);
    proof {
        let all = filter_views(filters@);
        assert(all == query_filters(crate::text::opt_text(*raw)));
        assert(may_be_faults(query_filters(crate::text::opt_text(*raw)), fault_views(faults@)));
        assert(fault_views(faults@).len() == faults@.len());
        assert(all.len() == filters@.len());
        if forall|i: int| 0 <= i < all.len() ==> (#[trigger] all[i]).kind != FilterKind::Regex {
            plain_filters_split(all, fault_views(faults@));
        }
    }
    collect_filters(&filters, &faults)
}

// ── Laws ────────────────────────────────────────────────────────────

/// A window reads as it is written: a number alone or with `s` is that many
/// seconds, and with `m`, `h` or `d` so many minutes, hours or days.
pub proof fn windows_read_as_written(n: nat)
    requires
        n <= 100_000_000_000_000,
    ensures
        duration_seconds(crate::text::decimal(n)) == Some(n as i64),
        duration_seconds(crate::text::decimal(n).push('s')) == Some(n as i64),
        duration_seconds(crate::text::decimal(n).push('m')) == Some((60 * n) as i64),
        duration_seconds(crate::text::decimal(n).push('h')) == Some((60 * (60 * n)) as i64),
        duration_seconds(crate::text::decimal(n).push('d')) == Some((24 * (60 * (60 * n))) as i64),
        duration_seconds(crate::text::decimal(n).push('w')) is None,
{
    let d = crate::text::decimal(n);
    crate::text::decimal_reads_back(n);
    assert(crate::text::is_digit(d[0]) && crate::text::is_digit(d[d.len() - 1]));
    assert(trimmed(d) == d);
    window_part(d, 's');
    window_part(d, 'm');
    window_part(d, 'h');
    window_part(d, 'd');
    window_part(d, 'w');
    assert(d.push('w')[d.len() as int] == 'w');
}

proof fn window_part(d: Seq<char>, c: char)
    requires
        d.len() > 0,
        crate::text::is_digit(d[0]),
        'a' <= c <= 'z',
    ensures
        trimmed(d.push(c)) == d.push(c),
        d.push(c).drop_last() == d,
        d.push(c).last() == c,
{
    let s = d.push(c);
    assert(s[0] == d[0]);
    assert(s.drop_last() =~= d);
    assert(trimmed(s) == s);
}

/// A filter reads as it is written: `key=value` asks for that value, `key~=value`
/// for one that holds it and `key=~value` for one that matches it. A key is needed.
pub proof fn filters_read_as_written(k: Seq<char>, v: Seq<char>)
    requires
        k.len() > 0,
        trimmed(k) == k,
        !k.contains('='),
        !k.contains('~'),
        !v.contains('='),
        !v.contains('~'),
    ensures
        filter_in(k + "="@ + v) == Some(FilterModel { kind: FilterKind::Exact, key: k, value: v }),
        filter_in(k + "~="@ + v) == Some(
            FilterModel { kind: FilterKind::Contains, key: k, value: v },
        ),
        filter_in(k + "=~"@ + v) == Some(FilterModel { kind: FilterKind::Regex, key: k, value: v }),
        filter_in(v) is None,
        filter_in("="@ + v) is None,
{
    reveal_strlit("=");
    reveal_strlit("~=");
    reveal_strlit("=~");
    reveal_strlit("");
    parted(k, "="@, v);
    parted(k, "~="@, v);
    parted(k, "=~"@, v);
    parted(Seq::empty(), "="@, v);
    assert(Seq::<char>::empty() + "="@ + v =~= "="@ + v);
    let e = k + "="@ + v;
    assert("~="@[0] == '~' && "=~"@[1] == '~' && "="@[0] == '=');
    assert forall|i: int| 0 <= i < e.len() implies e[i] != '~' by {
        if i < k.len() {
            assert(k.contains(k[i]));
        } else if i > k.len() {
            assert(v.contains(v[i - k.len() - 1]));
        }
    }
    let f = "="@ + v;
    assert forall|i: int| 0 <= i < f.len() implies f[i] != '~' by {
        if i > 0 {
            assert(v.contains(v[i - 1]));
        }
    }
    not_parted(e, "~="@, '~', 0);
    not_parted_behind(k, v, 0);
    not_parted(e, "=~"@, '~', 0);
    not_parted(v, "~="@, '~', 0);
    not_parted(v, "=~"@, '~', 0);
    not_parted(v, "="@, '=', 0);
    not_parted(f, "~="@, '~', 0);
    not_parted(f, "=~"@, '~', 0);
    assert(trimmed(Seq::<char>::empty()).len() == 0);
}

/// The first place of a separator that no text before it holds a part of.
proof fn parted(k: Seq<char>, sep: Seq<char>, v: Seq<char>)
    requires
        !k.contains('='),
        !k.contains('~'),
        sep.len() > 0,
        sep[0] == '=' || sep[0] == '~',
    ensures
        sides(k + sep + v, sep) == Some((k, v)),
{
    let s = k + sep + v;
    assert(s.subrange(k.len() as int, k.len() as int + sep.len()) =~= sep);
    assert forall|i: int| 0 <= i < k.len() implies #[trigger] s[i] != '=' && s[i] != '~' by {
        assert(k.contains(k[i]));
    }
    found_at(s, sep, k.len() as int, 0);
    assert(s.take(k.len() as int) =~= k);
    assert(s.skip((k.len() + sep.len()) as int) =~= v);
}

proof fn found_at(s: Seq<char>, sep: Seq<char>, at: int, from: int)
    requires
        0 <= from <= at,
        at + sep.len() <= s.len(),
        sep.len() > 0,
        sep[0] == '=' || sep[0] == '~',
        forall|i: int| 0 <= i < at ==> #[trigger] s[i] != '=' && s[i] != '~',
        s.subrange(at, at + sep.len()) == sep,
    ensures
        crate::text::first_at(s, from, sep) == Some(at),
    decreases at - from,
{
    if from < at {
        if crate::text::starts_with_at(s, from, sep) {
            assert(s.subrange(from, from + sep.len())[0] == s[from]);
        }
        found_at(s, sep, at, from + 1);
    }
}

proof fn not_parted(s: Seq<char>, sep: Seq<char>, c: char, from: int)
    requires
        0 <= from,
        sep.contains(c),
        !s.contains(c),
    ensures
        crate::text::first_at(s, from, sep) is None,
    decreases s.len() + 1 - from,
{
    if from <= s.len() {
        if crate::text::starts_with_at(s, from, sep) {
            let i = choose|i: int| 0 <= i < sep.len() && sep[i] == c;
            assert(s.subrange(from, from + sep.len())[i] == s[from + i]);
            assert(s.contains(s[from + i]));
        }
        not_parted(s, sep, c, from + 1);
    }
}

/// In `k=~v` no `~=` stands.
proof fn not_parted_behind(k: Seq<char>, v: Seq<char>, from: int)
    requires
        0 <= from,
        !k.contains('~'),
        !v.contains('='),
    ensures
        crate::text::first_at(k + "=~"@ + v, from, "~="@) is None,
    decreases (k + "=~"@ + v).len() + 1 - from,
{
    reveal_strlit("=~");
    reveal_strlit("~=");
    let s = k + "=~"@ + v;
    if from <= s.len() {
        if crate::text::starts_with_at(s, from, "~="@) {
            let part = s.subrange(from, from + 2);
            assert(part[0] == s[from] && part[1] == s[from + 1]);
            if from < k.len() {
                assert(k.contains(k[from]));
            } else if from >= k.len() + 1 {
                assert(s[from + 1] == v[from + 1 - k.len() - 2]);
                assert(v.contains(v[from + 1 - k.len() - 2]));
            }
        }
        not_parted_behind(k, v, from + 1);
    }
}

/// Filters are told apart by their kind, in the order they were given; the values
/// of a name are those given under it.
pub proof fn filters_are_told_apart(
    filters: Seq<FilterModel>,
    faults: Seq<Option<Seq<char>>>,
    pairs: Seq<(Seq<char>, Seq<char>)>,
    name: Seq<char>,
)
    requires
        filters.len() == faults.len(),
    ensures
        split_filters(filters, faults) matches Ok(m) ==> m.exact == filters.filter(
            |f: FilterModel| f.kind == FilterKind::Exact,
        ).map_values(|f: FilterModel| (f.key, f.value)) && m.contains == filters.filter(
            |f: FilterModel| f.kind == FilterKind::Contains,
        ).map_values(|f: FilterModel| (f.key, f.value)) && m.regex == filters.filter(
            |f: FilterModel| f.kind == FilterKind::Regex,
        ).map_values(|f: FilterModel| (f.key, f.value)),
        (forall|i: int| 0 <= i < faults.len() ==> #[trigger] faults[i] is None) ==> split_filters(
            filters,
            faults,
        ) is Ok,
        values_named(pairs, name) == pairs.filter(
            |p: (Seq<char>, Seq<char>)| p.0 == name,
        ).map_values(|p: (Seq<char>, Seq<char>)| p.1),
    decreases filters.len() + pairs.len(),
{
    reveal(Seq::filter);
    if filters.len() > 0 {
        let (init, before) = (filters.drop_last(), faults.drop_last());
        filters_are_told_apart(init, before, Seq::empty(), name);
        assert(faults[faults.len() - 1] == faults.last());
        if forall|i: int| 0 <= i < faults.len() ==> #[trigger] faults[i] is None {
            assert forall|i: int| 0 <= i < before.len() implies #[trigger] before[i] is None by {
                assert(before[i] == faults[i]);
            }
        }
    }
    if let Ok(m) = split_filters(filters, faults) {
        assert(m.exact =~= filters.filter(
            |f: FilterModel| f.kind == FilterKind::Exact,
        ).map_values(|f: FilterModel| (f.key, f.value)));
        assert(m.contains =~= filters.filter(
            |f: FilterModel| f.kind == FilterKind::Contains,
        ).map_values(|f: FilterModel| (f.key, f.value)));
        assert(m.regex =~= filters.filter(
            |f: FilterModel| f.kind == FilterKind::Regex,
        ).map_values(|f: FilterModel| (f.key, f.value)));
    }
    if pairs.len() > 0 {
        filters_are_told_apart(Seq::empty(), Seq::empty(), pairs.drop_last(), name);
    }
    assert(values_named(pairs, name) =~= pairs.filter(
        |p: (Seq<char>, Seq<char>)| p.0 == name,
    ).map_values(|p: (Seq<char>, Seq<char>)| p.1));
}

/// Of a request, the filters are those that can be read, in order.
pub proof fn readable_filters_are_kept(specs: Seq<Seq<char>>)
    ensures
        filters_in(specs) == specs.filter(|s: Seq<char>| filter_in(s) is Some).map_values(
            |s: Seq<char>| filter_in(s)->0,
        ),
    decreases specs.len(),
{
    reveal(Seq::filter);
    if specs.len() > 0 {
        readable_filters_are_kept(specs.drop_last());
    }
    assert(filters_in(specs) =~= specs.filter(|s: Seq<char>| filter_in(s) is Some).map_values(
        |s: Seq<char>| filter_in(s)->0,
    ));
}

/// The window that is compared and the one it is compared with.
pub open spec fn windows_asked(last: Option<Seq<char>>, baseline: Option<Seq<char>>) -> (i64, i64) {
    let now = match window_in(last) {
        Some(n) => n,
        None => 3600i64,
    };
    let before = match window_in(baseline) {
        Some(n) => n,
        None => if now * 6 > i64::MAX {
            i64::MAX
        } else if now * 6 < i64::MIN {
            i64::MIN
        } else {
            (now * 6) as i64
        },
    };
    (now, before)
}

/// How many comments are shown.
pub open spec fn comments_shown(limit: Option<usize>) -> usize {
    match limit {
        None => 1000usize,
        Some(n) => if n < 100000 {
            n
        } else {
            100000
        },
    }
}

/// An hour is looked at where nothing is said, and compared with the six windows
/// before it; what is said is taken, each window as itself. Comments are shown as
/// asked for, up to a limit.
pub proof fn windows_default_to_an_hour(n: nat, m: nat, limit: usize)
    requires
        n <= 100_000_000_000,
        m <= 100_000_000_000,
    ensures
        windows_asked(None, None) == (3600i64, 21600i64),
        windows_asked(Some(crate::text::decimal(n).push('m')), None) == (
            (60 * n) as i64,
            (6 * (60 * n)) as i64,
        ),
        windows_asked(
            Some(crate::text::decimal(n).push('s')),
            Some(crate::text::decimal(m).push('h')),
        ) == (n as i64, (60 * (60 * m)) as i64),
        comments_shown(None) == 1000,
        limit <= 100000 ==> comments_shown(Some(limit)) == limit,
        comments_shown(Some(limit)) <= 100000,
        limit >= 100000 ==> comments_shown(Some(limit)) == 100000,
{
    windows_read_as_written(n);
    windows_read_as_written(m);
}

} // verus!
