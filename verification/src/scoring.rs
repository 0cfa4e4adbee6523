//! Online scoring: rules that sample production traces and have a command
//! score each one.

use crate::crypto::{sha256, sha256_of};
use crate::doubles::{bits_are_nan, is_nan_bits, magnitude_bits, nearest_double, order_key, order_of};
use crate::number::{float_literal, is_float};
use crate::queries::TraceQuery;
use crate::text::{bytes_of, chars, copy_text, decimal_i64, find, find_char, has_prefix, is_blank, opt_text, same, signed_decimal, split, split_on, strip_prefix, text, texts, trim, trimmed};
use crate::text_map::TextMap;
use crate::time::{Instant, Timestamp};
use vstd::prelude::*;
use vstd::utf8::encode_utf8;

verus! {

// ── Matchers ────────────────────────────────────────────────────────

/// Which traces a rule applies to, in the words of a trace query. A duration is
/// the number that was written.
#[derive(Debug)]
pub struct TraceMatcher {
    pub service: Option<String>,
    pub operation: Option<String>,
    pub status: Option<String>,
    pub min_duration_ms: Option<String>,
    /// Attributes that must be equal to a value, all of them.
    pub attributes: Vec<(String, String)>,
}

pub struct MatcherModel {
    pub service: Option<Seq<char>>,
    pub operation: Option<Seq<char>>,
    pub status: Option<Seq<char>>,
    pub min_duration_ms: Option<Seq<char>>,
    pub attributes: Seq<(Seq<char>, Seq<char>)>,
}

pub open spec fn text_pairs(v: Seq<(String, String)>) -> Seq<(Seq<char>, Seq<char>)> {
    v.map_values(|p: (String, String)| (p.0@, p.1@))
}

impl View for TraceMatcher {
    type V = MatcherModel;

    open spec fn view(&self) -> MatcherModel {
        MatcherModel {
            service: opt_text(self.service),
            operation: opt_text(self.operation),
            status: opt_text(self.status),
            min_duration_ms: opt_text(self.min_duration_ms),
            attributes: text_pairs(self.attributes@),
        }
    }
}

/// A matcher that matches everything.
pub open spec fn matches_all() -> MatcherModel {
    MatcherModel {
        service: None,
        operation: None,
        status: None,
        min_duration_ms: None,
        attributes: Seq::empty(),
    }
}

impl Default for TraceMatcher {
    fn default() -> (r: TraceMatcher)
        ensures
            r@ == matches_all(),
    {
        let attributes: Vec<(String, String)> = Vec::new();
        assert(text_pairs(attributes@) =~= Seq::<(Seq<char>, Seq<char>)>::empty());
        TraceMatcher {
            service: None,
            operation: None,
            status: None,
            min_duration_ms: None,
            attributes,
        }
    }
}

/// What is wrong with a selector.
#[derive(Debug)]
pub enum MatchError {
    NotAPair(String),
    BadNumber(String),
    UnknownKey(String),
}

pub enum MatchFault {
    NotAPair(Seq<char>),
    BadNumber(Seq<char>),
    UnknownKey(Seq<char>),
}

impl View for MatchError {
    type V = MatchFault;

    open spec fn view(&self) -> MatchFault {
        match self {
            MatchError::NotAPair(s) => MatchFault::NotAPair(s@),
            MatchError::BadNumber(s) => MatchFault::BadNumber(s@),
            MatchError::UnknownKey(s) => MatchFault::UnknownKey(s@),
        }
    }
}

impl MatchError {
    pub open spec fn text(self) -> Seq<char> {
        match self {
            MatchError::NotAPair(s) => "match `"@ + s@ + "` must be key=value"@,
            MatchError::BadNumber(s) => if s@.len() == 0 {
                "cannot parse float from empty string"@
            } else {
                "invalid float literal"@
            },
            MatchError::UnknownKey(k) => "unknown match key `"@ + k@
                + "` (use service, operation, status, min_duration_ms, or attribute:<key>)"@,
        }
    }

    pub fn message(&self) -> (r: String)
        ensures
            r@ == self.text(),
    {
        match self {
            MatchError::NotAPair(s) => {
                let mut m = "match `".to_owned();
                m.append(s.as_str());
                m.append("` must be key=value");
                m
            },
            MatchError::BadNumber(s) => if s.as_str().is_empty() {
                "cannot parse float from empty string".to_owned()
            } else {
                "invalid float literal".to_owned()
            },
            MatchError::UnknownKey(k) => {
                let mut m = "unknown match key `".to_owned();
                m.append(k.as_str());
                m.append(
                    "` (use service, operation, status, min_duration_ms, or attribute:<key>)",
                );
                m
            },
        }
    }
}

/// A matcher with one more selector, `key=value`. A key is one of the fields,
/// or `attribute:` and the name of an attribute.
pub open spec fn selected(m: MatcherModel, spec_text: Seq<char>) -> Result<
    MatcherModel,
    MatchFault,
> {
    let at = find_char(spec_text, 0, '=');
    if at >= spec_text.len() {
        Err(MatchFault::NotAPair(spec_text))
    } else {
        let key = trimmed(spec_text.take(at));
        let value = spec_text.skip(at + 1);
        if key == "service"@ {
            Ok(MatcherModel { service: Some(value), ..m })
        } else if key == "operation"@ {
            Ok(MatcherModel { operation: Some(value), ..m })
        } else if key == "status"@ {
            Ok(MatcherModel { status: Some(value), ..m })
        } else if key == "min_duration_ms"@ {
            if is_float(value) {
                Ok(MatcherModel { min_duration_ms: Some(value), ..m })
            } else {
                Err(MatchFault::BadNumber(value))
            }
        } else if has_prefix(key, "attribute:"@) && key.len() > "attribute:"@.len() {
            Ok(
                MatcherModel {
                    attributes: m.attributes.push((key.skip("attribute:"@.len() as int), value)),
                    ..m
                },
            )
        } else {
            Err(MatchFault::UnknownKey(key))
        }
    }
}

/// The matcher of some selectors, or what is wrong with the first bad one. A
/// later selector outdoes an earlier one for the same field.
pub open spec fn matcher_of(specs: Seq<Seq<char>>) -> Result<MatcherModel, MatchFault>
    decreases specs.len(),
{
    if specs.len() == 0 {
        Ok(matches_all())
    } else {
        match matcher_of(specs.drop_last()) {
            Err(e) => Err(e),
            Ok(m) => selected(m, specs.last()),
        }
    }
}

proof fn parsing_stops_at_an_error(specs: Seq<Seq<char>>, i: int, e: MatchFault)
    requires
        0 <= i <= specs.len(),
        matcher_of(specs.take(i)) == Err::<MatcherModel, MatchFault>(e),
    ensures
        matcher_of(specs) == Err::<MatcherModel, MatchFault>(e),
    decreases specs.len() - i,
{
    if i < specs.len() {
        assert(specs.take(i + 1).drop_last() =~= specs.take(i));
        parsing_stops_at_an_error(specs, i + 1, e);
    } else {
        assert(specs.take(i) =~= specs);
    }
}

fn select(m: TraceMatcher, spec_text: &str) -> (r: Result<TraceMatcher, MatchError>)
    ensures
        match r {
            Ok(n) => selected(m@, spec_text@) == Ok::<MatcherModel, MatchFault>(n@),
            Err(e) => selected(m@, spec_text@) == Err::<MatcherModel, MatchFault>(e@),
        },
{
    let v = chars(spec_text);
    let n: usize = v.len();
    let at: usize = find(&v, 0, '=');
    if at >= n {
        return Err(MatchError::NotAPair(spec_text.to_owned()));
    }
    let before = text(&v, 0, at);
    assert(before@ =~= spec_text@.take(at as int));
    let value = text(&v, at + 1, n);
    assert(value@ =~= spec_text@.skip(at as int + 1));
    let key = trim(before.as_str());
    let mut m = m;
    let k = key.as_str();
    if same(k, "service") {
        m.service = Some(value);
    } else if same(k, "operation") {
        m.operation = Some(value);
    } else if same(k, "status") {
        m.status = Some(value);
    } else if same(k, "min_duration_ms") {
        if !float_literal(value.as_str()) {
            return Err(MatchError::BadNumber(value));
        }
        m.min_duration_ms = Some(value);
    } else {
        match strip_prefix(k, "attribute:") {
            Some(name) => {
                assert(name@.len() == key@.len() - "attribute:"@.len());
                if name.as_str().is_empty() {
                    return Err(MatchError::UnknownKey(key));
                }
                let ghost was = m.attributes@;
                m.attributes.push((name, value));
                assert(text_pairs(m.attributes@) =~= text_pairs(was).push((name@, value@)));
            },
            None => {
                return Err(MatchError::UnknownKey(key));
            },
        }
    }
    Ok(m)
}

fn copy_pairs(v: &Vec<(String, String)>) -> (r: Vec<(String, String)>)
    ensures
        text_pairs(r@) == text_pairs(v@),
{
    let mut out: Vec<(String, String)> = Vec::new();
    let mut i: usize = 0;
    while i < v.len()
        invariant
            i <= v@.len(),
            text_pairs(out@) == text_pairs(v@).take(i as int),
        decreases v@.len() - i,
    {
        let ghost before = out@;
        let pair = (v[i].0.clone(), v[i].1.clone());
        out.push(pair);
        assert(text_pairs(out@) =~= text_pairs(before).push((pair.0@, pair.1@)));
        i = i + 1;
        assert(text_pairs(out@) =~= text_pairs(v@).take(i as int));
    }
    assert(text_pairs(v@).take(v@.len() as int) =~= text_pairs(v@));
    out
}

impl TraceMatcher {
    /// Parse `key=value` selectors: bare keys map onto the fields, and
    /// `attribute:foo=bar` onto attributes.
    pub fn parse(specs: &Vec<String>) -> (r: Result<TraceMatcher, MatchError>)
        ensures
            match r {
                Ok(m) => matcher_of(texts(specs@)) == Ok::<MatcherModel, MatchFault>(m@),
                Err(e) => matcher_of(texts(specs@)) == Err::<MatcherModel, MatchFault>(e@),
            },
    {
        let ghost all = texts(specs@);
        let mut m = TraceMatcher::default();
        let mut i: usize = 0;
        assert(all.take(0) =~= Seq::<Seq<char>>::empty());
        while i < specs.len()
            invariant
                i <= specs@.len(),
                all == texts(specs@),
                matcher_of(all.take(i as int)) == Ok::<MatcherModel, MatchFault>(m@),
            decreases specs@.len() - i,
        {
            assert(all[i as int] == specs@[i as int]@);
            assert(all.take(i as int + 1).drop_last() =~= all.take(i as int));
            assert(all.take(i as int + 1).last() == all[i as int]);
            match select(m, specs[i].as_str()) {
                Ok(n) => {
                    m = n;
                },
                Err(e) => {
                    proof {
                        parsing_stops_at_an_error(all, i as int + 1, e@);
                    }
                    return Err(e);
                },
            }
            i = i + 1;
        }
        assert(all.take(specs@.len() as int) =~= all);
        Ok(m)
    }

    /// The query that brings the candidates of a rule.
    pub fn to_query(&self, last_seconds: i64, limit: u32) -> (r: TraceQuery)
        ensures
            opt_text(r.service) == self@.service,
            opt_text(r.operation) == self@.operation,
            opt_text(r.status) == self@.status,
            opt_text(r.min_duration_ms) == self@.min_duration_ms,
            r.max_duration_ms is None,
            r.last_seconds == Some(last_seconds),
            r.limit == Some(limit),
            text_pairs(r.attributes@) == self@.attributes,
            r.attributes_contains@.len() == 0,
            r.attributes_regex@.len() == 0,
            r.text is None,
            r.tenant is None,
            asks_for_matches(r, self@, last_seconds, limit),
    {
        TraceQuery {
            service: copy_text(&self.service),
            operation: copy_text(&self.operation),
            min_duration_ms: copy_text(&self.min_duration_ms),
            max_duration_ms: None,
            status: copy_text(&self.status),
            last_seconds: Some(last_seconds),
            limit: Some(limit),
            attributes: copy_pairs(&self.attributes),
            attributes_contains: Vec::new(),
            attributes_regex: Vec::new(),
            text: None,
            tenant: None,
        }
    }
}

// ── Sampling ────────────────────────────────────────────────────────

/// The number that the first eight bytes are, the highest byte first.
pub open spec fn big_endian(bytes: Seq<u8>, n: nat) -> nat
    decreases n,
{
    if n == 0 {
        0
    } else {
        big_endian(bytes, (n - 1) as nat) * 256 + bytes[n - 1] as nat
    }
}

/// The 64-bit number that a trace is sampled by.
pub open spec fn sample_number(trace_id: Seq<char>) -> nat {
    big_endian(sha256(encode_utf8(trace_id)), 8)
}

/// The bits of a number divided by two to the 64th, as the nearest double that
/// is below one.
pub open spec fn fraction_bits(n: nat) -> int {
    if n == 0 {
        0
    } else {
        let bits = magnitude_bits(n) - 64 * 0x10_0000_0000_0000;
        if bits >= 0x3ff0_0000_0000_0000 {
            0x3fef_ffff_ffff_ffff
        } else {
            bits
        }
    }
}

/// A stable value from zero up to one for a trace, as the bits of a double.
pub open spec fn trace_fraction(trace_id: Seq<char>) -> int {
    fraction_bits(sample_number(trace_id))
}

proof fn big_endian_bound(bytes: Seq<u8>, n: nat)
    requires
        n <= 8,
    ensures
        n == 0 ==> big_endian(bytes, n) == 0,
        n == 1 ==> big_endian(bytes, n) < 0x100,
        n == 2 ==> big_endian(bytes, n) < 0x1_0000,
        n == 3 ==> big_endian(bytes, n) < 0x100_0000,
        n == 4 ==> big_endian(bytes, n) < 0x1_0000_0000,
        n == 5 ==> big_endian(bytes, n) < 0x100_0000_0000,
        n == 6 ==> big_endian(bytes, n) < 0x1_0000_0000_0000,
        n == 7 ==> big_endian(bytes, n) < 0x100_0000_0000_0000,
        n == 8 ==> big_endian(bytes, n) < 0x1_0000_0000_0000_0000,
    decreases n,
{
    if n > 0 {
        big_endian_bound(bytes, (n - 1) as nat);
    }
}

fn first_eight(bytes: &Vec<u8>) -> (r: u64)
    requires
        bytes@.len() >= 8,
    ensures
        r == big_endian(bytes@, 8),
{
    let mut n: u64 = 0;
    let mut i: usize = 0;
    while i < 8
        invariant
            i <= 8,
            bytes@.len() >= 8,
            n == big_endian(bytes@, i as nat),
        decreases 8 - i,
    {
        proof {
            big_endian_bound(bytes@, i as nat);
            big_endian_bound(bytes@, i as nat + 1);
        }
        n = n * 256 + bytes[i] as u64;
        i = i + 1;
    }
    n
}

/// Map a trace onto a stable value in [0, 1), for sampling decisions.
pub fn sample_fraction(trace_id: &str) -> (r: u64)
    ensures
        r == trace_fraction(trace_id@),
        r < 0x3ff0_0000_0000_0000,
{
    let digest = sha256_of(&bytes_of(trace_id));
    let n: u64 = first_eight(&digest);
    fraction(n)
}

/// A 64-bit number as a fraction of two to the 64th.
pub fn fraction(n: u64) -> (r: u64)
    ensures
        r == fraction_bits(n as nat),
        r < 0x3ff0_0000_0000_0000,
{
    if n == 0 {
        return 0;
    }
    let whole: u64 = nearest_double(n);
    proof {
        positive_magnitude(n as nat);
    }
    let bits: u64 = whole - 0x400_0000_0000_0000;
    if bits >= 0x3ff0_0000_0000_0000 {
        0x3fef_ffff_ffff_ffff
    } else {
        bits
    }
}

proof fn positive_magnitude(m: nat)
    requires
        m > 0,
    ensures
        magnitude_bits(m) >= 0x3fe0_0000_0000_0000,
{
    assert(magnitude_bits(m) >= 1022 * 0x10_0000_0000_0000);
}

/// Whether a trace is in the sample of a rate. The same trace is always in it,
/// or always out.
pub open spec fn in_sample(trace_id: Seq<char>, rate: u64) -> bool {
    !is_nan_bits(rate) && trace_fraction(trace_id) < order_of(rate)
}

pub fn is_sampled(trace_id: &str, rate: u64) -> (r: bool)
    ensures
        r == in_sample(trace_id@, rate),
{
    let f: u64 = sample_fraction(trace_id);
    !bits_are_nan(rate) && (f as i64) < order_key(rate)
}

// ── Rules ───────────────────────────────────────────────────────────

/// A rule that scores sampled production traces.
#[derive(Debug)]
pub struct ScoreRule {
    pub name: String,
    /// Fraction of matching traces to score, the bits of a double.
    pub sample: u64,
    pub matcher: TraceMatcher,
    /// Command that is run once per sampled trace.
    pub command: String,
    pub description: Option<String>,
    pub created_at: Timestamp,
}

/// Per-rule progress.
#[derive(Debug)]
pub struct RuleStatus {
    pub traces_seen: u64,
    pub traces_sampled: u64,
    pub scores_written: u64,
    pub failures: u64,
    pub last_run_at: Option<Timestamp>,
    pub last_error: Option<String>,
}

pub struct StatusModel {
    pub traces_seen: u64,
    pub traces_sampled: u64,
    pub scores_written: u64,
    pub failures: u64,
    pub last_run_at: Option<Instant>,
    pub last_error: Option<Seq<char>>,
}

impl View for RuleStatus {
    type V = StatusModel;

    open spec fn view(&self) -> StatusModel {
        StatusModel {
            traces_seen: self.traces_seen,
            traces_sampled: self.traces_sampled,
            scores_written: self.scores_written,
            failures: self.failures,
            last_run_at: match self.last_run_at {
                Some(t) => Some(t@),
                None => None,
            },
            last_error: opt_text(self.last_error),
        }
    }
}

/// No progress yet.
pub open spec fn no_progress() -> StatusModel {
    StatusModel {
        traces_seen: 0,
        traces_sampled: 0,
        scores_written: 0,
        failures: 0,
        last_run_at: None,
        last_error: None,
    }
}

impl Default for RuleStatus {
    fn default() -> (r: RuleStatus)
        ensures
            r@ == no_progress(),
    {
        RuleStatus {
            traces_seen: 0,
            traces_sampled: 0,
            scores_written: 0,
            failures: 0,
            last_run_at: None,
            last_error: None,
        }
    }
}

/// How many recently scored traces are remembered.
pub const SCORED_MEMORY: usize = 10000;

/// The rules, their progress, and the traces that were scored lately, each with
/// the rule that scored it: two rules score the same trace independently.
#[derive(Debug)]
pub struct ScoreRuleStore {
    rules: Vec<ScoreRule>,
    status: TextMap<RuleStatus>,
    scored: Vec<(String, String)>,
}

/// Why a rule is refused.
#[derive(Debug)]
pub enum RuleError {
    SampleOutOfRange(u64),
    NoCommand,
    Duplicate(String),
}

/// Whether a rate lies from zero to one.
pub open spec fn is_rate(bits: u64) -> bool {
    !is_nan_bits(bits) && 0 <= order_of(bits) <= 0x3ff0_0000_0000_0000
}

pub open spec fn rule_names(rules: Seq<ScoreRule>) -> Seq<Seq<char>> {
    rules.map_values(|r: ScoreRule| r.name@)
}

/// Whether a position is the first at which its text stands.
pub open spec fn is_first(ids: Seq<Seq<char>>, i: int) -> bool {
    forall|j: int| 0 <= j < i ==> #[trigger] ids[j] != ids[i]
}

/// The number of different texts.
pub open spec fn distinct_count(ids: Seq<Seq<char>>) -> nat
    decreases ids.len(),
{
    if ids.len() == 0 {
        0
    } else {
        distinct_count(ids.drop_last()) + if is_first(ids, ids.len() - 1) {
            1nat
        } else {
            0
        }
    }
}

/// The candidates of a rule among spans, by position: the first span of each
/// trace that was not scored lately and is in the sample.
pub open spec fn candidates(
    ids: Seq<Seq<char>>,
    n: nat,
    scored: Seq<(Seq<char>, Seq<char>)>,
    rule: Seq<char>,
    rate: u64,
) -> Seq<int>
    decreases n,
{
    if n == 0 {
        Seq::empty()
    } else {
        let before = candidates(ids, (n - 1) as nat, scored, rule, rate);
        let i = n - 1;
        if is_first(ids, i) && !scored.contains((rule, ids[i])) && in_sample(ids[i], rate) {
            before.push(i)
        } else {
            before
        }
    }
}

/// A memory with one more entry; the oldest is forgotten where it is full.
pub open spec fn remembered(
    scored: Seq<(Seq<char>, Seq<char>)>,
    entry: (Seq<char>, Seq<char>),
) -> Seq<(Seq<char>, Seq<char>)> {
    if scored.len() >= SCORED_MEMORY {
        scored.drop_first().push(entry)
    } else {
        scored.push(entry)
    }
}

impl ScoreRuleStore {
    #[verifier::type_invariant]
    spec fn wf(self) -> bool {
        self.scored@.len() <= SCORED_MEMORY
    }

    pub closed spec fn rules(self) -> Seq<ScoreRule> {
        self.rules@
    }

    /// The traces that were scored lately, oldest first, each with its rule.
    pub closed spec fn memory(self) -> Seq<(Seq<char>, Seq<char>)> {
        text_pairs(self.scored@)
    }

    /// A rule's progress.
    pub closed spec fn progress(self, rule: Seq<char>) -> StatusModel {
        if self.status@.dom().contains(rule) {
            self.status@[rule]@
        } else {
            no_progress()
        }
    }

    /// A store of some rules.
    pub fn open(rules: Vec<ScoreRule>) -> (r: ScoreRuleStore)
        ensures
            r.rules() == rules@,
            r.memory() == Seq::<(Seq<char>, Seq<char>)>::empty(),
            forall|n: Seq<char>| #[trigger] r.progress(n) == no_progress(),
    {
        let scored: Vec<(String, String)> = Vec::new();
        assert(text_pairs(scored@) =~= Seq::<(Seq<char>, Seq<char>)>::empty());
        ScoreRuleStore { rules, status: TextMap::new(), scored }
    }

    pub fn list(&self) -> (r: &Vec<ScoreRule>)
        ensures
            r@ == self.rules(),
    {
        &self.rules
    }

    /// A rule's progress, where there is any.
    pub fn status(&self, rule: &str) -> (r: Option<&RuleStatus>)
        ensures
            match r {
                Some(s) => self.progress(rule@) == s@,
                None => self.progress(rule@) == no_progress(),
            },
    {
        self.status.get(rule)
    }

    fn position(&self, name: &str) -> (r: Option<usize>)
        ensures
            match r {
                Some(i) => i < self.rules@.len() && self.rules@[i as int].name@ == name@,
                None => !rule_names(self.rules@).contains(name@),
            },
    {
        let mut i: usize = 0;
        while i < self.rules.len()
            invariant
                i <= self.rules@.len(),
                forall|j: int| 0 <= j < i ==> (#[trigger] self.rules@[j]).name@ != name@,
            decreases self.rules@.len() - i,
        {
            if same(self.rules[i].name.as_str(), name) {
                return Some(i);
            }
            i = i + 1;
        }
        None
    }

    /// Add a rule. What is wrong with it is reported in this order: its rate,
    /// its command, its name.
    pub fn create(&mut self, rule: ScoreRule) -> (r: Result<(), RuleError>)
        ensures
            match r {
                Ok(_) => {
                    &&& is_rate(rule.sample)
                    &&& trimmed(rule.command@).len() > 0
                    &&& !rule_names(old(self).rules()).contains(rule.name@)
                    &&& final(self).rules() == old(self).rules().push(rule)
                },
                Err(e) => {
                    &&& final(self).rules() == old(self).rules()
                    &&& match e {
                        RuleError::SampleOutOfRange(bits) => bits == rule.sample && !is_rate(
                            rule.sample,
                        ),
                        RuleError::NoCommand => is_rate(rule.sample) && trimmed(
                            rule.command@,
                        ).len() == 0,
                        RuleError::Duplicate(n) => n@ == rule.name@ && is_rate(rule.sample)
                            && trimmed(rule.command@).len() > 0 && rule_names(
                            old(self).rules(),
                        ).contains(rule.name@),
                    }
                },
            },
            final(self).memory() == old(self).memory(),
            forall|n: Seq<char>| #[trigger]
                final(self).progress(n) == old(self).progress(n),
    {
        proof {
            use_type_invariant(&*self);
        }
        if bits_are_nan(rule.sample) || order_key(rule.sample) < 0 || order_key(rule.sample)
            > 0x3ff0_0000_0000_0000 {
            return Err(RuleError::SampleOutOfRange(rule.sample));
        }
        if is_blank(rule.command.as_str()) {
            return Err(RuleError::NoCommand);
        }
        if let Some(i) = self.position(rule.name.as_str()) {
            assert(rule_names(self.rules@)[i as int] == rule.name@);
            return Err(RuleError::Duplicate(rule.name));
        }
        let mut rules: Vec<ScoreRule> = Vec::new();
        std::mem::swap(&mut rules, &mut self.rules);
        rules.push(rule);
        self.rules = rules;
        Ok(())
    }

    /// Remove a rule and its progress. Says whether there was one.
    pub fn delete(&mut self, name: &str) -> (r: bool)
        ensures
            r == rule_names(old(self).rules()).contains(name@),
            final(self).rules() == old(self).rules().filter(|x: ScoreRule| x.name@ != name@),
            final(self).memory() == old(self).memory(),
            forall|n: Seq<char>| #[trigger]
                final(self).progress(n) == if r && n == name@ {
                    no_progress()
                } else {
                    old(self).progress(n)
                },
    {
        proof {
            use_type_invariant(&*self);
        }
        let ghost all = self.rules@;
        let ghost keep = |x: ScoreRule| x.name@ != name@;
        let mut left: Vec<ScoreRule> = Vec::new();
        std::mem::swap(&mut left, &mut self.rules);
        let mut kept: Vec<ScoreRule> = Vec::new();
        let mut removed: bool = false;
        proof {
            reveal(Seq::filter);
            assert(kept@ =~= all.take(0).filter(keep));
        }
        for rule in it: left
            invariant
                it.seq() == all,
                keep == (|x: ScoreRule| x.name@ != name@),
                kept@ == all.take(it.index()).filter(keep),
                removed == rule_names(all.take(it.index())).contains(name@),
        {
            proof {
                reveal(Seq::filter);
                assert(all.take(it.index() + 1).drop_last() =~= all.take(it.index()));
                assert(all.take(it.index() + 1).last() == rule);
                let names = rule_names(all.take(it.index()));
                assert(rule_names(all.take(it.index() + 1)) =~= names.push(rule.name@));
                if names.contains(name@) {
                    let i = choose|i: int| 0 <= i < names.len() && names[i] == name@;
                    assert(names.push(rule.name@)[i] == name@);
                }
                if rule.name@ == name@ {
                    assert(names.push(rule.name@)[names.len() as int] == name@);
                }
            }
            if same(rule.name.as_str(), name) {
                removed = true;
            } else {
                kept.push(rule);
            }
        }
        assert(all.take(all.len() as int) =~= all);
        self.rules = kept;
        if removed {
            let mut status: TextMap<RuleStatus> = TextMap::new();
            std::mem::swap(&mut status, &mut self.status);
            status.remove(name);
            self.status = status;
        }
        removed
    }

    /// Whether a rule scored a trace lately.
    pub fn already_scored(&self, rule: &str, trace_id: &str) -> (r: bool)
        ensures
            r == self.memory().contains((rule@, trace_id@)),
    {
        let mut i: usize = 0;
        while i < self.scored.len()
            invariant
                i <= self.scored@.len(),
                forall|j: int|
                    0 <= j < i ==> #[trigger] text_pairs(self.scored@)[j] != (rule@, trace_id@),
            decreases self.scored@.len() - i,
        {
            assert(text_pairs(self.scored@)[i as int] == (
                self.scored@[i as int].0@,
                self.scored@[i as int].1@,
            ));
            if same(self.scored[i].0.as_str(), rule) && same(self.scored[i].1.as_str(), trace_id) {
                assert(self.memory().contains((rule@, trace_id@)));
                return true;
            }
            i = i + 1;
        }
        false
    }

    fn remember_scored(&mut self, rule: &str, trace_id: &str)
        ensures
            final(self).rules() == old(self).rules(),
            final(self).memory() == remembered(old(self).memory(), (rule@, trace_id@)),
            final(self).status == old(self).status,
    {
        proof {
            use_type_invariant(&*self);
        }
        let ghost before = self.scored@;
        let mut scored: Vec<(String, String)> = Vec::new();
        std::mem::swap(&mut scored, &mut self.scored);
        if scored.len() >= SCORED_MEMORY {
            scored.remove(0);
            assert(scored@ =~= before.drop_first());
            assert(text_pairs(before.drop_first()) =~= text_pairs(before).drop_first());
        }
        let ghost kept = scored@;
        scored.push((rule.to_owned(), trace_id.to_owned()));
        assert(text_pairs(scored@) =~= text_pairs(kept).push((rule@, trace_id@)));
        self.scored = scored;
    }

    fn take_status(&mut self, rule: &str) -> (r: RuleStatus)
        ensures
            final(self).rules() == old(self).rules(),
            final(self).memory() == old(self).memory(),
            r@ == old(self).progress(rule@),
            forall|n: Seq<char>|
                n != rule@ ==> #[trigger] final(self).progress(n) == old(self).progress(n),
    {
        proof {
            use_type_invariant(&*self);
        }
        let mut status: TextMap<RuleStatus> = TextMap::new();
        std::mem::swap(&mut status, &mut self.status);
        let taken = status.remove(rule);
        self.status = status;
        match taken {
            Some(s) => s,
            None => RuleStatus::default(),
        }
    }

    fn put_status(&mut self, rule: &str, s: RuleStatus)
        ensures
            final(self).rules() == old(self).rules(),
            final(self).memory() == old(self).memory(),
            final(self).progress(rule@) == s@,
            forall|n: Seq<char>|
                n != rule@ ==> #[trigger] final(self).progress(n) == old(self).progress(n),
    {
        proof {
            use_type_invariant(&*self);
        }
        let mut status: TextMap<RuleStatus> = TextMap::new();
        std::mem::swap(&mut status, &mut self.status);
        status.insert(rule.to_owned(), s);
        self.status = status;
    }

    /// Select the spans that a rule is to score in this pass, given the traces
    /// of the spans that its query brought.
    ///
    /// Sampling is by the trace and not by chance: a draw would let a retried
    /// pass score one trace twice and another not at all.
    pub fn select_candidates(&mut self, rule: &str, sample: u64, trace_ids: &Vec<String>) -> (r:
        Vec<usize>)
        ensures
            crate::ranking::as_ints(r@) == candidates(
                texts(trace_ids@),
                trace_ids@.len(),
                old(self).memory(),
                rule@,
                sample,
            ),
            final(self).rules() == old(self).rules(),
            final(self).memory() == old(self).memory(),
            final(self).progress(rule@) == (StatusModel {
                traces_seen: old(self).progress(rule@).traces_seen.wrapping_add(
                    distinct_count(texts(trace_ids@)) as u64,
                ),
                ..old(self).progress(rule@)
            }),
            forall|n: Seq<char>|
                n != rule@ ==> #[trigger] final(self).progress(n) == old(self).progress(n),
            final(self).progress(rule@) == after_sight(old(self).progress(rule@), distinct_count(texts(trace_ids@)) as u64),
    {
        let ghost ids = texts(trace_ids@);
        let ghost memory = self.memory();
        let mut out: Vec<usize> = Vec::new();
        let mut seen: u64 = 0;
        let mut i: usize = 0;
        assert(crate::ranking::as_ints(out@) =~= Seq::<int>::empty());
        assert(ids.take(0) =~= Seq::<Seq<char>>::empty());
        while i < trace_ids.len()
            invariant
                i <= trace_ids@.len(),
                ids == texts(trace_ids@),
                memory == self.memory(),
                *self == *old(self),
                seen <= i,
                seen == distinct_count(ids.take(i as int)),
                crate::ranking::as_ints(out@) == candidates(ids, i as nat, memory, rule@, sample),
            decreases trace_ids@.len() - i,
        {
            let mut first: bool = true;
            let mut j: usize = 0;
            while j < i
                invariant
                    j <= i < trace_ids@.len(),
                    ids == texts(trace_ids@),
                    first == (forall|k: int| 0 <= k < j ==> #[trigger] ids[k] != ids[i as int]),
                decreases i - j,
            {
                assert(ids[j as int] == trace_ids@[j as int]@);
                assert(ids[i as int] == trace_ids@[i as int]@);
                if same(trace_ids[j].as_str(), trace_ids[i].as_str()) {
                    first = false;
                }
                j = j + 1;
            }
            assert(first == is_first(ids, i as int));
            proof {
                let t = ids.take(i as int + 1);
                assert(t.drop_last() =~= ids.take(i as int));
                assert(is_first(t, i as int) == is_first(ids, i as int)) by {
                    assert(forall|k: int| 0 <= k <= i ==> #[trigger] t[k] == ids[k]);
                    if is_first(t, i as int) {
                        assert forall|k: int| 0 <= k < i implies #[trigger] ids[k] != ids[
                            i as int] by {
                            assert(t[k] != t[i as int]);
                        }
                    }
                }
            }
            assert(ids[i as int] == trace_ids@[i as int]@);
            if first {
                seen = seen + 1;
                if !self.already_scored(rule, trace_ids[i].as_str()) && is_sampled(
                    trace_ids[i].as_str(),
                    sample,
                ) {
                    let ghost before = out@;
                    out.push(i);
                    assert(crate::ranking::as_ints(out@) =~= crate::ranking::as_ints(before).push(
                        i as int,
                    ));
                }
            }
            i = i + 1;
        }
        assert(ids.take(trace_ids@.len() as int) =~= ids);
        let mut s = self.take_status(rule);
        s.traces_seen = s.traces_seen.wrapping_add(seen);
        self.put_status(rule, s);
        out
    }

    /// Note that a trace was sampled and its scores recorded.
    pub fn mark_scored(&mut self, rule: &str, trace_id: &str, scores_written: u64, now: Timestamp)
        ensures
            final(self).rules() == old(self).rules(),
            final(self).memory() == remembered(old(self).memory(), (rule@, trace_id@)),
            final(self).progress(rule@) == (StatusModel {
                traces_sampled: old(self).progress(rule@).traces_sampled.wrapping_add(1),
                scores_written: old(self).progress(rule@).scores_written.wrapping_add(
                    scores_written,
                ),
                last_run_at: Some(now@),
                ..old(self).progress(rule@)
            }),
            forall|n: Seq<char>|
                n != rule@ ==> #[trigger] final(self).progress(n) == old(self).progress(n),
            final(self).progress(rule@) == after_score(old(self).progress(rule@), scores_written, now@),
    {
        self.remember_scored(rule, trace_id);
        let mut s = self.take_status(rule);
        s.traces_sampled = s.traces_sampled.wrapping_add(1);
        s.scores_written = s.scores_written.wrapping_add(scores_written);
        s.last_run_at = Some(now);
        self.put_status(rule, s);
    }

    /// Note that scoring a trace failed. It is remembered all the same: a scorer
    /// that fails on a trace will keep failing on it, and retrying forever would
    /// starve everything else.
    pub fn mark_failed(&mut self, rule: &str, trace_id: &str, error: String, now: Timestamp)
        ensures
            final(self).rules() == old(self).rules(),
            final(self).memory() == remembered(old(self).memory(), (rule@, trace_id@)),
            final(self).progress(rule@) == (StatusModel {
                failures: old(self).progress(rule@).failures.wrapping_add(1),
                last_run_at: Some(now@),
                last_error: Some(error@),
                ..old(self).progress(rule@)
            }),
            forall|n: Seq<char>|
                n != rule@ ==> #[trigger] final(self).progress(n) == old(self).progress(n),
            final(self).progress(rule@) == after_failure(old(self).progress(rule@), error@, now@),
    {
        self.remember_scored(rule, trace_id);
        let mut s = self.take_status(rule);
        s.failures = s.failures.wrapping_add(1);
        s.last_run_at = Some(now);
        s.last_error = Some(error);
        self.put_status(rule, s);
    }
}

// ── Scorers ─────────────────────────────────────────────────────────

/// What a scorer finds in its environment for a trace, the same as in an
/// offline run.
pub fn scorer_env(
    rule: &str,
    trace_id: &str,
    span_id: &str,
    service: &str,
    operation: &str,
) -> (r: Vec<(String, String)>)
    ensures
        text_pairs(r@) == seq![
            ("TAEL_EVAL_RULE"@, rule@),
            ("TAEL_EVAL_TRACE_ID"@, trace_id@),
            ("TAEL_EVAL_SPAN_ID"@, span_id@),
            ("TAEL_EVAL_SERVICE"@, service@),
            ("TAEL_EVAL_OPERATION"@, operation@),
            ("TAEL_EVAL_CASE_ID"@, trace_id@),
            ("TAEL_EVAL_ONLINE"@, "1"@),
        ],
        text_pairs(r@) == told_to_the_scorer(rule@, trace_id@, span_id@, service@, operation@),
{
    let r: Vec<(String, String)> = vec![
        ("TAEL_EVAL_RULE".to_owned(), rule.to_owned()),
        ("TAEL_EVAL_TRACE_ID".to_owned(), trace_id.to_owned()),
        ("TAEL_EVAL_SPAN_ID".to_owned(), span_id.to_owned()),
        ("TAEL_EVAL_SERVICE".to_owned(), service.to_owned()),
        ("TAEL_EVAL_OPERATION".to_owned(), operation.to_owned()),
        ("TAEL_EVAL_CASE_ID".to_owned(), trace_id.to_owned()),
        ("TAEL_EVAL_ONLINE".to_owned(), "1".to_owned()),
    ];
    assert(text_pairs(r@) =~= seq![
        ("TAEL_EVAL_RULE"@, rule@),
        ("TAEL_EVAL_TRACE_ID"@, trace_id@),
        ("TAEL_EVAL_SPAN_ID"@, span_id@),
        ("TAEL_EVAL_SERVICE"@, service@),
        ("TAEL_EVAL_OPERATION"@, operation@),
        ("TAEL_EVAL_CASE_ID"@, trace_id@),
        ("TAEL_EVAL_ONLINE"@, "1"@),
    ]);
    r
}

/// One score that a scorer gave; its value the bits of a double.
#[derive(Debug)]
pub struct ScoreLine {
    pub metric: String,
    pub value: u64,
    pub rationale: Option<String>,
}

/// The lines that say something, trimmed, each with its number.
pub open spec fn said_lines(lines: Seq<Seq<char>>) -> Seq<(int, Seq<char>)>
    decreases lines.len(),
{
    if lines.len() == 0 {
        Seq::empty()
    } else {
        let before = said_lines(lines.drop_last());
        if trimmed(lines.last()).len() == 0 {
            before
        } else {
            before.push((lines.len() as int, trimmed(lines.last())))
        }
    }
}

pub open spec fn line_views(v: Seq<(usize, String)>) -> Seq<(int, Seq<char>)> {
    v.map_values(|l: (usize, String)| (l.0 as int, l.1@))
}

/// The lines of a scorer's output that are to be read as scores, each with its
/// number, counted from one.
pub fn score_lines(stdout: &str) -> (r: Vec<(usize, String)>)
    ensures
        line_views(r@) == said_lines(split_on(stdout@, '\n')),
{
    let lines = split(stdout, '\n');
    let ghost all = texts(lines@);
    let n: usize = lines.len();
    let mut out: Vec<(usize, String)> = Vec::new();
    let mut i: usize = 0;
    assert(all.take(0) =~= Seq::<Seq<char>>::empty());
    assert(line_views(out@) =~= Seq::<(int, Seq<char>)>::empty());
    while i < n
        invariant
            i <= n,
            n == lines@.len(),
            all == texts(lines@),
            line_views(out@) == said_lines(all.take(i as int)),
        decreases n - i,
    {
        assert(all[i as int] == lines@[i as int]@);
        assert(all.take(i as int + 1).drop_last() =~= all.take(i as int));
        assert(all.take(i as int + 1).last() == all[i as int]);
        let line = trim(lines[i].as_str());
        if !line.as_str().is_empty() {
            let ghost before = out@;
            out.push((i + 1, line));
            assert(line_views(out@) =~= line_views(before).push((i as int + 1, line@)));
        }
        i = i + 1;
    }
    assert(all.take(n as int) =~= all);
    out
}

/// What is said of a scorer that failed. One that was killed has no exit code.
pub fn scorer_failure(code: Option<i32>, stderr: &str) -> (r: String)
    ensures
        r@ == "scorer exited "@ + signed_decimal(
            match code {
                Some(c) => c as int,
                None => -1,
            },
        ) + ": "@ + trimmed(stderr@),
{
    let c: i64 = match code {
        Some(c) => c as i64,
        None => -1,
    };
    let mut m = "scorer exited ".to_owned();
    m.append(decimal_i64(c).as_str());
    m.append(": ");
    m.append(trim(stderr).as_str());
    m
}

// ── Laws ────────────────────────────────────────────────────────────

/// A rate of one samples every trace.
pub proof fn a_full_rate_samples_everything(trace_id: Seq<char>)
    ensures
        in_sample(trace_id, 0x3ff0_0000_0000_0000),
{
}

/// A rate of zero samples nothing.
pub proof fn an_empty_rate_samples_nothing(trace_id: Seq<char>)
    ensures
        !in_sample(trace_id, 0),
{
    let n = sample_number(trace_id);
    if n > 0 {
        positive_magnitude(n);
    }
}

/// Raising a rate drops no trace from the sample.
pub proof fn raising_a_rate_drops_nothing(trace_id: Seq<char>, low: u64, high: u64)
    requires
        !is_nan_bits(low),
        !is_nan_bits(high),
        order_of(low) <= order_of(high),
        in_sample(trace_id, low),
    ensures
        in_sample(trace_id, high),
{
}

/// A trace that a rule scored, or failed to score, is no candidate of that rule
/// until it is forgotten; for another rule nothing changes.
pub proof fn scored_traces_are_not_rescored(
    ids: Seq<Seq<char>>,
    n: nat,
    scored: Seq<(Seq<char>, Seq<char>)>,
    rule: Seq<char>,
    rate: u64,
    k: int,
)
    requires
        n <= ids.len(),
        0 <= k < candidates(ids, n, scored, rule, rate).len(),
    ensures
        0 <= candidates(ids, n, scored, rule, rate)[k] < n,
        !scored.contains((rule, ids[candidates(ids, n, scored, rule, rate)[k]])),
        in_sample(ids[candidates(ids, n, scored, rule, rate)[k]], rate),
        is_first(ids, candidates(ids, n, scored, rule, rate)[k]),
    decreases n,
{
    let before = candidates(ids, (n - 1) as nat, scored, rule, rate);
    if k < before.len() {
        scored_traces_are_not_rescored(ids, (n - 1) as nat, scored, rule, rate, k);
    }
}

/// Two rules score the same trace independently: what one rule scored does not
/// matter to another.
pub proof fn rules_score_independently(
    ids: Seq<Seq<char>>,
    n: nat,
    scored: Seq<(Seq<char>, Seq<char>)>,
    rule: Seq<char>,
    rate: u64,
    other: Seq<char>,
    trace_id: Seq<char>,
)
    requires
        other != rule,
    ensures
        candidates(ids, n, scored.push((other, trace_id)), rule, rate) == candidates(
            ids,
            n,
            scored,
            rule,
            rate,
        ),
    decreases n,
{
    if n > 0 {
        rules_score_independently(ids, (n - 1) as nat, scored, rule, rate, other, trace_id);
        let more = scored.push((other, trace_id));
        let wanted = (rule, ids[n - 1]);
        if scored.contains(wanted) {
            let i = choose|i: int| 0 <= i < scored.len() && scored[i] == wanted;
            assert(more[i] == wanted);
        }
        if more.contains(wanted) {
            let i = choose|i: int| 0 <= i < more.len() && more[i] == wanted;
            assert(scored[i] == wanted);
        }
    }
}

/// What was just scored is remembered.
pub proof fn the_newest_is_remembered(
    scored: Seq<(Seq<char>, Seq<char>)>,
    entry: (Seq<char>, Seq<char>),
)
    ensures
        remembered(scored, entry).contains(entry),
        remembered(scored, entry).len() <= scored.len() + 1,
        scored.len() <= SCORED_MEMORY ==> remembered(scored, entry).len() <= SCORED_MEMORY,
{
    let after = remembered(scored, entry);
    assert(after[after.len() - 1] == entry);
}

/// A selector reads as it is written: what stands behind `=` is what the field of
/// that name must be, and the others stay.
pub proof fn selectors_read_as_written(m: MatcherModel, v: Seq<char>, k: Seq<char>)
    requires
        k.len() > 0,
        !k.contains('='),
        trimmed("attribute:"@ + k) == "attribute:"@ + k,
    ensures
        selected(m, "service="@ + v) == Ok::<MatcherModel, MatchFault>(
            MatcherModel { service: Some(v), ..m },
        ),
        selected(m, "operation="@ + v) == Ok::<MatcherModel, MatchFault>(
            MatcherModel { operation: Some(v), ..m },
        ),
        selected(m, "status="@ + v) == Ok::<MatcherModel, MatchFault>(
            MatcherModel { status: Some(v), ..m },
        ),
        is_float(v) ==> selected(m, "min_duration_ms="@ + v) == Ok::<MatcherModel, MatchFault>(
            MatcherModel { min_duration_ms: Some(v), ..m },
        ),
        !is_float(v) ==> selected(m, "min_duration_ms="@ + v) == Err::<MatcherModel, MatchFault>(
            MatchFault::BadNumber(v),
        ),
        selected(m, "attribute:"@ + k + seq!['='] + v) == Ok::<MatcherModel, MatchFault>(
            MatcherModel { attributes: m.attributes.push((k, v)), ..m },
        ),
        !v.contains('=') ==> selected(m, v) == Err::<MatcherModel, MatchFault>(
            MatchFault::NotAPair(v),
        ),
{
    reveal_strlit("service");
    reveal_strlit("service=");
    reveal_strlit("operation");
    reveal_strlit("operation=");
    reveal_strlit("status");
    reveal_strlit("status=");
    reveal_strlit("min_duration_ms");
    reveal_strlit("min_duration_ms=");
    reveal_strlit("attribute:");
    assert("service"@.len() == 7 && "operation"@.len() == 9 && "status"@.len() == 6
        && "min_duration_ms"@.len() == 15);
    assert("service="@ =~= "service"@ + seq!['=']);
    assert("operation="@ =~= "operation"@ + seq!['=']);
    assert("status="@ =~= "status"@ + seq!['=']);
    assert("min_duration_ms="@ =~= "min_duration_ms"@ + seq!['=']);
    parted_at_equals("service"@, v);
    parted_at_equals("operation"@, v);
    parted_at_equals("status"@, v);
    parted_at_equals("min_duration_ms"@, v);
    let key = "attribute:"@ + k;
    assert forall|i: int| 0 <= i < key.len() implies #[trigger] key[i] != '=' by {
        if i >= 10 {
            assert(k.contains(k[i - 10]));
        }
    }
    parted_at_equals(key, v);
    assert(key.skip(10) =~= k);
    assert(key.subrange(0, 10) =~= "attribute:"@);
    assert(key[0] == 'a' && "service"@[0] == 's' && "operation"@[0] == 'o' && "status"@[0] == 's'
        && "min_duration_ms"@[0] == 'm');
    if !v.contains('=') {
        crate::text::the_first_place_is_found(v, 0, '=');
        let at = find_char(v, 0, '=');
        if at < v.len() {
            assert(v.contains(v[at]));
        }
    }
}

proof fn parted_at_equals(key: Seq<char>, v: Seq<char>)
    requires
        forall|i: int| 0 <= i < key.len() ==> #[trigger] key[i] != '=',
        key.len() > 0,
        !crate::text::is_whitespace(key[0]),
        !crate::text::is_whitespace(key.last()) || trimmed(key) == key,
    ensures
        find_char(key + seq!['='] + v, 0, '=') == key.len(),
        (key + seq!['='] + v).take(key.len() as int) == key,
        (key + seq!['='] + v).skip(key.len() as int + 1) == v,
        trimmed(key) == key,
{
    let s = key + seq!['='] + v;
    crate::text::the_first_place_is_found(s, 0, '=');
    let at = find_char(s, 0, '=');
    if at < key.len() {
        assert(s[at] == key[at]);
    } else if at > key.len() {
        assert(s[key.len() as int] == '=');
    }
    assert(s.take(key.len() as int) =~= key);
    assert(s.skip(key.len() as int + 1) =~= v);
}

/// A trace is a candidate exactly when it is the first of its id, was not scored
/// by the rule, and falls into the sample; candidates keep their order.
pub proof fn candidates_are_all_there_are(
    ids: Seq<Seq<char>>,
    n: nat,
    scored: Seq<(Seq<char>, Seq<char>)>,
    rule: Seq<char>,
    rate: u64,
    i: int,
)
    requires
        n <= ids.len(),
    ensures
        candidates(ids, n, scored, rule, rate).contains(i) <==> 0 <= i < n && (forall|j: int|
            0 <= j < i ==> #[trigger] ids[j] != ids[i]) && !scored.contains((rule, ids[i]))
            && in_sample(ids[i], rate),
        forall|a: int, b: int|
            0 <= a < b < candidates(ids, n, scored, rule, rate).len() ==> #[trigger] candidates(
                ids,
                n,
                scored,
                rule,
                rate,
            )[a] < #[trigger] candidates(ids, n, scored, rule, rate)[b] < n,
        forall|a: int|
            0 <= a < candidates(ids, n, scored, rule, rate).len() ==> #[trigger] candidates(
                ids,
                n,
                scored,
                rule,
                rate,
            )[a] < n,
    decreases n,
{
    if n > 0 {
        let m = (n - 1) as nat;
        candidates_are_all_there_are(ids, m, scored, rule, rate, i);
        let before = candidates(ids, m, scored, rule, rate);
        let all = candidates(ids, n, scored, rule, rate);
        if before.contains(i) {
            let k = choose|k: int| 0 <= k < before.len() && before[k] == i;
            assert(all[k] == i);
        }
        if all.contains(i) {
            let k = choose|k: int| 0 <= k < all.len() && all[k] == i;
            if k < before.len() {
                assert(before[k] == i);
            }
        }
        if i == m && is_first(ids, i) && !scored.contains((rule, ids[i])) && in_sample(
            ids[i],
            rate,
        ) {
            assert(all[before.len() as int] == i);
        }
    }
}

/// One more id is one more to count exactly when it was not there.
pub proof fn repeated_ids_count_once(ids: Seq<Seq<char>>, id: Seq<char>)
    ensures
        distinct_count(Seq::empty()) == 0,
        distinct_count(ids.push(id)) == distinct_count(ids) + if ids.contains(id) {
            0nat
        } else {
            1nat
        },
{
    let more = ids.push(id);
    assert(more.drop_last() =~= ids);
    if ids.contains(id) {
        let k = choose|k: int| 0 <= k < ids.len() && ids[k] == id;
        assert(more[k] == more[more.len() - 1]);
        assert(!is_first(more, more.len() - 1));
    } else {
        assert forall|j: int| 0 <= j < more.len() - 1 implies #[trigger] more[j] != more[more.len()
            - 1] by {
            assert(ids.contains(ids[j]));
        }
    }
}

/// A rate lies between nothing and all, both of them allowed.
pub proof fn rates_lie_between_zero_and_one(bits: u64)
    ensures
        is_rate(bits) <==> !is_nan_bits(bits) && crate::doubles::is_at_least(bits, 0)
            && crate::doubles::is_at_least(0x3ff0_0000_0000_0000, bits),
{
}

/// What a scorer said is its lines that are not blank, each trimmed and under its
/// number, counted from one.
pub proof fn what_was_said_keeps_its_line(lines: Seq<Seq<char>>, i: int, k: int)
    ensures
        0 <= i < lines.len() && trimmed(lines[i]).len() > 0 ==> said_lines(lines).contains(
            (i + 1, trimmed(lines[i])),
        ),
        0 <= k < said_lines(lines).len() ==> 1 <= said_lines(lines)[k].0 <= lines.len()
            && said_lines(lines)[k].1 == trimmed(lines[said_lines(lines)[k].0 - 1]) && said_lines(
            lines,
        )[k].1.len() > 0,
        0 < k < said_lines(lines).len() ==> said_lines(lines)[k - 1].0 < said_lines(lines)[k].0,
    decreases lines.len(),
{
    if lines.len() > 0 {
        let init = lines.drop_last();
        let (before, all) = (said_lines(init), said_lines(lines));
        what_was_said_keeps_its_line(init, i, k);
        what_was_said_keeps_its_line(init, i, before.len() - 1);
        if 0 <= i < init.len() && trimmed(lines[i]).len() > 0 {
            assert(init[i] == lines[i]);
            let n = choose|n: int| 0 <= n < before.len() && before[n] == (i + 1, trimmed(init[i]));
            assert(all[n] == before[n]);
        } else if i == init.len() && trimmed(lines[i]).len() > 0 {
            assert(all[before.len() as int] == (i + 1, trimmed(lines[i])));
        }
    }
}

/// Where a rule stands once a trace was scored.
pub open spec fn after_score(s: StatusModel, scores: u64, now: Instant) -> StatusModel {
    StatusModel {
        traces_sampled: s.traces_sampled.wrapping_add(1),
        scores_written: s.scores_written.wrapping_add(scores),
        last_run_at: Some(now),
        ..s
    }
}

/// Where a rule stands once its scorer failed on a trace.
pub open spec fn after_failure(s: StatusModel, error: Seq<char>, now: Instant) -> StatusModel {
    StatusModel {
        failures: s.failures.wrapping_add(1),
        last_run_at: Some(now),
        last_error: Some(error),
        ..s
    }
}

/// Where a rule stands once it has seen a number of traces.
pub open spec fn after_sight(s: StatusModel, traces: u64) -> StatusModel {
    StatusModel { traces_seen: s.traces_seen.wrapping_add(traces), ..s }
}

/// Each count of a rule counts what it is named for: traces seen, traces scored,
/// scores written, failures; and the last run and the last error are remembered.
pub proof fn rules_count_what_happened(
    s: StatusModel,
    scores: u64,
    traces: u64,
    error: Seq<char>,
    now: Instant,
)
    requires
        s.traces_sampled < u64::MAX,
        s.scores_written + scores <= u64::MAX,
        s.failures < u64::MAX,
        s.traces_seen + traces <= u64::MAX,
    ensures
        ({
            let a = after_score(s, scores, now);
            &&& a.traces_sampled == s.traces_sampled + 1 && a.scores_written == s.scores_written
                + scores && a.last_run_at == Some(now)
            &&& a.traces_seen == s.traces_seen && a.failures == s.failures && a.last_error
                == s.last_error
        }),
        ({
            let f = after_failure(s, error, now);
            &&& f.failures == s.failures + 1 && f.last_error == Some(error) && f.last_run_at
                == Some(now)
            &&& f.traces_seen == s.traces_seen && f.traces_sampled == s.traces_sampled
                && f.scores_written == s.scores_written
        }),
        ({
            let v = after_sight(s, traces);
            &&& v.traces_seen == s.traces_seen + traces
            &&& v.traces_sampled == s.traces_sampled && v.scores_written == s.scores_written
                && v.failures == s.failures && v.last_run_at == s.last_run_at && v.last_error
                == s.last_error
        }),
{
}

/// What a scorer is told of the trace that it is to score.
pub open spec fn told_to_the_scorer(
    rule: Seq<char>,
    trace_id: Seq<char>,
    span_id: Seq<char>,
    service: Seq<char>,
    operation: Seq<char>,
) -> Seq<(Seq<char>, Seq<char>)> {
    seq![
        ("TAEL_EVAL_RULE"@, rule),
        ("TAEL_EVAL_TRACE_ID"@, trace_id),
        ("TAEL_EVAL_SPAN_ID"@, span_id),
        ("TAEL_EVAL_SERVICE"@, service),
        ("TAEL_EVAL_OPERATION"@, operation),
        ("TAEL_EVAL_CASE_ID"@, trace_id),
        ("TAEL_EVAL_ONLINE"@, "1"@),
    ]
}

/// Each thing that a scorer is told stands under its name, and nothing else does.
pub proof fn scorers_are_told_by_name(
    rule: Seq<char>,
    trace_id: Seq<char>,
    span_id: Seq<char>,
    service: Seq<char>,
    operation: Seq<char>,
)
    ensures
        ({
            let told = told_to_the_scorer(rule, trace_id, span_id, service, operation);
            &&& told.contains(("TAEL_EVAL_RULE"@, rule))
            &&& told.contains(("TAEL_EVAL_TRACE_ID"@, trace_id))
            &&& told.contains(("TAEL_EVAL_SPAN_ID"@, span_id))
            &&& told.contains(("TAEL_EVAL_SERVICE"@, service))
            &&& told.contains(("TAEL_EVAL_OPERATION"@, operation))
            &&& told.contains(("TAEL_EVAL_CASE_ID"@, trace_id))
            &&& told.len() == 7
        }),
{
    let told = told_to_the_scorer(rule, trace_id, span_id, service, operation);
    assert(told[0] == ("TAEL_EVAL_RULE"@, rule));
    assert(told[1] == ("TAEL_EVAL_TRACE_ID"@, trace_id));
    assert(told[2] == ("TAEL_EVAL_SPAN_ID"@, span_id));
    assert(told[3] == ("TAEL_EVAL_SERVICE"@, service));
    assert(told[4] == ("TAEL_EVAL_OPERATION"@, operation));
    assert(told[5] == ("TAEL_EVAL_CASE_ID"@, trace_id));
}

/// Whether a query asks for the traces that a matcher matches.
pub open spec fn asks_for_matches(q: TraceQuery, m: MatcherModel, last_seconds: i64, limit: u32) -> bool {
    &&& opt_text(q.service) == m.service && opt_text(q.operation) == m.operation && opt_text(
        q.status,
    ) == m.status && opt_text(q.min_duration_ms) == m.min_duration_ms
    &&& text_pairs(q.attributes@) == m.attributes
    &&& q.last_seconds == Some(last_seconds) && q.limit == Some(limit)
    &&& q.max_duration_ms is None && q.text is None && q.tenant is None
}

/// What a selector says is what is asked for, from its text to the query.
pub proof fn selectors_are_asked_for(
    q: TraceQuery,
    m: MatcherModel,
    v: Seq<char>,
    last_seconds: i64,
    limit: u32,
)
    ensures
        (selected(m, "service="@ + v) matches Ok(n) && asks_for_matches(q, n, last_seconds, limit))
            ==> (q.service matches Some(t) && t@ == v),
        (selected(m, "operation="@ + v) matches Ok(n) && asks_for_matches(q, n, last_seconds, limit))
            ==> (q.operation matches Some(t) && t@ == v),
        (selected(m, "status="@ + v) matches Ok(n) && asks_for_matches(q, n, last_seconds, limit))
            ==> (q.status matches Some(t) && t@ == v),
        (selected(m, "min_duration_ms="@ + v) matches Ok(n) && asks_for_matches(
            q,
            n,
            last_seconds,
            limit,
        )) ==> (q.min_duration_ms matches Some(t) && t@ == v),
        asks_for_matches(q, m, last_seconds, limit) ==> q.limit == Some(limit) && q.last_seconds
            == Some(last_seconds) && q.max_duration_ms is None,
{
    let k = seq!['k'];
    reveal_strlit("attribute:");
    assert forall|i: int| 0 <= i < k.len() implies k[i] != '=' by {}
    let key = "attribute:"@ + k;
    assert(key[0] == 'a' && key.last() == 'k');
    assert(trimmed(key) == key);
    selectors_read_as_written(m, v, k);
}

/// Of the bytes of a number the first counts most: where two differ first, the
/// greater byte makes the greater number.
pub proof fn the_first_byte_counts_most(a: Seq<u8>, b: Seq<u8>, k: nat, n: nat)
    requires
        k < n,
        forall|i: int| 0 <= i < k ==> a[i] == b[i],
        a[k as int] < b[k as int],
    ensures
        big_endian(a, n) < big_endian(b, n),
    decreases n,
{
    if k == n - 1 {
        same_number(a, b, k);
    } else {
        the_first_byte_counts_most(a, b, k, (n - 1) as nat);
    }
}

proof fn same_number(a: Seq<u8>, b: Seq<u8>, n: nat)
    requires
        forall|i: int| 0 <= i < n ==> a[i] == b[i],
    ensures
        big_endian(a, n) == big_endian(b, n),
    decreases n,
{
    if n > 0 {
        same_number(a, b, (n - 1) as nat);
    }
}

/// What was scored is remembered until there is no room, and then the oldest goes
/// first.
pub proof fn the_oldest_is_forgotten_first(
    scored: Seq<(Seq<char>, Seq<char>)>,
    entry: (Seq<char>, Seq<char>),
    i: int,
)
    requires
        0 <= i < scored.len(),
    ensures
        scored.len() < 10000 ==> remembered(scored, entry).contains(scored[i]),
        i > 0 ==> remembered(scored, entry).contains(scored[i]),
        scored.len() >= 10000 ==> remembered(scored, entry).len() == scored.len(),
        remembered(scored, entry).last() == entry,
{
    let r = remembered(scored, entry);
    if scored.len() < 10000 {
        assert(r[i] == scored[i]);
    } else if i > 0 {
        assert(r[i - 1] == scored[i]);
    }
}

} // verus!
