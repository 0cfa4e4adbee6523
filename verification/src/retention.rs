//! Retention and compaction policy.
//!
//! Each signal has a clock of its own. Precedence, highest first: environment
//! variable, config file, built-in default.

use crate::config::{joined_path, join_path, var, Env};
use crate::labels::Labels;
use crate::text::{chars, decimal, decimal_i64, digits_value, find, is_digit, parse_i64, parse_unsigned, same, signed_decimal, signed_literal, text, trim, trimmed, unsigned_literal};
use crate::time::{earlier, elapsed, seconds_before, Instant, Timestamp};
use vstd::prelude::*;

verus! {

/// The built-in retention window, in days, for every signal: a year.
pub const DEFAULT_RETENTION_DAYS: i64 = 365;

/// A policy that puts each signal on the clock that matches how it is used, as
/// a config file.
pub const RECOMMENDED_CONFIG: &'static str = r#"# tael configuration.
#
# Precedence, highest first: command-line flag, environment variable, this
# file, built-in default. Durations accept h, d, or w.

[storage]
# How long signals stay in the LSM hot tier before rolling into Parquet.
hot_tier_hours = 24
# How often the maintenance pass runs.
compact_interval_secs = 3600

[retention]
# Span metadata. Large and high-cardinality; a week covers most investigations.
traces = "7d"
# LLM prompt/completion payloads. These dominate storage, and an investigation
# usually needs the span long after it needs the payload — so they can expire
# well before the spans that reference them.
llm_payloads = "3d"
# Verbose but searchable.
logs = "14d"
# Raw metric points.
metrics_raw = "30d"
# 5-minute rollups. Deliberately much longer than metrics_raw: they exist so
# year-scale trends survive at a fraction of the size.
metrics_rollups = "365d"
"#;

/// How long each signal is kept, in days, and how the hot/cold split is
/// managed.
#[derive(Debug, Clone, Copy, PartialEq, Eq, Structural)]
pub struct RetentionPolicy {
    /// How long signals stay in the hot tier.
    pub hot_tier_hours: i64,
    /// How often the maintenance pass runs.
    pub compact_interval_secs: u64,
    /// Span metadata.
    pub traces: i64,
    /// LLM prompt/completion payload blobs, on their own clock because they
    /// dominate storage.
    pub llm_payloads: i64,
    pub logs: i64,
    /// Raw metric points.
    pub metrics_raw: i64,
    /// Metric rollups, which survive raw points.
    pub metrics_rollups: i64,
}

impl Default for RetentionPolicy {
    fn default() -> (r: Self)
        ensures
            r == default_policy(),
    {
        RetentionPolicy {
            hot_tier_hours: 24,
            compact_interval_secs: 3600,
            traces: DEFAULT_RETENTION_DAYS,
            llm_payloads: DEFAULT_RETENTION_DAYS,
            logs: DEFAULT_RETENTION_DAYS,
            metrics_raw: DEFAULT_RETENTION_DAYS,
            metrics_rollups: DEFAULT_RETENTION_DAYS,
        }
    }
}

pub open spec fn default_policy() -> RetentionPolicy {
    RetentionPolicy {
        hot_tier_hours: 24,
        compact_interval_secs: 3600,
        traces: DEFAULT_RETENTION_DAYS,
        llm_payloads: DEFAULT_RETENTION_DAYS,
        logs: DEFAULT_RETENTION_DAYS,
        metrics_raw: DEFAULT_RETENTION_DAYS,
        metrics_rollups: DEFAULT_RETENTION_DAYS,
    }
}

// ── Durations ───────────────────────────────────────────────────────

#[derive(Debug, Clone, Copy, PartialEq, Eq, Structural)]
pub enum DurationUnit {
    Hours,
    Days,
    Weeks,
}

/// A retention duration.
#[derive(Debug, Clone, PartialEq, Eq)]
pub enum Days {
    /// Whole days, halves rounded up.
    Whole(i64),
    /// A literal of so many digits that the nearest double decides how it
    /// rounds.
    Unrounded { literal: String, unit: DurationUnit },
}

#[derive(Debug, Clone)]
pub enum DurationError {
    Empty,
    Invalid { raw: String },
    UnknownUnit { unit: String, raw: String },
}

impl DurationError {
    pub fn message(&self) -> (r: String)
        ensures
            r@ == match self {
                DurationError::Empty => "empty retention duration"@,
                DurationError::Invalid { raw } => "`"@ + raw@ + "` is not a valid duration"@,
                DurationError::UnknownUnit { unit, raw } => "unknown duration unit `"@ + unit@
                    + "` in `"@ + raw@ + "` (use h, d, or w)"@,
            },
    {
        match self {
            DurationError::Empty => "empty retention duration".to_owned(),
            DurationError::Invalid { raw } => {
                let mut out = "`".to_owned();
                out.append(raw.as_str());
                out.append("` is not a valid duration");
                out
            },
            DurationError::UnknownUnit { unit, raw } => {
                let mut out = "unknown duration unit `".to_owned();
                out.append(unit.as_str());
                out.append("` in `");
                out.append(raw.as_str());
                out.append("` (use h, d, or w)");
                out
            },
        }
    }
}

/// The first position that holds neither digit nor dot.
pub open spec fn literal_end(s: Seq<char>, from: int) -> int
    decreases s.len() - from,
{
    if 0 <= from < s.len() && (is_digit(s[from]) || s[from] == '.') {
        literal_end(s, from + 1)
    } else {
        from
    }
}

/// Whether a run of digits and dots is a number: at least one digit, at most
/// one dot.
pub open spec fn is_number(t: Seq<char>) -> bool {
    let dot = crate::text::find_char(t, 0, '.');
    t.len() > 1 && dot < t.len() && crate::text::find_char(t, dot + 1, '.') == t.len() || t.len()
        > 0 && dot == t.len()
}

pub open spec fn unit_named(s: Seq<char>) -> Option<DurationUnit> {
    if s == ""@ || s == "d"@ {
        Some(DurationUnit::Days)
    } else if s == "h"@ {
        Some(DurationUnit::Hours)
    } else if s == "w"@ {
        Some(DurationUnit::Weeks)
    } else {
        None
    }
}

/// The digits of a number, without the dot.
pub open spec fn number_digits(t: Seq<char>) -> Seq<char> {
    let dot = crate::text::find_char(t, 0, '.');
    if dot < t.len() {
        t.take(dot) + t.skip(dot + 1)
    } else {
        t
    }
}

/// How many digits of a number stand behind its dot.
pub open spec fn fraction_len(t: Seq<char>) -> nat {
    let dot = crate::text::find_char(t, 0, '.');
    if dot < t.len() {
        (t.len() - dot - 1) as nat
    } else {
        0
    }
}

pub open spec fn power_of_ten(n: nat) -> nat
    decreases n,
{
    if n == 0 {
        1
    } else {
        10 * power_of_ten((n - 1) as nat)
    }
}

/// A quotient rounded to the nearest whole number, halves up.
pub open spec fn rounded(n: nat, d: nat) -> int {
    ((2 * n + d) / (2 * d)) as int
}

/// A number of a unit, in whole days.
pub open spec fn in_days(t: Seq<char>, unit: DurationUnit) -> int {
    let n = digits_value(number_digits(t));
    let d = power_of_ten(fraction_len(t));
    match unit {
        DurationUnit::Days => rounded(n, d),
        DurationUnit::Hours => rounded(n, 24 * d),
        DurationUnit::Weeks => rounded(7 * n, d),
    }
}

/// The most digits for which the days are the same whether they are computed
/// exactly or in doubles.
pub const EXACT_DIGITS: usize = 14;

/// Whether a parsed duration is what a text says.
pub open spec fn is_duration(r: Result<Days, DurationError>, raw: Seq<char>) -> bool {
    let s = trimmed(raw);
    let end = literal_end(s, 0);
    let literal = s.take(end);
    let unit = trimmed(s.skip(end));
    if s.len() == 0 {
        r matches Err(DurationError::Empty)
    } else if !is_number(literal) {
        r matches Err(DurationError::Invalid { raw: shown }) && shown@ == raw
    } else {
        match unit_named(unit) {
            None => r matches Err(DurationError::UnknownUnit { unit: u, raw: shown }) && u@ == unit
                && shown@ == raw,
            Some(named) => if number_digits(literal).len() <= EXACT_DIGITS {
                r matches Ok(Days::Whole(n)) && n == in_days(literal, named)
            } else {
                r matches Ok(Days::Unrounded { literal: l, unit: u }) && l@ == literal && u == named
            },
        }
    }
}

proof fn lemma_literal_end(s: Seq<char>, from: int)
    requires
        0 <= from <= s.len(),
    ensures
        from <= literal_end(s, from) <= s.len(),
        forall|i: int|
            from <= i < literal_end(s, from) ==> is_digit(#[trigger] s[i]) || s[i] == '.',
    decreases s.len() - from,
{
    if from < s.len() && (is_digit(s[from]) || s[from] == '.') {
        lemma_literal_end(s, from + 1);
    }
}

proof fn lemma_digits_bound(s: Seq<char>)
    requires
        crate::text::all_digits(s),
    ensures
        digits_value(s) < power_of_ten(s.len()),
    decreases s.len(),
{
    if s.len() > 0 {
        let init = s.drop_last();
        assert forall|i: int| 0 <= i < init.len() implies is_digit(#[trigger] init[i]) by {
            assert(is_digit(s[i]));
        }
        lemma_digits_bound(init);
        assert(is_digit(s[s.len() - 1]));
    }
}

proof fn lemma_power_monotonic(a: nat, b: nat)
    requires
        a <= b,
    ensures
        power_of_ten(a) <= power_of_ten(b),
        power_of_ten(a) >= 1,
    decreases b,
{
    if a < b {
        lemma_power_monotonic(a, (b - 1) as nat);
    } else if a > 0 {
        lemma_power_monotonic((a - 1) as nat, (b - 1) as nat);
    }
}

fn ten_to(n: usize) -> (r: u64)
    requires
        n <= EXACT_DIGITS,
    ensures
        r == power_of_ten(n as nat),
        1 <= r <= 100000000000000,
{
    let mut acc: u64 = 1;
    let mut i: usize = 0;
    proof {
        reveal_with_fuel(power_of_ten, 15);
        assert(power_of_ten(14) == 100000000000000);
    }
    while i < n
        invariant
            i <= n <= EXACT_DIGITS,
            acc == power_of_ten(i as nat),
            1 <= acc <= 100000000000000,
            power_of_ten(14) == 100000000000000,
        decreases n - i,
    {
        proof {
            lemma_power_monotonic((i + 1) as nat, 14);
        }
        acc = acc * 10;
        i = i + 1;
    }
    acc
}

fn divide_rounded(n: u64, d: u64) -> (r: i64)
    requires
        n <= 700000000000000,
        1 <= d <= 2400000000000000,
    ensures
        r == rounded(n as nat, d as nat),
{
    let top: u64 = 2 * n + d;
    let bottom: u64 = 2 * d;
    let q: u64 = top / bottom;
    assert(top / bottom <= top) by (nonlinear_arith)
        requires
            bottom >= 1,
    ;
    q as i64
}

/// Parse a retention duration like `7d`, `36h`, or a bare number of days.
pub fn parse_days(raw: &str) -> (r: Result<Days, DurationError>)
    ensures
        is_duration(r, raw@),
{
    let s = trim(raw);
    let v = chars(s.as_str());
    let n: usize = v.len();
    if n == 0 {
        return Err(DurationError::Empty);
    }
    let mut end: usize = 0;
    while end < n && (crate::text::char_is_digit(v[end]) || v[end] == '.')
        invariant
            end <= n == v@.len(),
            literal_end(v@, 0) == literal_end(v@, end as int),
        decreases n - end,
    {
        end = end + 1;
    }
    proof {
        lemma_literal_end(v@, 0);
    }
    let literal = text(&v, 0, end);
    assert(literal@ =~= s@.take(end as int));
    let rest = text(&v, end, n);
    assert(rest@ =~= s@.skip(end as int));
    let unit_text = trim(rest.as_str());
    let lit = chars(literal.as_str());
    let len: usize = lit.len();
    let dot: usize = find(&lit, 0, '.');
    if len == 0 {
        return Err(DurationError::Invalid { raw: raw.to_owned() });
    }
    if dot < len {
        if len == 1 {
            return Err(DurationError::Invalid { raw: raw.to_owned() });
        }
        let second: usize = find(&lit, dot + 1, '.');
        if second < len {
            return Err(DurationError::Invalid { raw: raw.to_owned() });
        }
    }
    assert(is_number(literal@));
    let unit: DurationUnit = if same(unit_text.as_str(), "") || same(unit_text.as_str(), "d") {
        DurationUnit::Days
    } else if same(unit_text.as_str(), "h") {
        DurationUnit::Hours
    } else if same(unit_text.as_str(), "w") {
        DurationUnit::Weeks
    } else {
        return Err(DurationError::UnknownUnit { unit: unit_text, raw: raw.to_owned() });
    };
    // The digits without the dot.
    let mut digits: Vec<char> = Vec::new();
    let mut i: usize = 0;
    while i < len
        invariant
            i <= len == lit@.len(),
            dot <= len,
            digits@ == if i <= dot {
                lit@.take(i as int)
            } else {
                lit@.take(dot as int) + lit@.subrange(dot as int + 1, i as int)
            },
        decreases len - i,
    {
        if i != dot {
            digits.push(lit[i]);
        }
        i = i + 1;
        assert(digits@ =~= if i <= dot {
            lit@.take(i as int)
        } else {
            lit@.take(dot as int) + lit@.subrange(dot as int + 1, i as int)
        });
    }
    assert(digits@ =~= number_digits(literal@)) by {
        if dot < len {
            assert(lit@.subrange(dot as int + 1, len as int) =~= lit@.skip(dot as int + 1));
        } else {
            assert(lit@.take(len as int) =~= lit@);
        }
    }
    if digits.len() > EXACT_DIGITS {
        return Ok(Days::Unrounded { literal, unit });
    }
    let count: usize = digits.len();
    proof {
        let t = literal@;
        assert forall|k: int| 0 <= k < digits@.len() implies is_digit(#[trigger] digits@[k]) by {
            let j = if k < dot { k } else { k + 1 };
            assert(dot < len ==> digits@[k] == t[j]);
            assert(dot == len ==> digits@[k] == t[k]);
            let at = if dot < len { j } else { k };
            assert(t[at] == v@[at]);
            assert(t[at] != '.');
        }
        lemma_digits_bound(digits@);
        lemma_power_monotonic(digits@.len(), 14);
        reveal_with_fuel(power_of_ten, 15);
        assert(power_of_ten(14) == 100000000000000);
    }
    let mut value: u64 = 0;
    let mut k: usize = 0;
    assert(digits@.take(0) =~= Seq::<char>::empty());
    while k < count
        invariant
            k <= count == digits@.len(),
            count <= EXACT_DIGITS,
            crate::text::all_digits(digits@),
            value == digits_value(digits@.take(k as int)),
            value < power_of_ten(k as nat),
            power_of_ten(14) == 100000000000000,
        decreases count - k,
    {
        let c: char = digits[k];
        assert(is_digit(digits@[k as int]));
        let d: u64 = (c as u32 - '0' as u32) as u64;
        proof {
            assert(digits@.take(k as int + 1).drop_last() =~= digits@.take(k as int));
            lemma_power_monotonic((k + 1) as nat, 14);
        }
        value = value * 10 + d;
        k = k + 1;
    }
    assert(digits@.take(count as int) =~= digits@);
    let behind: usize = if dot < len {
        len - dot - 1
    } else {
        0
    };
    assert(behind == fraction_len(literal@));
    assert(behind <= count);
    let scale: u64 = ten_to(behind);
    let days: i64 = match unit {
        DurationUnit::Days => divide_rounded(value, scale),
        DurationUnit::Hours => divide_rounded(value, 24 * scale),
        DurationUnit::Weeks => divide_rounded(7 * value, scale),
    };
    Ok(Days::Whole(days))
}

// ── Config file ─────────────────────────────────────────────────────

#[derive(Debug)]
pub struct ConfigFile {
    pub storage: Option<StorageSection>,
    pub retention: Option<RetentionSection>,
}

#[derive(Debug, Clone, Copy, PartialEq, Eq, Structural)]
pub struct StorageSection {
    pub hot_tier_hours: Option<i64>,
    pub compact_interval_secs: Option<u64>,
}

/// Durations of a config file, as they are written there.
#[derive(Debug)]
pub struct RetentionSection {
    pub traces: Option<String>,
    pub llm_payloads: Option<String>,
    pub logs: Option<String>,
    pub metrics_raw: Option<String>,
    pub metrics_rollups: Option<String>,
}

/// The days of durations whose literals are too long to be read exactly, as the
/// caller rounds them. What stands beside a shorter one is of no account.
#[derive(Debug, Clone, Copy, PartialEq, Eq, Structural)]
pub struct RoundedDays {
    pub traces: i64,
    pub llm_payloads: i64,
    pub logs: i64,
    pub metrics_raw: i64,
    pub metrics_rollups: i64,
}

/// Whether a text is no duration.
pub open spec fn is_malformed(raw: Seq<char>) -> bool {
    let s = trimmed(raw);
    let end = literal_end(s, 0);
    s.len() == 0 || !is_number(s.take(end)) || unit_named(trimmed(s.skip(end))) is None
}

/// The days that a duration stands for, given what a long literal rounds to.
pub open spec fn days_in(raw: Seq<char>, rounded: i64) -> int {
    let s = trimmed(raw);
    let end = literal_end(s, 0);
    if number_digits(s.take(end)).len() <= EXACT_DIGITS {
        in_days(s.take(end), unit_named(trimmed(s.skip(end)))->0)
    } else {
        rounded as int
    }
}

/// The durations of a section, in order.
pub open spec fn durations(r: RetentionSection) -> Seq<Option<String>> {
    seq![r.traces, r.llm_payloads, r.logs, r.metrics_raw, r.metrics_rollups]
}

/// The place of the first text that is no duration, or the length.
pub open spec fn first_malformed(texts: Seq<Option<String>>, from: int) -> int
    decreases texts.len() - from,
{
    if from < 0 || from >= texts.len() {
        texts.len() as int
    } else if texts[from] matches Some(raw) && is_malformed(raw@) {
        from
    } else {
        first_malformed(texts, from + 1)
    }
}

/// Whether a file is refused for its first text that is no duration.
pub open spec fn file_refused(file: ConfigFile, e: DurationError) -> bool {
    &&& !is_well_formed(file)
    &&& file.retention matches Some(r) && {
        let texts = durations(r);
        texts[first_malformed(texts, 0)] matches Some(raw) && is_duration(
            Err::<Days, DurationError>(e),
            raw@,
        )
    }
}

/// Whether every duration of a file is one.
pub open spec fn is_well_formed(file: ConfigFile) -> bool {
    file.retention matches Some(r) ==> first_malformed(durations(r), 0) == 5
}

pub open spec fn or_i64(new: Option<i64>, old_value: i64) -> i64 {
    match new {
        Some(v) => v,
        None => old_value,
    }
}

pub open spec fn or_u64(new: Option<u64>, old_value: u64) -> u64 {
    match new {
        Some(v) => v,
        None => old_value,
    }
}

pub open spec fn or_days(new: Option<String>, rounded: i64, old_value: i64) -> i64 {
    match new {
        Some(raw) => days_in(raw@, rounded) as i64,
        None => old_value,
    }
}

/// A policy with the storage settings of a file and its first `n` durations in
/// place of its own.
pub open spec fn with_durations(
    p: RetentionPolicy,
    file: ConfigFile,
    rounded: RoundedDays,
    n: int,
) -> RetentionPolicy {
    let q = match file.storage {
        Some(s) => RetentionPolicy {
            hot_tier_hours: or_i64(s.hot_tier_hours, p.hot_tier_hours),
            compact_interval_secs: or_u64(s.compact_interval_secs, p.compact_interval_secs),
            ..p
        },
        None => p,
    };
    match file.retention {
        Some(r) => RetentionPolicy {
            traces: if n > 0 {
                or_days(r.traces, rounded.traces, q.traces)
            } else {
                q.traces
            },
            llm_payloads: if n > 1 {
                or_days(r.llm_payloads, rounded.llm_payloads, q.llm_payloads)
            } else {
                q.llm_payloads
            },
            logs: if n > 2 {
                or_days(r.logs, rounded.logs, q.logs)
            } else {
                q.logs
            },
            metrics_raw: if n > 3 {
                or_days(r.metrics_raw, rounded.metrics_raw, q.metrics_raw)
            } else {
                q.metrics_raw
            },
            metrics_rollups: if n > 4 {
                or_days(r.metrics_rollups, rounded.metrics_rollups, q.metrics_rollups)
            } else {
                q.metrics_rollups
            },
            ..q
        },
        None => q,
    }
}

/// A policy with the settings of a file in place of its own.
pub open spec fn with_file(
    p: RetentionPolicy,
    file: ConfigFile,
    rounded: RoundedDays,
) -> RetentionPolicy {
    with_durations(p, file, rounded, 5)
}

// ── Environment ─────────────────────────────────────────────────────

/// A variable that is no number where one is needed.
#[derive(Debug, Clone)]
pub struct NumberError {
    pub name: String,
    pub value: String,
    pub unsigned: bool,
}

impl NumberError {
    pub fn message(&self) -> (r: String)
        ensures
            r@ == self.name@ + (if self.unsigned {
                " must be a positive integer, got `"@
            } else {
                " must be an integer, got `"@
            }) + self.value@ + "`"@,
    {
        let mut out = self.name.clone();
        if self.unsigned {
            out.append(" must be a positive integer, got `");
        } else {
            out.append(" must be an integer, got `");
        }
        out.append(self.value.as_str());
        out.append("`");
        out
    }
}

/// The integer in a variable; nothing where it is unset or blank.
pub open spec fn env_int(env: Env, name: Seq<char>) -> Result<Option<i64>, Seq<char>> {
    match var(env, name) {
        Some(v) => if trimmed(v).len() == 0 {
            Ok(None)
        } else {
            match signed_literal(trimmed(v)) {
                Some(n) => if i64::MIN <= n <= i64::MAX {
                    Ok(Some(n as i64))
                } else {
                    Err(v)
                },
                None => Err(v),
            }
        },
        None => Ok(None),
    }
}

/// The unsigned integer in a variable; nothing where it is unset or blank.
pub open spec fn env_uint(env: Env, name: Seq<char>) -> Result<Option<u64>, Seq<char>> {
    match var(env, name) {
        Some(v) => if trimmed(v).len() == 0 {
            Ok(None)
        } else {
            match unsigned_literal(trimmed(v)) {
                Some(n) => if n <= u64::MAX {
                    Ok(Some(n as u64))
                } else {
                    Err(v)
                },
                None => Err(v),
            }
        },
        None => Ok(None),
    }
}

fn env_i64(env: &Labels, name: &str) -> (r: Result<Option<i64>, NumberError>)
    ensures
        match r {
            Ok(v) => env_int(env@, name@) == Ok::<Option<i64>, Seq<char>>(v),
            Err(e) => env_int(env@, name@) == Err::<Option<i64>, Seq<char>>(e.value@) && e.name@
                == name@ && !e.unsigned,
        },
{
    match env.get(name) {
        Some(v) => {
            let t = trim(v.as_str());
            if t.as_str().is_empty() {
                return Ok(None);
            }
            match parse_i64(t.as_str()) {
                Some(n) => Ok(Some(n)),
                None => Err(
                    NumberError { name: name.to_owned(), value: v.clone(), unsigned: false },
                ),
            }
        },
        None => Ok(None),
    }
}

fn env_u64(env: &Labels, name: &str) -> (r: Result<Option<u64>, NumberError>)
    ensures
        match r {
            Ok(v) => env_uint(env@, name@) == Ok::<Option<u64>, Seq<char>>(v),
            Err(e) => env_uint(env@, name@) == Err::<Option<u64>, Seq<char>>(e.value@) && e.name@
                == name@ && e.unsigned,
        },
{
    match env.get(name) {
        Some(v) => {
            let t = trim(v.as_str());
            if t.as_str().is_empty() {
                return Ok(None);
            }
            match parse_unsigned(t.as_str(), 0xffff_ffff_ffff_ffff) {
                Some(n) => Ok(Some(n)),
                None => Err(NumberError { name: name.to_owned(), value: v.clone(), unsigned: true }),
            }
        },
        None => Ok(None),
    }
}

/// Whether every setting of an environment that must be a number is one.
pub open spec fn env_numbers_valid(env: Env) -> bool {
    &&& env_int(env, "TAEL_HOT_TIER_HOURS"@) is Ok
    &&& env_uint(env, "TAEL_COMPACT_INTERVAL_SECS"@) is Ok
    &&& env_int(env, "TAEL_TRACE_RETENTION_DAYS"@) is Ok
    &&& env_int(env, "TAEL_LLM_PAYLOAD_RETENTION_DAYS"@) is Ok
    &&& env_int(env, "TAEL_LOG_RETENTION_DAYS"@) is Ok
    &&& env_int(env, "TAEL_METRIC_RETENTION_DAYS"@) is Ok
    &&& env_int(env, "TAEL_METRIC_ROLLUP_RETENTION_DAYS"@) is Ok
}

/// The variables that must be numbers, in the order in which they are read.
pub open spec fn setting(i: int) -> Seq<char> {
    if i == 0 {
        "TAEL_HOT_TIER_HOURS"@
    } else if i == 1 {
        "TAEL_COMPACT_INTERVAL_SECS"@
    } else if i == 2 {
        "TAEL_TRACE_RETENTION_DAYS"@
    } else if i == 3 {
        "TAEL_LLM_PAYLOAD_RETENTION_DAYS"@
    } else if i == 4 {
        "TAEL_LOG_RETENTION_DAYS"@
    } else if i == 5 {
        "TAEL_METRIC_RETENTION_DAYS"@
    } else {
        "TAEL_METRIC_ROLLUP_RETENTION_DAYS"@
    }
}

/// Whether a setting is no number. Only the interval must be unsigned.
pub open spec fn is_no_number(env: Env, i: int) -> bool {
    if i == 1 {
        env_uint(env, setting(i)) is Err
    } else {
        env_int(env, setting(i)) is Err
    }
}

/// The first setting, from one on, that is no number, or their count.
pub open spec fn first_no_number(env: Env, from: int) -> int
    decreases 7 - from,
{
    if from >= 7 {
        7
    } else if is_no_number(env, from) {
        from
    } else {
        first_no_number(env, from + 1)
    }
}

/// Whether an environment is refused for its first setting that is no number.
pub open spec fn number_refused(env: Env, e: NumberError) -> bool {
    let i = first_no_number(env, 0);
    &&& !env_numbers_valid(env)
    &&& i < 7
    &&& e.name@ == setting(i)
    &&& e.unsigned == (i == 1)
    &&& if e.unsigned {
        env_uint(env, e.name@) == Err::<Option<u64>, Seq<char>>(e.value@)
    } else {
        env_int(env, e.name@) == Err::<Option<i64>, Seq<char>>(e.value@)
    }
}

pub open spec fn env_i64_or(env: Env, name: Seq<char>, old_value: i64) -> i64 {
    match env_int(env, name) {
        Ok(v) => or_i64(v, old_value),
        Err(_) => old_value,
    }
}

/// A policy with the first `n` settings of an environment in place of its own.
pub open spec fn with_settings(p: RetentionPolicy, env: Env, n: int) -> RetentionPolicy {
    RetentionPolicy {
        hot_tier_hours: if n > 0 {
            env_i64_or(env, setting(0), p.hot_tier_hours)
        } else {
            p.hot_tier_hours
        },
        compact_interval_secs: match env_uint(env, setting(1)) {
            Ok(v) => if n > 1 {
                or_u64(v, p.compact_interval_secs)
            } else {
                p.compact_interval_secs
            },
            Err(_) => p.compact_interval_secs,
        },
        traces: if n > 2 {
            env_i64_or(env, setting(2), p.traces)
        } else {
            p.traces
        },
        llm_payloads: if n > 3 {
            env_i64_or(env, setting(3), p.llm_payloads)
        } else {
            p.llm_payloads
        },
        logs: if n > 4 {
            env_i64_or(env, setting(4), p.logs)
        } else {
            p.logs
        },
        metrics_raw: if n > 5 {
            env_i64_or(env, setting(5), p.metrics_raw)
        } else {
            p.metrics_raw
        },
        metrics_rollups: if n > 6 {
            env_i64_or(env, setting(6), p.metrics_rollups)
        } else {
            p.metrics_rollups
        },
    }
}

/// A policy with the settings of an environment in place of its own.
pub open spec fn with_env(p: RetentionPolicy, env: Env) -> RetentionPolicy {
    with_settings(p, env, 7)
}

// ── Validation ──────────────────────────────────────────────────────

/// What is wrong with a policy.
#[derive(Debug, Clone)]
pub enum PolicyError {
    ZeroInterval,
    NegativeRetention { name: &'static str, days: i64 },
    NegativeHotTier,
}

impl PolicyError {
    pub fn message(&self) -> (r: String)
        ensures
            r@ == match self {
                PolicyError::ZeroInterval => "compact_interval_secs must be greater than 0"@,
                PolicyError::NegativeRetention { name, days } => "retention."@ + name@
                    + " must not be negative (got "@ + signed_decimal(*days as int) + ")"@,
                PolicyError::NegativeHotTier => "hot_tier_hours must not be negative"@,
            },
    {
        match self {
            PolicyError::ZeroInterval => "compact_interval_secs must be greater than 0".to_owned(),
            PolicyError::NegativeRetention { name, days } => {
                let mut out = "retention.".to_owned();
                out.append(name);
                out.append(" must not be negative (got ");
                out.append(decimal_i64(*days).as_str());
                out.append(")");
                out
            },
            PolicyError::NegativeHotTier => "hot_tier_hours must not be negative".to_owned(),
        }
    }
}

/// Whether a policy can be followed.
pub open spec fn is_valid(p: RetentionPolicy) -> bool {
    &&& p.compact_interval_secs > 0
    &&& p.traces >= 0
    &&& p.llm_payloads >= 0
    &&& p.logs >= 0
    &&& p.metrics_raw >= 0
    &&& p.metrics_rollups >= 0
    &&& p.hot_tier_hours >= 0
}

/// The first thing that is wrong with a policy.
pub open spec fn first_fault(p: RetentionPolicy, e: PolicyError) -> bool {
    if p.compact_interval_secs == 0 {
        e is ZeroInterval
    } else if p.traces < 0 {
        e matches PolicyError::NegativeRetention { name, days } && name@ == "traces"@ && days
            == p.traces
    } else if p.llm_payloads < 0 {
        e matches PolicyError::NegativeRetention { name, days } && name@ == "llm_payloads"@ && days
            == p.llm_payloads
    } else if p.logs < 0 {
        e matches PolicyError::NegativeRetention { name, days } && name@ == "logs"@ && days
            == p.logs
    } else if p.metrics_raw < 0 {
        e matches PolicyError::NegativeRetention { name, days } && name@ == "metrics_raw"@ && days
            == p.metrics_raw
    } else if p.metrics_rollups < 0 {
        e matches PolicyError::NegativeRetention { name, days } && name@ == "metrics_rollups"@
            && days == p.metrics_rollups
    } else {
        p.hot_tier_hours < 0 && e is NegativeHotTier
    }
}

/// Why there is no policy.
#[derive(Debug)]
pub enum ResolveError {
    File(DurationError),
    Number(NumberError),
    Policy(PolicyError),
}

/// Resolved cutoff instants for a single maintenance pass.
#[derive(Debug, Clone, Copy)]
pub struct RetentionCutoffs {
    pub hot_tier: Timestamp,
    pub traces: Timestamp,
    pub llm_payloads: Timestamp,
    pub logs: Timestamp,
    pub metrics_raw: Timestamp,
    pub metrics_rollups: Timestamp,
}

pub open spec fn days_before(now: Instant, days: i64) -> Instant {
    seconds_before(now, days * 86400)
}

pub open spec fn hours_before(now: Instant, hours: i64) -> Instant {
    seconds_before(now, hours * 3600)
}

/// Whether every cutoff of a policy is an instant.
pub open spec fn cutoffs_exist(p: RetentionPolicy, now: Instant) -> bool {
    &&& hours_before(now, p.hot_tier_hours).exists_in_time()
    &&& days_before(now, p.traces).exists_in_time()
    &&& days_before(now, p.llm_payloads).exists_in_time()
    &&& days_before(now, p.logs).exists_in_time()
    &&& days_before(now, p.metrics_raw).exists_in_time()
    &&& days_before(now, p.metrics_rollups).exists_in_time()
}

fn before_days(now: &Timestamp, days: i64) -> (r: Option<Timestamp>)
    ensures
        r is Some <==> days_before(now@, days).exists_in_time(),
        r matches Some(t) ==> t@ == days_before(now@, days),
{
    before_units(now, days, 86400)
}

fn before_units(now: &Timestamp, n: i64, unit_seconds: i64) -> (r: Option<Timestamp>)
    requires
        unit_seconds == 86400 || unit_seconds == 3600,
    ensures
        r is Some <==> seconds_before(now@, n * unit_seconds).exists_in_time(),
        r matches Some(t) ==> t@ == seconds_before(now@, n * unit_seconds),
{
    // Beyond this no instant is far enough from any other.
    let secs: i64 = now.seconds();
    if n > 10000000000 || n < -10000000000 {
        return None;
    }
    now.minus_seconds(n * unit_seconds)
}

/// The days of a duration, or what there was where none is set.
fn read_days(new: &Option<String>, rounded: i64, old_value: i64) -> (r: Result<i64, DurationError>)
    ensures
        match r {
            Ok(days) => (new matches Some(raw) ==> !is_malformed(raw@)) && days == or_days(
                *new,
                rounded,
                old_value,
            ),
            Err(e) => new matches Some(raw) && is_malformed(raw@) && is_duration(
                Err::<Days, DurationError>(e),
                raw@,
            ),
        },
{
    match new {
        Some(raw) => match parse_days(raw.as_str()) {
            Ok(Days::Whole(n)) => Ok(n),
            Ok(Days::Unrounded { .. }) => Ok(rounded),
            Err(e) => Err(e),
        },
        None => Ok(old_value),
    }
}

impl RetentionPolicy {
    /// The settings of a config file, in place of the policy's own. A duration
    /// that is none refuses the file, the first one where there are several;
    /// what stands before it is then set already.
    pub fn apply_file(&mut self, file: &ConfigFile, rounded: &RoundedDays) -> (r: Result<
        (),
        DurationError,
    >)
        ensures
            match r {
                Ok(_) => is_well_formed(*file) && *final(self) == with_file(
                    *old(self),
                    *file,
                    *rounded,
                ),
                Err(e) => file_refused(*file, e) && *final(self) == with_durations(
                    *old(self),
                    *file,
                    *rounded,
                    first_malformed(durations(file.retention->0), 0),
                ),
            },
    {
        if let Some(storage) = &file.storage {
            if let Some(hours) = storage.hot_tier_hours {
                self.hot_tier_hours = hours;
            }
            if let Some(secs) = storage.compact_interval_secs {
                self.compact_interval_secs = secs;
            }
        }
        if let Some(s) = &file.retention {
            proof {
                reveal_with_fuel(first_malformed, 7);
                let texts = durations(*s);
                assert(texts[0] == s.traces && texts[1] == s.llm_payloads && texts[2] == s.logs
                    && texts[3] == s.metrics_raw && texts[4] == s.metrics_rollups);
            }
            match read_days(&s.traces, rounded.traces, self.traces) {
                Ok(v) => {
                    self.traces = v;
                },
                Err(e) => return Err(e),
            }
            match read_days(&s.llm_payloads, rounded.llm_payloads, self.llm_payloads) {
                Ok(v) => {
                    self.llm_payloads = v;
                },
                Err(e) => return Err(e),
            }
            match read_days(&s.logs, rounded.logs, self.logs) {
                Ok(v) => {
                    self.logs = v;
                },
                Err(e) => return Err(e),
            }
            match read_days(&s.metrics_raw, rounded.metrics_raw, self.metrics_raw) {
                Ok(v) => {
                    self.metrics_raw = v;
                },
                Err(e) => return Err(e),
            }
            match read_days(&s.metrics_rollups, rounded.metrics_rollups, self.metrics_rollups) {
                Ok(v) => {
                    self.metrics_rollups = v;
                },
                Err(e) => return Err(e),
            }
        }
        Ok(())
    }

    /// Environment overrides. A setting that is no number refuses the
    /// environment, the first one where there are several; what is read before
    /// it is then set already.
    pub fn apply_env(&mut self, env: &Labels) -> (r: Result<(), NumberError>)
        ensures
            match r {
                Ok(_) => env_numbers_valid(env@) && *final(self) == with_env(*old(self), env@),
                Err(e) => number_refused(env@, e) && *final(self) == with_settings(
                    *old(self),
                    env@,
                    first_no_number(env@, 0),
                ),
            },
    {
        proof {
            reveal_with_fuel(first_no_number, 8);
        }
        match env_i64(env, "TAEL_HOT_TIER_HOURS") {
            Ok(Some(v)) => {
                self.hot_tier_hours = v;
            },
            Ok(None) => {},
            Err(e) => return Err(e),
        }
        match env_u64(env, "TAEL_COMPACT_INTERVAL_SECS") {
            Ok(Some(v)) => {
                self.compact_interval_secs = v;
            },
            Ok(None) => {},
            Err(e) => return Err(e),
        }
        match env_i64(env, "TAEL_TRACE_RETENTION_DAYS") {
            Ok(Some(v)) => {
                self.traces = v;
            },
            Ok(None) => {},
            Err(e) => return Err(e),
        }
        match env_i64(env, "TAEL_LLM_PAYLOAD_RETENTION_DAYS") {
            Ok(Some(v)) => {
                self.llm_payloads = v;
            },
            Ok(None) => {},
            Err(e) => return Err(e),
        }
        match env_i64(env, "TAEL_LOG_RETENTION_DAYS") {
            Ok(Some(v)) => {
                self.logs = v;
            },
            Ok(None) => {},
            Err(e) => return Err(e),
        }
        match env_i64(env, "TAEL_METRIC_RETENTION_DAYS") {
            Ok(Some(v)) => {
                self.metrics_raw = v;
            },
            Ok(None) => {},
            Err(e) => return Err(e),
        }
        match env_i64(env, "TAEL_METRIC_ROLLUP_RETENTION_DAYS") {
            Ok(Some(v)) => {
                self.metrics_rollups = v;
            },
            Ok(None) => {},
            Err(e) => return Err(e),
        }
        Ok(())
    }

    pub fn validate(&self) -> (r: Result<(), PolicyError>)
        ensures
            match r {
                Ok(_) => is_valid(*self),
                Err(e) => !is_valid(*self) && first_fault(*self, e),
            },
    {
        if self.compact_interval_secs == 0 {
            return Err(PolicyError::ZeroInterval);
        }
        if self.traces < 0 {
            return Err(PolicyError::NegativeRetention { name: "traces", days: self.traces });
        }
        if self.llm_payloads < 0 {
            return Err(
                PolicyError::NegativeRetention { name: "llm_payloads", days: self.llm_payloads },
            );
        }
        if self.logs < 0 {
            return Err(PolicyError::NegativeRetention { name: "logs", days: self.logs });
        }
        if self.metrics_raw < 0 {
            return Err(
                PolicyError::NegativeRetention { name: "metrics_raw", days: self.metrics_raw },
            );
        }
        if self.metrics_rollups < 0 {
            return Err(
                PolicyError::NegativeRetention {
                    name: "metrics_rollups",
                    days: self.metrics_rollups,
                },
            );
        }
        if self.hot_tier_hours < 0 {
            return Err(PolicyError::NegativeHotTier);
        }
        Ok(())
    }

    /// Whether rollups are dropped before the raw points that they summarize,
    /// which loses the long-range trends they are kept for.
    pub fn loses_trends(&self) -> (r: bool)
        ensures
            r == (self.metrics_rollups < self.metrics_raw),
    {
        self.metrics_rollups < self.metrics_raw
    }

    /// Resolve the effective policy: defaults, then the config file, then the
    /// environment.
    pub fn resolve(
        file: &Option<ConfigFile>,
        rounded: &RoundedDays,
        env: &Labels,
    ) -> (r: Result<Self, ResolveError>)
        ensures
            ({
                let base = match file {
                    Some(f) => with_file(default_policy(), *f, *rounded),
                    None => default_policy(),
                };
                let p = with_env(base, env@);
                let readable = file matches Some(f) ==> is_well_formed(*f);
                match r {
                    Ok(policy) => readable && env_numbers_valid(env@) && is_valid(p) && policy == p,
                    Err(ResolveError::File(e)) => file matches Some(f) && file_refused(*f, e),
                    Err(ResolveError::Number(e)) => readable && number_refused(env@, e),
                    Err(ResolveError::Policy(e)) => readable && env_numbers_valid(env@)
                        && !is_valid(p) && first_fault(p, e),
                }
            }),
    {
        let mut policy = RetentionPolicy::default();
        if let Some(f) = file {
            match policy.apply_file(f, rounded) {
                Ok(_) => {},
                Err(e) => return Err(ResolveError::File(e)),
            }
        }
        match policy.apply_env(env) {
            Ok(_) => {},
            Err(e) => return Err(ResolveError::Number(e)),
        }
        match policy.validate() {
            Ok(_) => Ok(policy),
            Err(e) => Err(ResolveError::Policy(e)),
        }
    }

    /// Cutoff instants for one maintenance pass, computed from `now` so every
    /// signal in a pass measures against the same clock. `None` where one of
    /// them lies before every instant.
    pub fn try_cutoffs(&self, now: &Timestamp) -> (r: Option<RetentionCutoffs>)
        ensures
            match r {
                Some(c) => cutoffs_exist(*self, now@) && c.hot_tier@ == hours_before(
                    now@,
                    self.hot_tier_hours,
                ) && c.traces@ == days_before(now@, self.traces) && c.llm_payloads@ == days_before(
                    now@,
                    self.llm_payloads,
                ) && c.logs@ == days_before(now@, self.logs) && c.metrics_raw@ == days_before(
                    now@,
                    self.metrics_raw,
                ) && c.metrics_rollups@ == days_before(now@, self.metrics_rollups),
                None => !cutoffs_exist(*self, now@),
            },
            r matches Some(c) ==> are_cutoffs_of(c, *self, now@),
    {
        let hot_tier = match before_units(now, self.hot_tier_hours, 3600) {
            Some(t) => t,
            None => return None,
        };
        match (
            before_days(now, self.traces),
            before_days(now, self.llm_payloads),
            before_days(now, self.logs),
            before_days(now, self.metrics_raw),
            before_days(now, self.metrics_rollups),
        ) {
            (
                Some(traces),
                Some(llm_payloads),
                Some(logs),
                Some(metrics_raw),
                Some(metrics_rollups),
            ) => Some(
                RetentionCutoffs {
                    hot_tier,
                    traces,
                    llm_payloads,
                    logs,
                    metrics_raw,
                    metrics_rollups,
                },
            ),
            _ => None,
        }
    }

    /// Cutoff instants for one maintenance pass, computed from `now` so every
    /// signal in a pass measures against the same clock.
    pub fn cutoffs(&self, now: &Timestamp) -> (r: RetentionCutoffs)
        requires
            cutoffs_exist(*self, now@),
        ensures
            r.hot_tier@ == hours_before(now@, self.hot_tier_hours),
            r.traces@ == days_before(now@, self.traces),
            r.llm_payloads@ == days_before(now@, self.llm_payloads),
            r.logs@ == days_before(now@, self.logs),
            r.metrics_raw@ == days_before(now@, self.metrics_raw),
            r.metrics_rollups@ == days_before(now@, self.metrics_rollups),
            are_cutoffs_of(r, *self, now@),
    {
        self.try_cutoffs(now).unwrap()
    }
}

// ── Where the file is ───────────────────────────────────────────────

/// A path without the slashes and `.` components that it ends in.
pub open spec fn clean_tail(s: Seq<char>) -> Seq<char>
    decreases s.len(),
{
    if s.len() > 1 && s.last() == '/' {
        clean_tail(s.drop_last())
    } else if s.len() > 1 && s.last() == '.' && s[s.len() - 2] == '/' {
        clean_tail(s.drop_last())
    } else {
        s
    }
}

/// The directory that a path lies in.
pub open spec fn parent_of(s: Seq<char>) -> Option<Seq<char>> {
    let c = clean_tail(s);
    if c.len() == 0 || c == "/"@ {
        None
    } else {
        match crate::text::rfind_char(c, '/') {
            None => Some(Seq::empty()),
            Some(i) => if i == 0 {
                Some("/"@)
            } else {
                Some(clean_tail(c.take(i)))
            },
        }
    }
}

/// `config.toml` beside the data directory.
pub open spec fn config_path_of(data_dir: Seq<char>) -> Seq<char> {
    joined_path(
        match parent_of(data_dir) {
            Some(p) => p,
            None => data_dir,
        },
        "config.toml"@,
    )
}

fn without_tail(s: &str) -> (r: String)
    ensures
        r@ == clean_tail(s@),
{
    let v = chars(s);
    let mut n: usize = v.len();
    assert(v@.take(n as int) =~= v@);
    while n > 1 && (v[n - 1] == '/' || (v[n - 1] == '.' && v[n - 2] == '/'))
        invariant
            n <= v@.len(),
            clean_tail(v@) == clean_tail(v@.take(n as int)),
        decreases n,
    {
        assert(v@.take(n as int).drop_last() =~= v@.take(n as int - 1));
        n = n - 1;
    }
    let r = text(&v, 0, n);
    assert(r@ =~= v@.take(n as int));
    r
}

fn parent(s: &str) -> (r: Option<String>)
    ensures
        match r {
            Some(p) => parent_of(s@) == Some(p@),
            None => parent_of(s@) is None,
        },
{
    let c = without_tail(s);
    if c.as_str().is_empty() || same(c.as_str(), "/") {
        return None;
    }
    let v = chars(c.as_str());
    match crate::text::rfind(&v, '/') {
        None => {
            let e = String::new();
            assert(e@ =~= Seq::<char>::empty());
            Some(e)
        },
        Some(i) => {
            if i == 0 {
                Some("/".to_owned())
            } else {
                let head = text(&v, 0, i);
                assert(head@ =~= c@.take(i as int));
                Some(without_tail(head.as_str()))
            }
        },
    }
}

/// `config.toml` beside the data directory that it governs.
pub fn default_config_path(data_dir: &str) -> (r: String)
    ensures
        r@ == config_path_of(data_dir@),
{
    match parent(data_dir) {
        Some(p) => join_path(p.as_str(), "config.toml"),
        None => join_path(data_dir, "config.toml"),
    }
}

// ── Laws ────────────────────────────────────────────────────────────

/// The first of three settings that there is: the environment's, the file's,
/// the default.
pub open spec fn first_set(env_value: Option<i64>, file_value: Option<i64>, default: i64) -> i64 {
    match env_value {
        Some(v) => v,
        None => match file_value {
            Some(v) => v,
            None => default,
        },
    }
}

/// The days that a file sets, if it does.
pub open spec fn read(text: Option<String>, rounded: i64) -> Option<i64> {
    match text {
        Some(raw) => Some(days_in(raw@, rounded) as i64),
        None => None,
    }
}

/// A setting of the environment wins over the file, and a setting of the file
/// over the default, for each signal on its own.
pub proof fn environment_over_file_over_default(
    storage: StorageSection,
    r: RetentionSection,
    rounded: RoundedDays,
    env: Env,
)
    requires
        env_numbers_valid(env),
    ensures
        ({
            let file = ConfigFile { storage: Some(storage), retention: Some(r) };
            let p = with_env(with_file(default_policy(), file, rounded), env);
            &&& p.hot_tier_hours == first_set(
                env_int(env, "TAEL_HOT_TIER_HOURS"@)->Ok_0,
                storage.hot_tier_hours,
                24,
            )
            &&& p.traces == first_set(
                env_int(env, "TAEL_TRACE_RETENTION_DAYS"@)->Ok_0,
                read(r.traces, rounded.traces),
                DEFAULT_RETENTION_DAYS,
            )
            &&& p.llm_payloads == first_set(
                env_int(env, "TAEL_LLM_PAYLOAD_RETENTION_DAYS"@)->Ok_0,
                read(r.llm_payloads, rounded.llm_payloads),
                DEFAULT_RETENTION_DAYS,
            )
            &&& p.logs == first_set(
                env_int(env, "TAEL_LOG_RETENTION_DAYS"@)->Ok_0,
                read(r.logs, rounded.logs),
                DEFAULT_RETENTION_DAYS,
            )
            &&& p.metrics_raw == first_set(
                env_int(env, "TAEL_METRIC_RETENTION_DAYS"@)->Ok_0,
                read(r.metrics_raw, rounded.metrics_raw),
                DEFAULT_RETENTION_DAYS,
            )
            &&& p.metrics_rollups == first_set(
                env_int(env, "TAEL_METRIC_ROLLUP_RETENTION_DAYS"@)->Ok_0,
                read(r.metrics_rollups, rounded.metrics_rollups),
                DEFAULT_RETENTION_DAYS,
            )
        }),
{
}

/// Without a file and with nothing set, the policy is the default one, which
/// keeps every signal for a year and is valid.
pub proof fn nothing_set_keeps_the_default(env: Env)
    requires
        env == Map::<Seq<char>, Seq<char>>::empty(),
    ensures
        env_numbers_valid(env),
        with_env(default_policy(), env) == default_policy(),
        is_valid(default_policy()),
{
}

/// Cutoffs of one pass share a clock: how far each lies back does not depend
/// on when the pass runs, leap seconds apart.
pub proof fn cutoffs_share_one_clock(p: RetentionPolicy, now: Instant, later: Instant)
    requires
        !now.is_leap(),
        !later.is_leap(),
    ensures
        elapsed(days_before(now, p.logs), now) == elapsed(days_before(later, p.logs), later),
        elapsed(days_before(now, p.traces), now) == p.traces * 86400000000000,
        elapsed(hours_before(now, p.hot_tier_hours), now) == p.hot_tier_hours * 3600000000000,
        p.traces <= p.logs ==> !earlier(days_before(now, p.traces), days_before(now, p.logs)),
{
}

/// Days are the nearest whole number to what a literal says: of a week seven, of
/// an hour the twenty-fourth part, halves rounded up.
pub proof fn days_are_the_nearest(t: Seq<char>)
    ensures
        ({
            let n = digits_value(number_digits(t));
            let d = power_of_ten(fraction_len(t));
            &&& d > 0
            &&& 2 * n - d < 2 * (d * in_days(t, DurationUnit::Days)) <= 2 * n + d
            &&& 2 * n - 24 * d < 2 * (24 * d * in_days(t, DurationUnit::Hours)) <= 2 * n + 24 * d
            &&& 14 * n - d < 2 * (d * in_days(t, DurationUnit::Weeks)) <= 14 * n + d
        }),
{
    let n = digits_value(number_digits(t));
    let d = power_of_ten(fraction_len(t));
    powers_are_positive(fraction_len(t));
    rounding_is_nearest(n, d);
    rounding_is_nearest(n, 24 * d);
    rounding_is_nearest(7 * n, d);
}

proof fn powers_are_positive(n: nat)
    ensures
        power_of_ten(n) > 0,
    decreases n,
{
    if n > 0 {
        powers_are_positive((n - 1) as nat);
    }
}

proof fn rounding_is_nearest(n: nat, d: nat)
    requires
        d > 0,
    ensures
        2 * n - d < 2 * (d * rounded(n, d)) <= 2 * n + d,
{
    let r = rounded(n, d);
    vstd::arithmetic::div_mod::lemma_fundamental_div_mod((2 * n + d) as int, (2 * d) as int);
    assert(0 <= ((2 * n + d) as int) % ((2 * d) as int) < 2 * d) by {
        vstd::arithmetic::div_mod::lemma_mod_bound((2 * n + d) as int, (2 * d) as int);
    }
    assert((2 * d) * r == 2 * (d * r)) by (nonlinear_arith);
}

/// A duration reads as it is written: a number alone or with `d` is that many
/// days, with `w` seven times as many, with `h` the nearest to a twenty-fourth;
/// any other unit, or no number, is refused.
pub proof fn durations_read_as_written(r: Result<Days, DurationError>, n: nat)
    requires
        n < 100_000_000_000_000,
    ensures
        is_duration(r, decimal(n)) ==> r == Ok::<Days, DurationError>(Days::Whole(n as i64)),
        is_duration(r, decimal(n) + "d"@) ==> r == Ok::<Days, DurationError>(Days::Whole(n as i64)),
        is_duration(r, decimal(n) + "w"@) ==> r == Ok::<Days, DurationError>(
            Days::Whole((7 * n) as i64),
        ),
        is_duration(r, decimal(n) + "h"@) ==> (r matches Ok(Days::Whole(days)) && n - 12 <= 24 * days
            <= n + 12),
        is_duration(r, decimal(n) + "m"@) ==> (r matches Err(DurationError::UnknownUnit { unit, raw })
            && unit@ == "m"@ && raw@ == decimal(n) + "m"@),
        is_duration(r, ""@) ==> r matches Err(DurationError::Empty),
        is_duration(r, "d"@) ==> r matches Err(DurationError::Invalid { .. }),
{
    reveal_strlit("");
    reveal_strlit("d");
    reveal_strlit("w");
    reveal_strlit("h");
    reveal_strlit("m");
    let s = decimal(n);
    crate::text::decimal_reads_back(n);
    crate::text::small_numbers_are_short(n);
    duration_parts(n, ""@);
    duration_parts(n, "d"@);
    duration_parts(n, "w"@);
    duration_parts(n, "h"@);
    duration_parts(n, "m"@);
    assert(s + ""@ =~= s);
    days_are_the_nearest(s);
    assert(power_of_ten(0) == 1);
    assert(7 * n <= i64::MAX);
    assert(trimmed(""@) == ""@);
    assert(trimmed("d"@) == "d"@);
    assert("m"@[0] == 'm' && "d"@[0] == 'd' && "h"@[0] == 'h' && "w"@[0] == 'w');
    assert(literal_end("d"@, 0) == 0);
    assert("d"@.take(0).len() == 0);
}

proof fn duration_parts(n: nat, unit: Seq<char>)
    requires
        unit.len() <= 1,
        unit.len() == 1 ==> 'a' <= unit[0] <= 'z',
    ensures
        trimmed(decimal(n) + unit) == decimal(n) + unit,
        literal_end(decimal(n) + unit, 0) == decimal(n).len(),
        (decimal(n) + unit).take(decimal(n).len() as int) == decimal(n),
        trimmed((decimal(n) + unit).skip(decimal(n).len() as int)) == unit,
        is_number(decimal(n)),
        number_digits(decimal(n)) == decimal(n),
        fraction_len(decimal(n)) == 0,
{
    crate::text::decimal_reads_back(n);
    let d = decimal(n);
    let s = d + unit;
    assert(is_digit(d[0]));
    assert(s[0] == d[0]);
    assert(is_digit(d[d.len() - 1]));
    assert(s.last() == if unit.len() == 1 {
        unit[0]
    } else {
        d[d.len() - 1]
    });
    assert(trimmed(s) == s);
    literal_runs(s, 0, d.len() as int);
    assert(s.take(d.len() as int) =~= d);
    assert(s.skip(d.len() as int) =~= unit);
    assert(trimmed(unit) == unit);
    crate::text::the_first_place_is_found(d, 0, '.');
    let dot = crate::text::find_char(d, 0, '.');
    if dot < d.len() {
        assert(is_digit(d[dot]));
    }
}

proof fn literal_runs(s: Seq<char>, from: int, end: int)
    requires
        0 <= from <= end <= s.len(),
        forall|k: int| from <= k < end ==> is_digit(#[trigger] s[k]),
        end < s.len() ==> !is_digit(s[end]) && s[end] != '.',
    ensures
        literal_end(s, from) == end,
    decreases end - from,
{
    if from < end {
        assert(is_digit(s[from]));
        literal_runs(s, from + 1, end);
    }
}

/// The maintenance interval is the environment's, else the file's, else an hour;
/// what neither names stays as it was.
pub proof fn what_is_not_named_stays(
    p: RetentionPolicy,
    storage: StorageSection,
    rounded: RoundedDays,
    env: Env,
)
    ensures
        default_policy().compact_interval_secs == 3600,
        ({
            let file = ConfigFile { storage: Some(storage), retention: None };
            let q = with_file(p, file, rounded);
            &&& storage.compact_interval_secs matches Some(n) ==> q.compact_interval_secs == n
            &&& storage.compact_interval_secs is None ==> q.compact_interval_secs
                == p.compact_interval_secs
            &&& storage.hot_tier_hours matches Some(n) ==> q.hot_tier_hours == n
            &&& storage.hot_tier_hours is None ==> q.hot_tier_hours == p.hot_tier_hours
            &&& q.traces == p.traces && q.llm_payloads == p.llm_payloads && q.logs == p.logs
                && q.metrics_raw == p.metrics_raw && q.metrics_rollups == p.metrics_rollups
        }),
        with_file(p, (ConfigFile { storage: None, retention: None }), rounded) == p,
        env.dom().contains("TAEL_COMPACT_INTERVAL_SECS"@) ==> forall|n: nat|
            n <= u64::MAX && env["TAEL_COMPACT_INTERVAL_SECS"@] == #[trigger] decimal(n)
                ==> with_env(p, env).compact_interval_secs == n,
        !env.dom().contains("TAEL_COMPACT_INTERVAL_SECS"@) ==> with_env(
            p,
            env,
        ).compact_interval_secs == p.compact_interval_secs,
{
    assert forall|n: nat|
        n <= u64::MAX && env.dom().contains("TAEL_COMPACT_INTERVAL_SECS"@)
            && env["TAEL_COMPACT_INTERVAL_SECS"@] == #[trigger] decimal(n) implies with_env(
        p,
        env,
    ).compact_interval_secs == n by {
        reveal_strlit("");
        crate::text::decimal_reads_back(n);
        duration_parts(n, ""@);
        assert(decimal(n) + ""@ =~= decimal(n));
        assert(decimal(n)[0] != '+');
    }
}

/// A number of the environment is read as it is written, with whatever space
/// around it; a blank one sets nothing.
pub proof fn settings_read_as_written(env: Env, name: Seq<char>, n: i64)
    requires
        env.dom().contains(name),
    ensures
        env[name] == crate::text::signed_decimal(n as int) ==> env_int(env, name) == Ok::<
            Option<i64>,
            Seq<char>,
        >(Some(n)),
        trimmed(env[name]).len() == 0 ==> env_int(env, name) == Ok::<Option<i64>, Seq<char>>(None),
{
    crate::text::signed_decimal_reads_back(n as int);
    let s = crate::text::signed_decimal(n as int);
    if n < 0 {
        crate::text::decimal_reads_back((-(n as int)) as nat);
        assert(s.last() == decimal((-(n as int)) as nat).last());
    } else {
        crate::text::decimal_reads_back(n as nat);
    }
    assert(is_digit(s.last()));
    assert(trimmed(s) == s);
}

/// The configuration stands beside the data directory.
pub proof fn the_file_stands_beside_the_data(dir: Seq<char>, name: Seq<char>)
    requires
        dir.len() > 0,
        dir.last() != '/',
        dir.len() > 1 ==> !(dir.last() == '.' && dir[dir.len() - 2] == '/'),
        name.len() > 0,
        !name.contains('/'),
        name != seq!['.'],
    ensures
        config_path_of(dir + seq!['/'] + name) == dir + "/config.toml"@,
        config_path_of(dir + seq!['/'] + name + seq!['/']) == dir + "/config.toml"@,
{
    reveal_strlit("/");
    reveal_strlit("config.toml");
    reveal_strlit("/config.toml");
    let s = dir + seq!['/'] + name;
    assert(s.last() == name.last());
    assert(name.contains(name.last()));
    if s.last() == '.' && s[s.len() - 2] == '/' {
        if name.len() == 1 {
            assert(name =~= seq!['.']);
        } else {
            assert(s[s.len() - 2] == name[name.len() - 2]);
            assert(name.contains(name[name.len() - 2]));
        }
    }
    assert(clean_tail(s) == s);
    last_slash(dir, name);
    assert(s.take(dir.len() as int) =~= dir);
    assert(clean_tail(dir) == dir);
    assert(dir + "/"@ + "config.toml"@ =~= dir + "/config.toml"@);
    let longer = s + seq!['/'];
    assert(longer.drop_last() =~= s);
    assert(clean_tail(longer) == s);
}

proof fn last_slash(dir: Seq<char>, name: Seq<char>)
    requires
        !name.contains('/'),
    ensures
        crate::text::rfind_char(dir + seq!['/'] + name, '/') == Some(dir.len() as int),
    decreases name.len(),
{
    let s = dir + seq!['/'] + name;
    if name.len() > 0 {
        assert(name.contains(name.last()));
        assert(s.last() == name.last());
        assert(s.drop_last() =~= dir + seq!['/'] + name.drop_last());
        assert forall|k: int| 0 <= k < name.len() - 1 implies name.drop_last()[k] != '/' by {
            assert(name.contains(name[k]));
        }
        last_slash(dir, name.drop_last());
    } else {
        assert(s =~= dir.push('/'));
    }
}

/// Whether each cutoff lies as far back as its signal is kept.
pub open spec fn are_cutoffs_of(c: RetentionCutoffs, p: RetentionPolicy, now: Instant) -> bool {
    &&& c.hot_tier@ == hours_before(now, p.hot_tier_hours)
    &&& c.traces@ == days_before(now, p.traces)
    &&& c.llm_payloads@ == days_before(now, p.llm_payloads)
    &&& c.logs@ == days_before(now, p.logs)
    &&& c.metrics_raw@ == days_before(now, p.metrics_raw)
    &&& c.metrics_rollups@ == days_before(now, p.metrics_rollups)
}

/// Each signal is cut off at its own age: a day is 86400 seconds, an hour 3600.
pub proof fn signals_are_cut_off_at_their_age(
    c: RetentionCutoffs,
    p: RetentionPolicy,
    now: Instant,
)
    requires
        are_cutoffs_of(c, p, now),
        !now.is_leap(),
    ensures
        elapsed(c.hot_tier@, now) == p.hot_tier_hours * 3600 * 1000000000,
        elapsed(c.traces@, now) == p.traces * 86400 * 1000000000,
        elapsed(c.llm_payloads@, now) == p.llm_payloads * 86400 * 1000000000,
        elapsed(c.logs@, now) == p.logs * 86400 * 1000000000,
        elapsed(c.metrics_raw@, now) == p.metrics_raw * 86400 * 1000000000,
        elapsed(c.metrics_rollups@, now) == p.metrics_rollups * 86400 * 1000000000,
{
}

/// A policy is valid exactly when it runs at all and keeps nothing for less than no
/// time; what is wrong with one that is not names what it is.
pub proof fn policies_keep_nothing_for_less_than_no_time(p: RetentionPolicy, e: PolicyError)
    ensures
        is_valid(p) <==> p.compact_interval_secs > 0 && 0 <= p.traces && 0 <= p.llm_payloads && 0
            <= p.logs && 0 <= p.metrics_raw && 0 <= p.metrics_rollups && 0 <= p.hot_tier_hours,
        first_fault(p, e) ==> !is_valid(p),
        first_fault(p, e) ==> (e matches PolicyError::NegativeRetention { name, days } ==> days < 0
            && (name@ == "traces"@ ==> days == p.traces) && (name@ == "llm_payloads"@ ==> days
            == p.llm_payloads) && (name@ == "logs"@ ==> days == p.logs) && (name@ == "metrics_raw"@
            ==> days == p.metrics_raw) && (name@ == "metrics_rollups"@ ==> days
            == p.metrics_rollups)),
        first_fault(p, e) && e is ZeroInterval ==> p.compact_interval_secs == 0,
        first_fault(p, e) && e is NegativeHotTier ==> p.hot_tier_hours < 0,
{
    reveal_strlit("traces");
    reveal_strlit("llm_payloads");
    reveal_strlit("logs");
    reveal_strlit("metrics_raw");
    reveal_strlit("metrics_rollups");
    assert("traces"@.len() == 6 && "llm_payloads"@.len() == 12 && "logs"@.len() == 4
        && "metrics_raw"@.len() == 11 && "metrics_rollups"@.len() == 15);
}

/// A file that sets every duration sets each signal's own.
pub proof fn files_set_each_signal(
    p: RetentionPolicy,
    r: RetentionSection,
    rounded: RoundedDays,
)
    ensures
        ({
            let q = with_file(p, (ConfigFile { storage: None, retention: Some(r) }), rounded);
            &&& r.traces matches Some(t) ==> q.traces == days_in(t@, rounded.traces) as i64
            &&& r.llm_payloads matches Some(t) ==> q.llm_payloads == days_in(
                t@,
                rounded.llm_payloads,
            ) as i64
            &&& r.logs matches Some(t) ==> q.logs == days_in(t@, rounded.logs) as i64
            &&& r.metrics_raw matches Some(t) ==> q.metrics_raw == days_in(
                t@,
                rounded.metrics_raw,
            ) as i64
            &&& r.metrics_rollups matches Some(t) ==> q.metrics_rollups == days_in(
                t@,
                rounded.metrics_rollups,
            ) as i64
            &&& r.traces is None ==> q.traces == p.traces
            &&& r.llm_payloads is None ==> q.llm_payloads == p.llm_payloads
            &&& r.logs is None ==> q.logs == p.logs
            &&& r.metrics_raw is None ==> q.metrics_raw == p.metrics_raw
            &&& r.metrics_rollups is None ==> q.metrics_rollups == p.metrics_rollups
            &&& q.hot_tier_hours == p.hot_tier_hours && q.compact_interval_secs
                == p.compact_interval_secs
        }),
{
}

} // verus!
