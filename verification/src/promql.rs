//! Minimal PromQL subset for instant queries over stored metrics.
//!
//! Supported syntax:
//!   - Bare selector:         `metric_name`
//!   - Labelled selector:     `metric_name{label="value", other!="x"}`
//!   - Rate over range:       `rate(metric_name{...}[5m])`
//!   - Aggregators:           `sum|avg|min|max|count(expr)`
//!                            `sum by (label1,label2) (expr)`
//!                            `sum(expr) by (label1,label2)`
//!   - Histogram quantile:    `histogram_quantile(0.95, metric{...})`
//!                            `histogram_quantile(0.99, metric) by (service)`
//!   - Threshold:             `expr > 1.5`, at the top level only
//!
//! Numbers stay decimal literals here: the quantile and the threshold are
//! handed on as the digits that were written.

use crate::number::{first_nonzero, is_short, plain_form, plain_number, whole_digits};
use crate::text::{all_digits, char_is_alphanumeric, char_is_digit, char_is_whitespace, chars, digits_end, digits_i64, find, same, starts_at, text};
use vstd::prelude::*;

verus! {

// ── Syntax trees ────────────────────────────────────────────────────

#[derive(Debug)]
#[allow(inconsistent_fields)]
pub enum Expr {
    Selector(Selector),
    Rate { selector: Selector, range_seconds: i64 },
    Aggregate { op: AggOp, by: Vec<String>, inner: Box<Expr> },
    /// `histogram_quantile(phi, selector)`: estimate a quantile from stored
    /// bucket layouts. `phi` is the decimal literal.
    HistogramQuantile {
        phi: String,
        selector: Selector,
        /// Label set to merge histograms across before computing. Empty means
        /// one result per distinct label set.
        by: Vec<String>,
    },
    /// `<expr> <op> <scalar>`: keep only the series satisfying the comparison.
    /// Top level only. `threshold` is the decimal literal.
    Compare { inner: Box<Expr>, op: CompareOp, threshold: String },
}

/// Scalar comparison used by [`Expr::Compare`].
#[derive(Debug, Clone, Copy, PartialEq, Eq, Structural)]
pub enum CompareOp {
    Gt,
    Gte,
    Lt,
    Lte,
    Eq,
    NotEq,
}

impl CompareOp {
    pub open spec fn symbol(self) -> Seq<char> {
        match self {
            CompareOp::Gt => ">"@,
            CompareOp::Gte => ">="@,
            CompareOp::Lt => "<"@,
            CompareOp::Lte => "<="@,
            CompareOp::Eq => "=="@,
            CompareOp::NotEq => "!="@,
        }
    }

    pub fn as_str(self) -> (r: &'static str)
        ensures
            r@ == self.symbol(),
    {
        match self {
            CompareOp::Gt => ">",
            CompareOp::Gte => ">=",
            CompareOp::Lt => "<",
            CompareOp::Lte => "<=",
            CompareOp::Eq => "==",
            CompareOp::NotEq => "!=",
        }
    }
}

#[derive(Debug, Clone)]
pub struct Selector {
    pub metric: String,
    pub matchers: Vec<LabelMatcher>,
}

#[derive(Debug, Clone)]
pub struct LabelMatcher {
    pub name: String,
    pub value: String,
    pub op: MatchOp,
}

#[derive(Debug, Clone, Copy, PartialEq, Eq, Structural)]
pub enum MatchOp {
    Eq,
    NotEq,
}

#[derive(Debug, Clone, Copy, PartialEq, Eq, Structural)]
pub enum AggOp {
    Sum,
    Avg,
    Min,
    Max,
    Count,
}

/// The aggregator that a name stands for.
pub open spec fn agg_op(s: Seq<char>) -> Option<AggOp> {
    if s == "sum"@ {
        Some(AggOp::Sum)
    } else if s == "avg"@ {
        Some(AggOp::Avg)
    } else if s == "min"@ {
        Some(AggOp::Min)
    } else if s == "max"@ {
        Some(AggOp::Max)
    } else if s == "count"@ {
        Some(AggOp::Count)
    } else {
        None
    }
}

/// The name of an aggregator, as its results carry it.
pub open spec fn agg_name(op: AggOp) -> Seq<char> {
    match op {
        AggOp::Sum => "sum"@,
        AggOp::Avg => "avg"@,
        AggOp::Min => "min"@,
        AggOp::Max => "max"@,
        AggOp::Count => "count"@,
    }
}

impl AggOp {
    pub fn parse(s: &str) -> (r: Option<Self>)
        ensures
            r == agg_op(s@),
    {
        if same(s, "sum") {
            Some(AggOp::Sum)
        } else if same(s, "avg") {
            Some(AggOp::Avg)
        } else if same(s, "min") {
            Some(AggOp::Min)
        } else if same(s, "max") {
            Some(AggOp::Max)
        } else if same(s, "count") {
            Some(AggOp::Count)
        } else {
            None
        }
    }
}

/// The name that an aggregate's series carry.
pub fn op_name(op: AggOp) -> (r: &'static str)
    ensures
        r@ == agg_name(op),
{
    match op {
        AggOp::Sum => "sum",
        AggOp::Avg => "avg",
        AggOp::Min => "min",
        AggOp::Max => "max",
        AggOp::Count => "count",
    }
}

// ── Models ──────────────────────────────────────────────────────────

pub struct MatcherModel {
    pub name: Seq<char>,
    pub value: Seq<char>,
    pub op: MatchOp,
}

pub struct SelectorModel {
    pub metric: Seq<char>,
    pub matchers: Seq<MatcherModel>,
}

#[allow(inconsistent_fields)]
pub enum ExprModel {
    Selector(SelectorModel),
    Rate { selector: SelectorModel, range_seconds: i64 },
    Aggregate { op: AggOp, by: Seq<Seq<char>>, inner: Box<ExprModel> },
    HistogramQuantile { phi: Seq<char>, selector: SelectorModel, by: Seq<Seq<char>> },
    Compare { inner: Box<ExprModel>, op: CompareOp, threshold: Seq<char> },
}

impl View for LabelMatcher {
    type V = MatcherModel;

    open spec fn view(&self) -> MatcherModel {
        MatcherModel { name: self.name@, value: self.value@, op: self.op }
    }
}

impl View for Selector {
    type V = SelectorModel;

    open spec fn view(&self) -> SelectorModel {
        SelectorModel {
            metric: self.metric@,
            matchers: self.matchers@.map_values(|m: LabelMatcher| m@),
        }
    }
}

impl Expr {
    pub open spec fn model(self) -> ExprModel
        decreases self,
    {
        match self {
            Expr::Selector(s) => ExprModel::Selector(s@),
            Expr::Rate { selector, range_seconds } => ExprModel::Rate {
                selector: selector@,
                range_seconds,
            },
            Expr::Aggregate { op, by, inner } => ExprModel::Aggregate {
                op,
                by: crate::text::texts(by@),
                inner: Box::new(inner.model()),
            },
            Expr::HistogramQuantile { phi, selector, by } => ExprModel::HistogramQuantile {
                phi: phi@,
                selector: selector@,
                by: crate::text::texts(by@),
            },
            Expr::Compare { inner, op, threshold } => ExprModel::Compare {
                inner: Box::new(inner.model()),
                op,
                threshold: threshold@,
            },
        }
    }
}

/// Why a text is not a query.
#[derive(Debug, Clone)]
pub enum ParseError {
    Expected { literal: String, rest: String },
    ExpectedIdentifier { rest: String },
    ExpectedQuote { rest: String },
    UnterminatedString,
    ExpectedMatchOperator,
    ExpectedDurationNumber { rest: String },
    DurationTooLarge,
    ExpectedDurationUnit,
    UnknownDurationUnit { unit: char },
    ExpectedNumber { rest: String },
    InvalidNumber { literal: String },
    QuantileOutOfRange { literal: String },
    ExpectedExpression { rest: String },
    TrailingInput { rest: String },
}

pub enum Fault {
    Expected { literal: Seq<char>, rest: Seq<char> },
    ExpectedIdentifier { rest: Seq<char> },
    ExpectedQuote { rest: Seq<char> },
    UnterminatedString,
    ExpectedMatchOperator,
    ExpectedDurationNumber { rest: Seq<char> },
    DurationTooLarge,
    ExpectedDurationUnit,
    UnknownDurationUnit { unit: char },
    ExpectedNumber { rest: Seq<char> },
    InvalidNumber { literal: Seq<char> },
    QuantileOutOfRange { literal: Seq<char> },
    ExpectedExpression { rest: Seq<char> },
    TrailingInput { rest: Seq<char> },
}

impl View for ParseError {
    type V = Fault;

    open spec fn view(&self) -> Fault {
        match self {
            ParseError::Expected { literal, rest } => Fault::Expected {
                literal: literal@,
                rest: rest@,
            },
            ParseError::ExpectedIdentifier { rest } => Fault::ExpectedIdentifier { rest: rest@ },
            ParseError::ExpectedQuote { rest } => Fault::ExpectedQuote { rest: rest@ },
            ParseError::UnterminatedString => Fault::UnterminatedString,
            ParseError::ExpectedMatchOperator => Fault::ExpectedMatchOperator,
            ParseError::ExpectedDurationNumber { rest } => Fault::ExpectedDurationNumber {
                rest: rest@,
            },
            ParseError::DurationTooLarge => Fault::DurationTooLarge,
            ParseError::ExpectedDurationUnit => Fault::ExpectedDurationUnit,
            ParseError::UnknownDurationUnit { unit } => Fault::UnknownDurationUnit { unit: *unit },
            ParseError::ExpectedNumber { rest } => Fault::ExpectedNumber { rest: rest@ },
            ParseError::InvalidNumber { literal } => Fault::InvalidNumber { literal: literal@ },
            ParseError::QuantileOutOfRange { literal } => Fault::QuantileOutOfRange {
                literal: literal@,
            },
            ParseError::ExpectedExpression { rest } => Fault::ExpectedExpression { rest: rest@ },
            ParseError::TrailingInput { rest } => Fault::TrailingInput { rest: rest@ },
        }
    }
}

/// What a fault reads as. A quantile is shown as the double that it was read as;
/// where its literal is too long to tell that, as it is given to be rounded.
pub open spec fn fault_message(f: Fault, rounded: Seq<char>) -> Seq<char> {
    match f {
        Fault::Expected { literal, rest } => "expected '"@ + literal + "' at: "@ + rest,
        Fault::ExpectedIdentifier { rest } => "expected identifier at: "@ + rest,
        Fault::ExpectedQuote { rest } => "expected '\"' at: "@ + rest,
        Fault::UnterminatedString => "unterminated string"@,
        Fault::ExpectedMatchOperator => "expected '=' or '!=' after label name"@,
        Fault::ExpectedDurationNumber { rest } => "expected duration number at: "@ + rest,
        Fault::DurationTooLarge => "number too large to fit in target type"@,
        Fault::ExpectedDurationUnit => "expected duration unit"@,
        Fault::UnknownDurationUnit { unit } => "unknown duration unit '"@.push(unit) + "'"@,
        Fault::ExpectedNumber { rest } => "expected a number at: "@ + rest,
        Fault::InvalidNumber { literal } => "invalid number: "@ + literal,
        Fault::QuantileOutOfRange { literal } =>
            "histogram_quantile expects a quantile between 0 and 1, got "@ + if is_short(literal) {
                plain_form(literal)
            } else {
                rounded
            },
        Fault::ExpectedExpression { rest } => "expected expression at: "@ + rest,
        Fault::TrailingInput { rest } => "unexpected trailing input: "@ + rest,
    }
}

impl ParseError {
    /// The literal that the caller must round for the message to show it.
    pub fn unrounded(&self) -> (r: Option<String>)
        ensures
            match r {
                Some(l) => self@ matches Fault::QuantileOutOfRange { literal } && literal == l@
                    && !is_short(literal),
                None => self@ matches Fault::QuantileOutOfRange { literal } ==> is_short(literal),
            },
    {
        match self {
            ParseError::QuantileOutOfRange { literal } => match plain_number(literal.as_str()) {
                Some(_) => None,
                None => Some(literal.clone()),
            },
            _ => None,
        }
    }

    /// What is wrong, given how the literal is to be shown that must be rounded.
    pub fn message(&self, rounded: &str) -> (r: String)
        ensures
            r@ == fault_message(self@, rounded@),
    {
        let mut out = String::new();
        match self {
            ParseError::Expected { literal, rest } => {
                out.append("expected '");
                out.append(literal.as_str());
                out.append("' at: ");
                out.append(rest.as_str());
            },
            ParseError::ExpectedIdentifier { rest } => {
                out.append("expected identifier at: ");
                out.append(rest.as_str());
            },
            ParseError::ExpectedQuote { rest } => {
                out.append("expected '\"' at: ");
                out.append(rest.as_str());
            },
            ParseError::UnterminatedString => {
                out.append("unterminated string");
            },
            ParseError::ExpectedMatchOperator => {
                out.append("expected '=' or '!=' after label name");
            },
            ParseError::ExpectedDurationNumber { rest } => {
                out.append("expected duration number at: ");
                out.append(rest.as_str());
            },
            ParseError::DurationTooLarge => {
                out.append("number too large to fit in target type");
            },
            ParseError::ExpectedDurationUnit => {
                out.append("expected duration unit");
            },
            ParseError::UnknownDurationUnit { unit } => {
                out.append("unknown duration unit '");
                out.push(*unit);
                out.append("'");
            },
            ParseError::ExpectedNumber { rest } => {
                out.append("expected a number at: ");
                out.append(rest.as_str());
            },
            ParseError::InvalidNumber { literal } => {
                out.append("invalid number: ");
                out.append(literal.as_str());
            },
            ParseError::QuantileOutOfRange { literal } => {
                out.append("histogram_quantile expects a quantile between 0 and 1, got ");
                match plain_number(literal.as_str()) {
                    Some(shown) => {
                        out.append(shown.as_str());
                    },
                    None => {
                        out.append(rounded);
                    },
                }
            },
            ParseError::ExpectedExpression { rest } => {
                out.append("expected expression at: ");
                out.append(rest.as_str());
            },
            ParseError::TrailingInput { rest } => {
                out.append("unexpected trailing input: ");
                out.append(rest.as_str());
            },
        }
        assert(out@ =~= fault_message(self@, rounded@));
        out
    }
}

// ── Grammar ─────────────────────────────────────────────────────────

/// The first position at or after `pos` that holds no whitespace.
pub open spec fn after_ws(s: Seq<char>, pos: int) -> int
    decreases s.len() - pos,
{
    if 0 <= pos < s.len() && crate::text::is_whitespace(s[pos]) {
        after_ws(s, pos + 1)
    } else {
        pos
    }
}

pub open spec fn is_name_char(c: char) -> bool {
    crate::text::is_alphanumeric(c) || c == '_' || c == ':' || c == '.'
}

/// The first position at or after `pos` that holds no name character.
pub open spec fn name_end(s: Seq<char>, pos: int) -> int
    decreases s.len() - pos,
{
    if 0 <= pos < s.len() && is_name_char(s[pos]) {
        name_end(s, pos + 1)
    } else {
        pos
    }
}

pub open spec fn is_number_char(c: char) -> bool {
    crate::text::is_digit(c) || c == '.'
}

/// The first position at or after `pos` that holds neither digit nor dot.
pub open spec fn number_end(s: Seq<char>, pos: int) -> int
    decreases s.len() - pos,
{
    if 0 <= pos < s.len() && is_number_char(s[pos]) {
        number_end(s, pos + 1)
    } else {
        pos
    }
}

/// The first position at or after `pos` that holds no digit.
pub open spec fn digit_run_end(s: Seq<char>, pos: int) -> int
    decreases s.len() - pos,
{
    if 0 <= pos < s.len() && crate::text::is_digit(s[pos]) {
        digit_run_end(s, pos + 1)
    } else {
        pos
    }
}

/// Whether `lit` is the next token.
pub open spec fn next_is(s: Seq<char>, pos: int, lit: Seq<char>) -> bool {
    crate::text::starts_with_at(s, after_ws(s, pos), lit)
}

/// The position behind the next token, when that is `lit`.
pub open spec fn behind(s: Seq<char>, pos: int, lit: Seq<char>) -> int {
    after_ws(s, pos) + lit.len()
}

pub open spec fn p_expect(s: Seq<char>, pos: int, lit: Seq<char>) -> Result<int, Fault> {
    if next_is(s, pos, lit) {
        Ok(behind(s, pos, lit))
    } else {
        Err(Fault::Expected { literal: lit, rest: s.skip(after_ws(s, pos)) })
    }
}

/// A name: a non-empty run of name characters.
pub open spec fn p_ident(s: Seq<char>, pos: int) -> Result<(Seq<char>, int), Fault> {
    let start = after_ws(s, pos);
    let end = name_end(s, start);
    if end == start {
        Err(Fault::ExpectedIdentifier { rest: s.skip(start) })
    } else {
        Ok((s.subrange(start, end), end))
    }
}

/// A text between double quotes; nothing in it is escaped.
pub open spec fn p_string(s: Seq<char>, pos: int) -> Result<(Seq<char>, int), Fault> {
    let start = after_ws(s, pos);
    if !(start < s.len() && s[start] == '"') {
        Err(Fault::ExpectedQuote { rest: s.skip(start) })
    } else {
        let end = crate::text::find_char(s, start + 1, '"');
        if end >= s.len() {
            Err(Fault::UnterminatedString)
        } else {
            Ok((s.subrange(start + 1, end), end + 1))
        }
    }
}

/// One matcher: a name, `=` or `!=`, a quoted value.
pub open spec fn p_matcher(s: Seq<char>, pos: int) -> Result<(MatcherModel, int), Fault> {
    match p_ident(s, pos) {
        Err(e) => Err(e),
        Ok((name, p)) => {
            if next_is(s, p, "="@) {
                match p_string(s, behind(s, p, "="@)) {
                    Err(e) => Err(e),
                    Ok((value, q)) => Ok((MatcherModel { name, value, op: MatchOp::Eq }, q)),
                }
            } else if next_is(s, p, "!="@) {
                match p_string(s, behind(s, p, "!="@)) {
                    Err(e) => Err(e),
                    Ok((value, q)) => Ok((MatcherModel { name, value, op: MatchOp::NotEq }, q)),
                }
            } else {
                Err(Fault::ExpectedMatchOperator)
            }
        },
    }
}

/// What stands between `{` and `}`: matchers separated by commas; a comma
/// before `}` is allowed.
pub open spec fn p_matcher_list(s: Seq<char>, pos: int) -> Result<
    (Seq<MatcherModel>, int),
    Fault,
>
    decreases s.len() - pos
    when 0 <= pos <= s.len()
{
    proof {
        lemma_matcher_progress(s, pos);
        if p_matcher(s, pos) is Ok {
            lemma_next_is_progress(s, p_matcher(s, pos)->Ok_0.1, ","@);
        }
    }
    if next_is(s, pos, "}"@) {
        Ok((Seq::empty(), behind(s, pos, "}"@)))
    } else {
        match p_matcher(s, pos) {
            Err(e) => Err(e),
            Ok((m, p)) => if next_is(s, p, ","@) {
                match p_matcher_list(s, behind(s, p, ","@)) {
                    Err(e) => Err(e),
                    Ok((tail, q)) => Ok((seq![m] + tail, q)),
                }
            } else {
                match p_expect(s, p, "}"@) {
                    Err(e) => Err(e),
                    Ok(q) => Ok((seq![m], q)),
                }
            },
        }
    }
}

pub open spec fn p_matchers(s: Seq<char>, pos: int) -> Result<(Seq<MatcherModel>, int), Fault> {
    if next_is(s, pos, "{"@) {
        p_matcher_list(s, behind(s, pos, "{"@))
    } else {
        Ok((Seq::empty(), after_ws(s, pos)))
    }
}

pub open spec fn p_selector(s: Seq<char>, pos: int) -> Result<(SelectorModel, int), Fault> {
    match p_ident(s, pos) {
        Err(e) => Err(e),
        Ok((metric, p)) => match p_matchers(s, p) {
            Err(e) => Err(e),
            Ok((matchers, q)) => Ok((SelectorModel { metric, matchers }, q)),
        },
    }
}

/// How many seconds a unit stands for; nothing where the character is no unit.
pub open spec fn unit_length(unit: char) -> Option<int> {
    if unit == 's' {
        Some(1)
    } else if unit == 'm' {
        Some(60)
    } else if unit == 'h' {
        Some(3600)
    } else if unit == 'd' {
        Some(86400)
    } else {
        None
    }
}

/// The seconds in `n` of a unit. A duration of more seconds than fit is refused.
pub open spec fn unit_seconds(n: int, unit: char) -> Result<i64, Fault> {
    match unit_length(unit) {
        None => Err(Fault::UnknownDurationUnit { unit }),
        Some(length) => if i64::MIN <= n * length <= i64::MAX {
            Ok((n * length) as i64)
        } else {
            Err(Fault::DurationTooLarge)
        },
    }
}

/// A duration: digits and, right behind them, a unit.
pub open spec fn p_duration(s: Seq<char>, pos: int) -> Result<(i64, int), Fault> {
    let start = after_ws(s, pos);
    let end = digit_run_end(s, start);
    if end == start {
        Err(Fault::ExpectedDurationNumber { rest: s.skip(start) })
    } else {
        let n = crate::text::digits_value(s.subrange(start, end));
        if n > i64::MAX {
            Err(Fault::DurationTooLarge)
        } else if end >= s.len() {
            Err(Fault::ExpectedDurationUnit)
        } else {
            match unit_seconds(n as int, s[end]) {
                Ok(seconds) => Ok((seconds, end + 1)),
                Err(e) => Err(e),
            }
        }
    }
}

/// Whether a run of digits and dots is a decimal literal: at least one digit,
/// at most one dot.
pub open spec fn is_decimal_literal(t: Seq<char>) -> bool {
    &&& exists|i: int| 0 <= i < t.len() && #[trigger] crate::text::is_digit(t[i])
    &&& forall|i: int, j: int|
        0 <= i < j < t.len() ==> !(#[trigger] t[i] == '.' && #[trigger] t[j] == '.')
}

pub open spec fn p_number(s: Seq<char>, pos: int) -> Result<(Seq<char>, int), Fault> {
    let start = after_ws(s, pos);
    let end = number_end(s, start);
    if end == start {
        Err(Fault::ExpectedNumber { rest: s.skip(start) })
    } else if is_decimal_literal(s.subrange(start, end)) {
        Ok((s.subrange(start, end), end))
    } else {
        Err(Fault::InvalidNumber { literal: s.subrange(start, end) })
    }
}

/// Whether the decimal fraction `0.a` is at most `0.b`.
pub open spec fn fraction_at_most(a: Seq<char>, b: Seq<char>) -> bool
    decreases a.len(),
{
    if a.len() == 0 {
        true
    } else if b.len() == 0 {
        a[0] == '0' && fraction_at_most(a.drop_first(), b)
    } else if a[0] == b[0] {
        fraction_at_most(a.drop_first(), b.drop_first())
    } else {
        a[0] < b[0]
    }
}

/// Whether the double nearest to a decimal literal lies between 0 and 1.
///
/// A literal has no sign, so only the upper bound can fail. Rounding takes
/// everything up to 1 + 2^-53, half a unit in the last place above 1, to 1.
pub open spec fn is_quantile(literal: Seq<char>) -> bool {
    let dot = crate::text::find_char(literal, 0, '.');
    let whole = whole_digits(literal);
    let fraction = if dot < literal.len() {
        literal.skip(dot + 1)
    } else {
        Seq::empty()
    };
    ||| whole.len() == 0
    ||| whole == seq!['1'] && fraction_at_most(
        fraction,
        "00000000000000011102230246251565404236316680908203125"@,
    )
}

/// What stands between `(` and `)` in a `by` clause: names separated by
/// commas; a comma before `)` is allowed.
pub open spec fn p_name_list(s: Seq<char>, pos: int) -> Result<(Seq<Seq<char>>, int), Fault>
    decreases s.len() - pos
    when 0 <= pos <= s.len()
{
    proof {
        lemma_ident_progress(s, pos);
        if p_ident(s, pos) is Ok {
            lemma_next_is_progress(s, p_ident(s, pos)->Ok_0.1, ","@);
        }
    }
    if next_is(s, pos, ")"@) {
        Ok((Seq::empty(), behind(s, pos, ")"@)))
    } else {
        match p_ident(s, pos) {
            Err(e) => Err(e),
            Ok((name, p)) => if next_is(s, p, ","@) {
                match p_name_list(s, behind(s, p, ","@)) {
                    Err(e) => Err(e),
                    Ok((tail, q)) => Ok((seq![name] + tail, q)),
                }
            } else {
                match p_expect(s, p, ")"@) {
                    Err(e) => Err(e),
                    Ok(q) => Ok((seq![name], q)),
                }
            },
        }
    }
}

pub open spec fn p_by_clause(s: Seq<char>, pos: int) -> Result<(Seq<Seq<char>>, int), Fault> {
    match p_expect(s, pos, "("@) {
        Err(e) => Err(e),
        Ok(p) => p_name_list(s, p),
    }
}

/// A `by` clause, or nothing.
pub open spec fn p_optional_by(s: Seq<char>, pos: int) -> Result<(Seq<Seq<char>>, int), Fault> {
    if next_is(s, pos, "by"@) {
        p_by_clause(s, behind(s, pos, "by"@))
    } else {
        Ok((Seq::empty(), after_ws(s, pos)))
    }
}

/// What follows `rate`: `(selector[duration])`.
pub open spec fn p_rate(s: Seq<char>, pos: int) -> Result<(ExprModel, int), Fault> {
    match p_expect(s, pos, "("@) {
        Err(e) => Err(e),
        Ok(p) => match p_selector(s, p) {
            Err(e) => Err(e),
            Ok((selector, q)) => match p_expect(s, q, "["@) {
                Err(e) => Err(e),
                Ok(r) => match p_duration(s, r) {
                    Err(e) => Err(e),
                    Ok((range_seconds, t)) => match p_expect(s, t, "]"@) {
                        Err(e) => Err(e),
                        Ok(u) => match p_expect(s, u, ")"@) {
                            Err(e) => Err(e),
                            Ok(v) => Ok((ExprModel::Rate { selector, range_seconds }, v)),
                        },
                    },
                },
            },
        },
    }
}

/// What follows `histogram_quantile`: `(phi, selector)` and perhaps a `by`
/// clause.
pub open spec fn p_quantile(s: Seq<char>, pos: int) -> Result<(ExprModel, int), Fault> {
    match p_expect(s, pos, "("@) {
        Err(e) => Err(e),
        Ok(p) => match p_number(s, p) {
            Err(e) => Err(e),
            Ok((phi, q)) => if !is_quantile(phi) {
                Err(Fault::QuantileOutOfRange { literal: phi })
            } else {
                match p_expect(s, q, ","@) {
                    Err(e) => Err(e),
                    Ok(r) => match p_selector(s, r) {
                        Err(e) => Err(e),
                        Ok((selector, t)) => match p_expect(s, t, ")"@) {
                            Err(e) => Err(e),
                            Ok(u) => match p_optional_by(s, u) {
                                Err(e) => Err(e),
                                Ok((by, v)) => Ok(
                                    (ExprModel::HistogramQuantile { phi, selector, by }, v),
                                ),
                            },
                        },
                    },
                }
            },
        },
    }
}

pub open spec fn p_expr(s: Seq<char>, pos: int) -> Result<(ExprModel, int), Fault>
    decreases s.len() - pos
    when 0 <= pos <= s.len()
{
    proof {
        if 0 <= pos <= s.len() {
            lemma_expr_progress(s, pos);
        }
    }
    let start = after_ws(s, pos);
    match p_ident(s, start) {
        Err(_) => Err(Fault::ExpectedExpression { rest: s.skip(start) }),
        Ok((ident, p)) => if ident == "rate"@ {
            p_rate(s, p)
        } else if ident == "histogram_quantile"@ {
            p_quantile(s, p)
        } else {
            match agg_op(ident) {
                Some(op) => if next_is(s, p, "by"@) {
                    match p_by_clause(s, behind(s, p, "by"@)) {
                        Err(e) => Err(e),
                        Ok((by, q)) => match p_expect(s, q, "("@) {
                            Err(e) => Err(e),
                            Ok(r) => match p_expr(s, r) {
                                Err(e) => Err(e),
                                Ok((inner, t)) => match p_expect(s, t, ")"@) {
                                    Err(e) => Err(e),
                                    Ok(u) => Ok(
                                        (
                                            ExprModel::Aggregate {
                                                op,
                                                by,
                                                inner: Box::new(inner),
                                            },
                                            u,
                                        ),
                                    ),
                                },
                            },
                        },
                    }
                } else {
                    match p_expect(s, p, "("@) {
                        Err(e) => Err(e),
                        Ok(q) => match p_expr(s, q) {
                            Err(e) => Err(e),
                            Ok((inner, r)) => match p_expect(s, r, ")"@) {
                                Err(e) => Err(e),
                                Ok(t) => match p_optional_by(s, t) {
                                    Err(e) => Err(e),
                                    Ok((by, u)) => Ok(
                                        (
                                            ExprModel::Aggregate {
                                                op,
                                                by,
                                                inner: Box::new(inner),
                                            },
                                            u,
                                        ),
                                    ),
                                },
                            },
                        },
                    }
                },
                None => match p_matchers(s, p) {
                    Err(e) => Err(e),
                    Ok((matchers, q)) => Ok(
                        (ExprModel::Selector(SelectorModel { metric: ident, matchers }), q),
                    ),
                },
            }
        },
    }
}

/// The comparison operator at `pos`, the longest form that fits.
pub open spec fn next_compare_op(s: Seq<char>, pos: int) -> Option<CompareOp> {
    if next_is(s, pos, ">="@) {
        Some(CompareOp::Gte)
    } else if next_is(s, pos, "<="@) {
        Some(CompareOp::Lte)
    } else if next_is(s, pos, "=="@) {
        Some(CompareOp::Eq)
    } else if next_is(s, pos, "!="@) {
        Some(CompareOp::NotEq)
    } else if next_is(s, pos, ">"@) {
        Some(CompareOp::Gt)
    } else if next_is(s, pos, "<"@) {
        Some(CompareOp::Lt)
    } else {
        None
    }
}

/// The query that a text is, or why it is none.
pub open spec fn p_query(s: Seq<char>) -> Result<ExprModel, Fault> {
    match p_expr(s, 0) {
        Err(e) => Err(e),
        Ok((inner, p)) => match next_compare_op(s, p) {
            Some(op) => match p_number(s, behind(s, p, op.symbol())) {
                Err(e) => Err(e),
                Ok((threshold, q)) => if after_ws(s, q) == s.len() {
                    Ok(ExprModel::Compare { inner: Box::new(inner), op, threshold })
                } else {
                    Err(Fault::TrailingInput { rest: s.skip(after_ws(s, q)) })
                },
            },
            None => if after_ws(s, p) == s.len() {
                Ok(inner)
            } else {
                Err(Fault::TrailingInput { rest: s.skip(after_ws(s, p)) })
            },
        },
    }
}

// ── Progress ────────────────────────────────────────────────────────

pub proof fn lemma_after_ws(s: Seq<char>, pos: int)
    ensures
        pos <= after_ws(s, pos),
        0 <= pos <= s.len() ==> after_ws(s, pos) <= s.len(),
        after_ws(s, after_ws(s, pos)) == after_ws(s, pos),
    decreases s.len() - pos,
{
    if 0 <= pos < s.len() && crate::text::is_whitespace(s[pos]) {
        lemma_after_ws(s, pos + 1);
    }
}

pub proof fn lemma_name_end(s: Seq<char>, pos: int)
    ensures
        pos <= name_end(s, pos),
        0 <= pos <= s.len() ==> name_end(s, pos) <= s.len(),
    decreases s.len() - pos,
{
    if 0 <= pos < s.len() && is_name_char(s[pos]) {
        lemma_name_end(s, pos + 1);
    }
}

pub proof fn lemma_next_is_progress(s: Seq<char>, pos: int, lit: Seq<char>)
    ensures
        pos + lit.len() <= behind(s, pos, lit),
        next_is(s, pos, lit) ==> behind(s, pos, lit) <= s.len(),
{
    lemma_after_ws(s, pos);
}

pub proof fn lemma_ident_progress(s: Seq<char>, pos: int)
    ensures
        p_ident(s, pos) matches Ok((_, p)) ==> pos < p && (0 <= pos <= s.len() ==> p <= s.len()),
{
    lemma_after_ws(s, pos);
    lemma_name_end(s, after_ws(s, pos));
}

pub proof fn lemma_string_progress(s: Seq<char>, pos: int)
    ensures
        p_string(s, pos) matches Ok((_, p)) ==> pos < p && (0 <= pos <= s.len() ==> p <= s.len()),
{
    lemma_after_ws(s, pos);
    let start = after_ws(s, pos);
    lemma_find_forward(s, start + 1);
}

pub proof fn lemma_find_forward(s: Seq<char>, from: int)
    ensures
        from <= s.len() ==> from <= crate::text::find_char(s, from, '"') <= s.len(),
    decreases s.len() - from,
{
    if from < s.len() && s[from] != '"' {
        lemma_find_forward(s, from + 1);
    }
}

pub proof fn lemma_matcher_progress(s: Seq<char>, pos: int)
    ensures
        p_matcher(s, pos) matches Ok((_, p)) ==> pos < p && (0 <= pos <= s.len() ==> p <= s.len()),
{
    lemma_ident_progress(s, pos);
    if p_ident(s, pos) is Ok {
        let p = p_ident(s, pos)->Ok_0.1;
        lemma_next_is_progress(s, p, "="@);
        lemma_next_is_progress(s, p, "!="@);
        lemma_string_progress(s, behind(s, p, "="@));
        lemma_string_progress(s, behind(s, p, "!="@));
    }
}

pub proof fn lemma_name_list_progress(s: Seq<char>, pos: int)
    requires
        0 <= pos <= s.len(),
    ensures
        p_name_list(s, pos) matches Ok((_, p)) ==> pos <= p <= s.len(),
    decreases s.len() - pos,
{
    lemma_ident_progress(s, pos);
    lemma_next_is_progress(s, pos, ")"@);
    if p_ident(s, pos) is Ok {
        let p = p_ident(s, pos)->Ok_0.1;
        lemma_next_is_progress(s, p, ","@);
        lemma_next_is_progress(s, p, ")"@);
        if next_is(s, p, ","@) {
            lemma_name_list_progress(s, behind(s, p, ","@));
        }
    }
}

pub proof fn lemma_by_clause_progress(s: Seq<char>, pos: int)
    requires
        0 <= pos,
    ensures
        p_by_clause(s, pos) matches Ok((_, p)) ==> pos <= p <= s.len(),
{
    lemma_next_is_progress(s, pos, "("@);
    if next_is(s, pos, "("@) {
        lemma_name_list_progress(s, behind(s, pos, "("@));
    }
}

/// Where an expression holds another one, the inner one starts further on.
pub proof fn lemma_expr_progress(s: Seq<char>, pos: int)
    requires
        0 <= pos <= s.len(),
    ensures
        p_ident(s, after_ws(s, pos)) matches Ok((_, p)) ==> {
            &&& pos < p
            &&& p_expect(s, p, "("@) matches Ok(q) ==> pos < q <= s.len()
            &&& next_is(s, p, "by"@) ==> (p_by_clause(s, behind(s, p, "by"@)) matches Ok(
                (_, q),
            ) ==> pos < q && (p_expect(s, q, "("@) matches Ok(r) ==> pos < r <= s.len()))
        },
{
    lemma_after_ws(s, pos);
    lemma_ident_progress(s, after_ws(s, pos));
    if p_ident(s, after_ws(s, pos)) is Ok {
        let p = p_ident(s, after_ws(s, pos))->Ok_0.1;
        lemma_next_is_progress(s, p, "("@);
        lemma_next_is_progress(s, p, "by"@);
        lemma_by_clause_progress(s, behind(s, p, "by"@));
        if p_by_clause(s, behind(s, p, "by"@)) is Ok {
            let q = p_by_clause(s, behind(s, p, "by"@))->Ok_0.1;
            lemma_next_is_progress(s, q, "("@);
        }
    }
}

// ── Parser ──────────────────────────────────────────────────────────

/// A position in the characters of a query.
struct Parser {
    src: Vec<char>,
    pos: usize,
}

impl Parser {
    spec fn wf(&self) -> bool {
        self.pos <= self.src@.len()
    }

    /// Whether `self` is a later position in the same query.
    spec fn advances(&self, before: &Parser) -> bool {
        self.wf() && self.src@ == before.src@
    }

    fn new(src: &str) -> (r: Parser)
        ensures
            r.wf(),
            r.src@ == src@,
            r.pos == 0,
    {
        Parser { src: chars(src), pos: 0 }
    }

    fn rest(&self) -> (r: String)
        requires
            self.wf(),
        ensures
            r@ == self.src@.skip(self.pos as int),
    {
        let n: usize = self.src.len();
        let r = text(&self.src, self.pos, n);
        assert(r@ =~= self.src@.skip(self.pos as int));
        r
    }

    fn skip_ws(&mut self)
        requires
            old(self).wf(),
        ensures
            final(self).advances(old(self)),
            final(self).pos == after_ws(old(self).src@, old(self).pos as int),
    {
        while self.pos < self.src.len() && char_is_whitespace(self.src[self.pos])
            invariant
                self.advances(old(self)),
                after_ws(self.src@, self.pos as int) == after_ws(
                    old(self).src@,
                    old(self).pos as int,
                ),
            decreases self.src@.len() - self.pos,
        {
            self.pos = self.pos + 1;
        }
    }

    /// Skips whitespace, then takes `lit` if it is next.
    fn eat(&mut self, lit: &str) -> (r: bool)
        requires
            old(self).wf(),
        ensures
            final(self).advances(old(self)),
            r == next_is(old(self).src@, old(self).pos as int, lit@),
            r ==> final(self).pos == behind(old(self).src@, old(self).pos as int, lit@),
            !r ==> final(self).pos == after_ws(old(self).src@, old(self).pos as int),
    {
        self.skip_ws();
        if starts_at(&self.src, self.pos, lit) {
            let n: usize = chars(lit).len();
            let len: usize = self.src.len();
            assert(self.pos + n <= len);
            self.pos = self.pos + n;
            true
        } else {
            false
        }
    }

    fn expect(&mut self, lit: &str) -> (r: Result<(), ParseError>)
        requires
            old(self).wf(),
        ensures
            final(self).advances(old(self)),
            match r {
                Ok(_) => p_expect(old(self).src@, old(self).pos as int, lit@) == Ok::<int, Fault>(
                    final(self).pos as int,
                ),
                Err(e) => p_expect(old(self).src@, old(self).pos as int, lit@) == Err::<int, Fault>(
                    e@,
                ),
            },
    {
        if self.eat(lit) {
            Ok(())
        } else {
            let rest = self.rest();
            Err(ParseError::Expected { literal: lit.to_owned(), rest })
        }
    }

    /// Parse a metric or label name.
    ///
    /// `.` is accepted in addition to Prometheus's character set because
    /// OpenTelemetry metric names are dotted (`http.server.request.duration`).
    fn parse_ident(&mut self) -> (r: Result<String, ParseError>)
        requires
            old(self).wf(),
        ensures
            final(self).advances(old(self)),
            match r {
                Ok(name) => p_ident(old(self).src@, old(self).pos as int) == Ok::<
                    (Seq<char>, int),
                    Fault,
                >((name@, final(self).pos as int)),
                Err(e) => p_ident(old(self).src@, old(self).pos as int) == Err::<
                    (Seq<char>, int),
                    Fault,
                >(e@) && final(self).pos == after_ws(old(self).src@, old(self).pos as int),
            },
    {
        self.skip_ws();
        let start: usize = self.pos;
        let mut end: usize = start;
        while end < self.src.len() && is_name_part(self.src[end])
            invariant
                start <= end <= self.src@.len(),
                self.pos == start,
                self.advances(old(self)),
                name_end(self.src@, end as int) == name_end(self.src@, start as int),
            decreases self.src@.len() - end,
        {
            end = end + 1;
        }
        if end == start {
            let rest = self.rest();
            return Err(ParseError::ExpectedIdentifier { rest });
        }
        let ident = text(&self.src, start, end);
        self.pos = end;
        Ok(ident)
    }

    fn parse_string(&mut self) -> (r: Result<String, ParseError>)
        requires
            old(self).wf(),
        ensures
            final(self).advances(old(self)),
            match r {
                Ok(value) => p_string(old(self).src@, old(self).pos as int) == Ok::<
                    (Seq<char>, int),
                    Fault,
                >((value@, final(self).pos as int)),
                Err(e) => p_string(old(self).src@, old(self).pos as int) == Err::<
                    (Seq<char>, int),
                    Fault,
                >(e@),
            },
    {
        self.skip_ws();
        let start: usize = self.pos;
        let n: usize = self.src.len();
        if start >= n || self.src[start] != '"' {
            let rest = self.rest();
            return Err(ParseError::ExpectedQuote { rest });
        }
        let end: usize = find(&self.src, start + 1, '"');
        if end >= n {
            return Err(ParseError::UnterminatedString);
        }
        let value = text(&self.src, start + 1, end);
        self.pos = end + 1;
        Ok(value)
    }

    fn parse_matchers(&mut self) -> (r: Result<Vec<LabelMatcher>, ParseError>)
        requires
            old(self).wf(),
        ensures
            final(self).advances(old(self)),
            match r {
                Ok(ms) => p_matchers(old(self).src@, old(self).pos as int) == Ok::<
                    (Seq<MatcherModel>, int),
                    Fault,
                >((ms@.map_values(|m: LabelMatcher| m@), final(self).pos as int)),
                Err(e) => p_matchers(old(self).src@, old(self).pos as int) == Err::<
                    (Seq<MatcherModel>, int),
                    Fault,
                >(e@),
            },
    {
        let mut out: Vec<LabelMatcher> = Vec::new();
        assert(out@.map_values(|m: LabelMatcher| m@) =~= Seq::<MatcherModel>::empty());
        if !self.eat("{") {
            return Ok(out);
        }
        let ghost whole = p_matcher_list(self.src@, self.pos as int);
        proof {
            if whole is Ok {
                assert(Seq::<MatcherModel>::empty() + whole->Ok_0.0 =~= whole->Ok_0.0);
            }
        }
        loop
            invariant_except_break
                self.advances(old(self)),
                next_is(old(self).src@, old(self).pos as int, "{"@),
                whole == p_matcher_list(
                    old(self).src@,
                    behind(old(self).src@, old(self).pos as int, "{"@),
                ),
                match p_matcher_list(self.src@, self.pos as int) {
                    Ok((tail, q)) => whole == Ok::<(Seq<MatcherModel>, int), Fault>(
                        (out@.map_values(|m: LabelMatcher| m@) + tail, q),
                    ),
                    Err(e) => whole == Err::<(Seq<MatcherModel>, int), Fault>(e),
                },
            ensures
                self.advances(old(self)),
                next_is(old(self).src@, old(self).pos as int, "{"@),
                whole == p_matcher_list(
                    old(self).src@,
                    behind(old(self).src@, old(self).pos as int, "{"@),
                ),
                whole == Ok::<(Seq<MatcherModel>, int), Fault>(
                    (out@.map_values(|m: LabelMatcher| m@), self.pos as int),
                ),
            decreases self.src@.len() - self.pos,
        {
            let ghost at = self.pos as int;
            let ghost sofar = out@.map_values(|m: LabelMatcher| m@);
            proof {
                lemma_after_ws(self.src@, at);
                lemma_matcher_progress(self.src@, at);
                lemma_matcher_after_ws(self.src@, at);
            }
            self.skip_ws();
            if self.eat("}") {
                assert(sofar + Seq::<MatcherModel>::empty() =~= sofar);
                break ;
            }
            let name = match self.parse_ident() {
                Ok(name) => name,
                Err(e) => return Err(e),
            };
            let ghost after_name = self.pos as int;
            proof {
                lemma_after_ws(self.src@, after_name);
            }
            let op = if self.eat("=") {
                MatchOp::Eq
            } else if self.eat("!=") {
                MatchOp::NotEq
            } else {
                return Err(ParseError::ExpectedMatchOperator);
            };
            let value = match self.parse_string() {
                Ok(value) => value,
                Err(e) => return Err(e),
            };
            let m = LabelMatcher { name, value, op };
            let ghost after_matcher = self.pos as int;
            assert(p_matcher(self.src@, at) == Ok::<(MatcherModel, int), Fault>(
                (m@, after_matcher),
            ));
            out.push(m);
            assert(out@.map_values(|m: LabelMatcher| m@) =~= sofar.push(m@));
            proof {
                lemma_after_ws(self.src@, after_matcher);
                lemma_next_is_progress(self.src@, after_matcher, ","@);
                assert forall|tail: Seq<MatcherModel>|
                    #[trigger] (sofar + (seq![m@] + tail)) == sofar.push(m@) + tail by {
                    assert(sofar + (seq![m@] + tail) =~= sofar.push(m@) + tail);
                }
            }
            self.skip_ws();
            if self.eat(",") {
                continue ;
            }
            match self.expect("}") {
                Ok(_) => {},
                Err(e) => return Err(e),
            }
            assert(sofar + seq![m@] =~= sofar.push(m@));
            break ;
        }
        Ok(out)
    }

    fn parse_selector(&mut self) -> (r: Result<Selector, ParseError>)
        requires
            old(self).wf(),
        ensures
            final(self).advances(old(self)),
            match r {
                Ok(sel) => p_selector(old(self).src@, old(self).pos as int) == Ok::<
                    (SelectorModel, int),
                    Fault,
                >((sel@, final(self).pos as int)),
                Err(e) => p_selector(old(self).src@, old(self).pos as int) == Err::<
                    (SelectorModel, int),
                    Fault,
                >(e@),
            },
    {
        let metric = match self.parse_ident() {
            Ok(metric) => metric,
            Err(e) => return Err(e),
        };
        let matchers = match self.parse_matchers() {
            Ok(matchers) => matchers,
            Err(e) => return Err(e),
        };
        Ok(Selector { metric, matchers })
    }

    fn parse_duration(&mut self) -> (r: Result<i64, ParseError>)
        requires
            old(self).wf(),
        ensures
            final(self).advances(old(self)),
            match r {
                Ok(n) => p_duration(old(self).src@, old(self).pos as int) == Ok::<
                    (i64, int),
                    Fault,
                >((n, final(self).pos as int)),
                Err(e) => p_duration(old(self).src@, old(self).pos as int) == Err::<
                    (i64, int),
                    Fault,
                >(e@),
            },
    {
        self.skip_ws();
        let start: usize = self.pos;
        let end: usize = digits_end(&self.src, start);
        proof {
            lemma_digit_run_end(self.src@, start as int, end as int);
        }
        if end == start {
            let rest = self.rest();
            return Err(ParseError::ExpectedDurationNumber { rest });
        }
        let num: i64 = match digits_i64(&self.src, start, end) {
            Some(num) => num,
            None => return Err(ParseError::DurationTooLarge),
        };
        if end >= self.src.len() {
            return Err(ParseError::ExpectedDurationUnit);
        }
        let unit: char = self.src[end];
        self.pos = end + 1;
        seconds_in(num, unit)
    }

    /// Consume a comparison operator if one is next. Two-character forms are
    /// tried first so `>=` is not read as `>` followed by `=`.
    fn parse_compare_op(&mut self) -> (r: Option<CompareOp>)
        requires
            old(self).wf(),
        ensures
            final(self).advances(old(self)),
            r == next_compare_op(old(self).src@, old(self).pos as int),
            match r {
                Some(op) => final(self).pos == behind(
                    old(self).src@,
                    old(self).pos as int,
                    op.symbol(),
                ),
                None => final(self).pos == after_ws(old(self).src@, old(self).pos as int),
            },
    {
        proof {
            lemma_after_ws(self.src@, self.pos as int);
        }
        if self.eat(">=") {
            return Some(CompareOp::Gte);
        }
        if self.eat("<=") {
            return Some(CompareOp::Lte);
        }
        if self.eat("==") {
            return Some(CompareOp::Eq);
        }
        if self.eat("!=") {
            return Some(CompareOp::NotEq);
        }
        if self.eat(">") {
            return Some(CompareOp::Gt);
        }
        if self.eat("<") {
            return Some(CompareOp::Lt);
        }
        None
    }

    /// Parse a bare decimal literal.
    fn parse_number(&mut self) -> (r: Result<String, ParseError>)
        requires
            old(self).wf(),
        ensures
            final(self).advances(old(self)),
            match r {
                Ok(n) => p_number(old(self).src@, old(self).pos as int) == Ok::<
                    (Seq<char>, int),
                    Fault,
                >((n@, final(self).pos as int)),
                Err(e) => p_number(old(self).src@, old(self).pos as int) == Err::<
                    (Seq<char>, int),
                    Fault,
                >(e@),
            },
    {
        self.skip_ws();
        let start: usize = self.pos;
        let mut end: usize = start;
        let mut digits: bool = false;
        let mut dots: usize = 0;
        let ghost mut digit_at: int = 0;
        let ghost mut dot_at: int = 0;
        let ghost mut second_dot: int = 0;
        while end < self.src.len() && (char_is_digit(self.src[end]) || self.src[end] == '.')
            invariant
                start <= end <= self.src@.len(),
                self.pos == start,
                self.advances(old(self)),
                number_end(self.src@, end as int) == number_end(self.src@, start as int),
                dots <= end - start,
                digits ==> start <= digit_at < end && crate::text::is_digit(self.src@[digit_at]),
                !digits ==> forall|i: int|
                    start <= i < end ==> !crate::text::is_digit(#[trigger] self.src@[i]),
                dots == 0 ==> forall|i: int| start <= i < end ==> self.src@[i] != '.',
                dots == 1 ==> start <= dot_at < end && self.src@[dot_at] == '.' && forall|i: int|
                    start <= i < end && i != dot_at ==> self.src@[i] != '.',
                dots > 1 ==> start <= dot_at < second_dot < end && self.src@[dot_at] == '.'
                    && self.src@[second_dot] == '.',
            decreases self.src@.len() - end,
        {
            if char_is_digit(self.src[end]) {
                digits = true;
                proof {
                    digit_at = end as int;
                }
            } else {
                proof {
                    if dots == 0 {
                        dot_at = end as int;
                    } else if dots == 1 {
                        second_dot = end as int;
                    }
                }
                dots = dots + 1;
            }
            end = end + 1;
        }
        if end == start {
            let rest = self.rest();
            return Err(ParseError::ExpectedNumber { rest });
        }
        let literal = text(&self.src, start, end);
        proof {
            let t = literal@;
            assert(forall|i: int| 0 <= i < t.len() ==> t[i] == self.src@[start + i]);
            if digits {
                assert(crate::text::is_digit(t[digit_at - start]));
            }
            if dots > 1 {
                assert(t[dot_at - start] == '.' && t[second_dot - start] == '.');
            }
        }
        if !digits || dots > 1 {
            return Err(ParseError::InvalidNumber { literal });
        }
        self.pos = end;
        Ok(literal)
    }

    /// Parse the names of a `by` clause. The keyword itself is already taken.
    fn parse_by_clause(&mut self) -> (r: Result<Vec<String>, ParseError>)
        requires
            old(self).wf(),
        ensures
            final(self).advances(old(self)),
            match r {
                Ok(by) => p_by_clause(old(self).src@, old(self).pos as int) == Ok::<
                    (Seq<Seq<char>>, int),
                    Fault,
                >((crate::text::texts(by@), final(self).pos as int)),
                Err(e) => p_by_clause(old(self).src@, old(self).pos as int) == Err::<
                    (Seq<Seq<char>>, int),
                    Fault,
                >(e@),
            },
    {
        match self.expect("(") {
            Ok(_) => {},
            Err(e) => return Err(e),
        }
        let mut labels: Vec<String> = Vec::new();
        let ghost whole = p_name_list(self.src@, self.pos as int);
        assert(crate::text::texts(labels@) =~= Seq::<Seq<char>>::empty());
        proof {
            if whole is Ok {
                assert(crate::text::texts(labels@) + whole->Ok_0.0 =~= whole->Ok_0.0);
            }
        }
        loop
            invariant_except_break
                self.advances(old(self)),
                p_by_clause(old(self).src@, old(self).pos as int) == whole,
                match p_name_list(self.src@, self.pos as int) {
                    Ok((tail, q)) => whole == Ok::<(Seq<Seq<char>>, int), Fault>(
                        (crate::text::texts(labels@) + tail, q),
                    ),
                    Err(e) => whole == Err::<(Seq<Seq<char>>, int), Fault>(e),
                },
            ensures
                self.advances(old(self)),
                p_by_clause(old(self).src@, old(self).pos as int) == whole,
                whole == Ok::<(Seq<Seq<char>>, int), Fault>(
                    (crate::text::texts(labels@), self.pos as int),
                ),
            decreases self.src@.len() - self.pos,
        {
            let ghost at = self.pos as int;
            let ghost sofar = crate::text::texts(labels@);
            proof {
                lemma_after_ws(self.src@, at);
                lemma_ident_progress(self.src@, at);
            }
            self.skip_ws();
            if self.eat(")") {
                assert(sofar + Seq::<Seq<char>>::empty() =~= sofar);
                break ;
            }
            let name = match self.parse_ident() {
                Ok(name) => name,
                Err(e) => return Err(e),
            };
            let ghost model = name@;
            let ghost after_name = self.pos as int;
            labels.push(name);
            assert(crate::text::texts(labels@) =~= sofar.push(model));
            proof {
                lemma_after_ws(self.src@, after_name);
                lemma_next_is_progress(self.src@, after_name, ","@);
                assert forall|tail: Seq<Seq<char>>|
                    #[trigger] (sofar + (seq![model] + tail)) == sofar.push(model) + tail by {
                    assert(sofar + (seq![model] + tail) =~= sofar.push(model) + tail);
                }
            }
            self.skip_ws();
            if self.eat(",") {
                continue ;
            }
            match self.expect(")") {
                Ok(_) => {},
                Err(e) => return Err(e),
            }
            assert(sofar + seq![model] =~= sofar.push(model));
            break ;
        }
        Ok(labels)
    }

    /// The rest of `rate(sel[dur])` behind the keyword.
    fn parse_rate(&mut self) -> (r: Result<Expr, ParseError>)
        requires
            old(self).wf(),
        ensures
            final(self).advances(old(self)),
            agrees(r, final(self).pos as int, p_rate(old(self).src@, old(self).pos as int)),
    {
        match self.expect("(") {
            Ok(_) => {},
            Err(e) => return Err(e),
        }
        let selector = match self.parse_selector() {
            Ok(selector) => selector,
            Err(e) => return Err(e),
        };
        match self.expect("[") {
            Ok(_) => {},
            Err(e) => return Err(e),
        }
        let range_seconds: i64 = match self.parse_duration() {
            Ok(range_seconds) => range_seconds,
            Err(e) => return Err(e),
        };
        match self.expect("]") {
            Ok(_) => {},
            Err(e) => return Err(e),
        }
        match self.expect(")") {
            Ok(_) => {},
            Err(e) => return Err(e),
        }
        Ok(Expr::Rate { selector, range_seconds })
    }

    /// A `by` clause, or nothing.
    fn parse_optional_by(&mut self) -> (r: Result<Vec<String>, ParseError>)
        requires
            old(self).wf(),
        ensures
            final(self).advances(old(self)),
            match r {
                Ok(by) => p_optional_by(old(self).src@, old(self).pos as int) == Ok::<
                    (Seq<Seq<char>>, int),
                    Fault,
                >((crate::text::texts(by@), final(self).pos as int)),
                Err(e) => p_optional_by(old(self).src@, old(self).pos as int) == Err::<
                    (Seq<Seq<char>>, int),
                    Fault,
                >(e@),
            },
    {
        if self.eat("by") {
            self.parse_by_clause()
        } else {
            let none: Vec<String> = Vec::new();
            assert(crate::text::texts(none@) =~= Seq::<Seq<char>>::empty());
            Ok(none)
        }
    }

    /// The rest of `histogram_quantile(phi, sel) [by (lbl, ...)]` behind the
    /// keyword.
    fn parse_quantile(&mut self) -> (r: Result<Expr, ParseError>)
        requires
            old(self).wf(),
        ensures
            final(self).advances(old(self)),
            agrees(r, final(self).pos as int, p_quantile(old(self).src@, old(self).pos as int)),
    {
        match self.expect("(") {
            Ok(_) => {},
            Err(e) => return Err(e),
        }
        let phi = match self.parse_number() {
            Ok(phi) => phi,
            Err(e) => return Err(e),
        };
        if !quantile_in_range(phi.as_str()) {
            return Err(ParseError::QuantileOutOfRange { literal: phi });
        }
        match self.expect(",") {
            Ok(_) => {},
            Err(e) => return Err(e),
        }
        let selector = match self.parse_selector() {
            Ok(selector) => selector,
            Err(e) => return Err(e),
        };
        match self.expect(")") {
            Ok(_) => {},
            Err(e) => return Err(e),
        }
        let by = match self.parse_optional_by() {
            Ok(by) => by,
            Err(e) => return Err(e),
        };
        Ok(Expr::HistogramQuantile { phi, selector, by })
    }

    fn parse_expr(&mut self) -> (r: Result<Expr, ParseError>)
        requires
            old(self).wf(),
        ensures
            final(self).advances(old(self)),
            agrees(r, final(self).pos as int, p_expr(old(self).src@, old(self).pos as int)),
        decreases old(self).src@.len() - old(self).pos,
    {
        proof {
            lemma_expr_progress(self.src@, self.pos as int);
            lemma_after_ws(self.src@, self.pos as int);
        }
        self.skip_ws();
        let ident = match self.parse_ident() {
            Ok(ident) => ident,
            Err(_) => {
                let rest = self.rest();
                return Err(ParseError::ExpectedExpression { rest });
            },
        };
        // rate(sel[dur])
        if same(ident.as_str(), "rate") {
            return self.parse_rate();
        }
        // histogram_quantile(phi, sel) [by (lbl, ...)]
        if same(ident.as_str(), "histogram_quantile") {
            return self.parse_quantile();
        }
        // Aggregators
        if let Some(op) = AggOp::parse(ident.as_str()) {
            let ghost p = self.pos as int;
            proof {
                lemma_after_ws(self.src@, p);
            }
            // `sum by (lbl) (expr)` form
            if self.eat("by") {
                let by = match self.parse_by_clause() {
                    Ok(by) => by,
                    Err(e) => return Err(e),
                };
                match self.expect("(") {
                    Ok(_) => {},
                    Err(e) => return Err(e),
                }
                let inner = match self.parse_expr() {
                    Ok(inner) => inner,
                    Err(e) => return Err(e),
                };
                match self.expect(")") {
                    Ok(_) => {},
                    Err(e) => return Err(e),
                }
                return Ok(Expr::Aggregate { op, by, inner: Box::new(inner) });
            }
            // `sum(expr) [by (lbl)]` form
            match self.expect("(") {
                Ok(_) => {},
                Err(e) => return Err(e),
            }
            let inner = match self.parse_expr() {
                Ok(inner) => inner,
                Err(e) => return Err(e),
            };
            match self.expect(")") {
                Ok(_) => {},
                Err(e) => return Err(e),
            }
            let by = match self.parse_optional_by() {
                Ok(by) => by,
                Err(e) => return Err(e),
            };
            return Ok(Expr::Aggregate { op, by, inner: Box::new(inner) });
        }
        // Bare selector: the metric name is already taken.
        let matchers = match self.parse_matchers() {
            Ok(matchers) => matchers,
            Err(e) => return Err(e),
        };
        Ok(Expr::Selector(Selector { metric: ident, matchers }))
    }
}

/// Whether the outcome of a parse is the one that the grammar gives.
spec fn agrees(
    r: Result<Expr, ParseError>,
    pos: int,
    expected: Result<(ExprModel, int), Fault>,
) -> bool {
    match r {
        Ok(e) => expected == Ok::<(ExprModel, int), Fault>((e.model(), pos)),
        Err(e) => expected == Err::<(ExprModel, int), Fault>(e@),
    }
}

/// Whether the fraction `0.a` is at most `0.b`, where `a` starts at `from`.
fn fraction_le(a: &Vec<char>, from: usize, b: &Vec<char>) -> (r: bool)
    requires
        from <= a@.len(),
    ensures
        r == fraction_at_most(a@.skip(from as int), b@),
{
    let mut i: usize = from;
    let mut j: usize = 0;
    assert(b@.skip(0) =~= b@);
    while i < a.len()
        invariant
            from <= i <= a@.len(),
            j <= b@.len(),
            fraction_at_most(a@.skip(from as int), b@) == fraction_at_most(
                a@.skip(i as int),
                b@.skip(j as int),
            ),
        decreases a@.len() - i,
    {
        assert(a@.skip(i as int).drop_first() =~= a@.skip(i as int + 1));
        if j < b.len() {
            assert(b@.skip(j as int).drop_first() =~= b@.skip(j as int + 1));
            if a[i] != b[j] {
                return a[i] < b[j];
            }
            j = j + 1;
        } else if a[i] != '0' {
            return false;
        }
        i = i + 1;
    }
    true
}

/// Whether the double nearest to a decimal literal lies between 0 and 1.
pub fn quantile_in_range(literal: &str) -> (r: bool)
    ensures
        r == is_quantile(literal@),
{
    let v = chars(literal);
    let dot: usize = find(&v, 0, '.');
    let i: usize = first_nonzero(&v, dot);
    let ghost whole = whole_digits(literal@);
    assert(whole == v@.subrange(i as int, dot as int));
    if i == dot {
        return true;
    }
    if dot - i != 1 || v[i] != '1' {
        proof {
            if whole == seq!['1'] {
                assert(whole.len() == 1 && whole[0] == '1');
            }
        }
        return false;
    }
    assert(whole =~= seq!['1']);
    let limit = chars("00000000000000011102230246251565404236316680908203125");
    let from: usize = if dot < v.len() {
        dot + 1
    } else {
        dot
    };
    proof {
        if dot == v@.len() {
            assert(v@.skip(from as int) =~= Seq::<char>::empty());
        }
    }
    fraction_le(&v, from, &limit)
}

/// Parses a query.
pub fn parse(src: &str) -> (r: Result<Expr, ParseError>)
    ensures
        match r {
            Ok(e) => p_query(src@) == Ok::<ExprModel, Fault>(e.model()),
            Err(e) => p_query(src@) == Err::<ExprModel, Fault>(e@),
        },
{
    let mut p = Parser::new(src);
    let expr = match p.parse_expr() {
        Ok(expr) => expr,
        Err(e) => return Err(e),
    };
    proof {
        lemma_after_ws(p.src@, p.pos as int);
    }
    p.skip_ws();
    // A trailing comparison against a scalar is supported at the top level
    // only. That is what an alert rule is: "this series crossed this line".
    if let Some(op) = p.parse_compare_op() {
        let threshold = match p.parse_number() {
            Ok(threshold) => threshold,
            Err(e) => return Err(e),
        };
        p.skip_ws();
        if p.pos != p.src.len() {
            let rest = p.rest();
            return Err(ParseError::TrailingInput { rest });
        }
        return Ok(Expr::Compare { inner: Box::new(expr), op, threshold });
    }
    if p.pos != p.src.len() {
        let rest = p.rest();
        return Err(ParseError::TrailingInput { rest });
    }
    Ok(expr)
}

fn is_name_part(c: char) -> (r: bool)
    ensures
        r == is_name_char(c),
{
    char_is_alphanumeric(c) || c == '_' || c == ':' || c == '.'
}

/// The seconds in `n` of a unit. A duration of more seconds than fit is refused.
pub fn seconds_in(n: i64, unit: char) -> (r: Result<i64, ParseError>)
    ensures
        match r {
            Ok(seconds) => unit_seconds(n as int, unit) == Ok::<i64, Fault>(seconds),
            Err(e) => unit_seconds(n as int, unit) == Err::<i64, Fault>(e@),
        },
{
    let length: i64 = if unit == 's' {
        1
    } else if unit == 'm' {
        60
    } else if unit == 'h' {
        3600
    } else if unit == 'd' {
        86400
    } else {
        return Err(ParseError::UnknownDurationUnit { unit });
    };
    match n.checked_mul(length) {
        Some(seconds) => Ok(seconds),
        None => Err(ParseError::DurationTooLarge),
    }
}

proof fn lemma_digit_run_end(s: Seq<char>, start: int, end: int)
    requires
        0 <= start <= end <= s.len(),
        all_digits(s.subrange(start, end)),
        end < s.len() ==> !crate::text::is_digit(s[end]),
    ensures
        digit_run_end(s, start) == end,
    decreases end - start,
{
    if start < end {
        assert(crate::text::is_digit(s.subrange(start, end)[0]));
        assert(s.subrange(start, end).drop_first() =~= s.subrange(start + 1, end));
        assert forall|i: int| 0 <= i < s.subrange(start + 1, end).len() implies crate::text::is_digit(
            #[trigger] s.subrange(start + 1, end)[i],
        ) by {
            assert(crate::text::is_digit(s.subrange(start, end)[i + 1]));
        }
        lemma_digit_run_end(s, start + 1, end);
    }
}

/// Leading whitespace makes no difference to a matcher.
proof fn lemma_matcher_after_ws(s: Seq<char>, pos: int)
    ensures
        p_matcher(s, after_ws(s, pos)) == p_matcher(s, pos),
{
    lemma_after_ws(s, pos);
}

// ── Laws ────────────────────────────────────────────────────────────

/// Whether an expression compares nothing at any depth, and asks for no
/// quantile outside of zero to one.
pub open spec fn is_plain(e: ExprModel) -> bool
    decreases e,
{
    match e {
        ExprModel::Selector(_) => true,
        ExprModel::Rate { .. } => true,
        ExprModel::Aggregate { inner, .. } => is_plain(*inner),
        ExprModel::HistogramQuantile { phi, .. } => is_quantile(phi),
        ExprModel::Compare { .. } => false,
    }
}

/// A query compares at the top level or not at all, and what it compares, or
/// is, asks for no quantile outside of zero to one.
pub proof fn comparisons_stand_at_the_top(s: Seq<char>)
    ensures
        p_query(s) matches Ok(e) ==> match e {
            ExprModel::Compare { inner, .. } => is_plain(*inner),
            _ => is_plain(e),
        },
{
    expressions_are_plain(s, 0);
}

/// Whether only whitespace stands at and behind a position.
pub open spec fn used_up(s: Seq<char>, end: int) -> bool {
    0 <= end <= s.len() && forall|k: int|
        end <= k < s.len() ==> crate::text::is_whitespace(#[trigger] s[k])
}

/// A query uses up its input: behind the expression, or behind the number that
/// it is compared with, only whitespace stands.
pub proof fn queries_use_up_their_input(s: Seq<char>)
    ensures
        p_query(s) is Ok ==> match p_expr(s, 0) {
            Err(_) => false,
            Ok((_, p)) => match next_compare_op(s, p) {
                None => used_up(s, p),
                Some(op) => p_number(s, behind(s, p, op.symbol())) matches Ok((_, q)) && used_up(
                    s,
                    q,
                ),
            },
        },
{
    match p_expr(s, 0) {
        Ok((_, p)) => match next_compare_op(s, p) {
            None => {
                whitespace_is_used_up(s, p);
            },
            Some(op) => {
                if let Ok((_, q)) = p_number(s, behind(s, p, op.symbol())) {
                    whitespace_is_used_up(s, q);
                }
            },
        },
        Err(_) => {},
    }
}

proof fn whitespace_is_used_up(s: Seq<char>, pos: int)
    ensures
        after_ws(s, pos) == s.len() ==> used_up(s, pos),
    decreases s.len() - pos,
{
    lemma_after_ws(s, pos);
    if 0 <= pos < s.len() && crate::text::is_whitespace(s[pos]) {
        whitespace_is_used_up(s, pos + 1);
    }
}

/// An expression compares nothing, and asks for no quantile outside of zero to
/// one.
pub proof fn expressions_are_plain(s: Seq<char>, pos: int)
    requires
        0 <= pos <= s.len(),
    ensures
        p_expr(s, pos) matches Ok((e, _)) ==> is_plain(e),
    decreases s.len() - pos,
{
    lemma_expr_progress(s, pos);
    match p_ident(s, after_ws(s, pos)) {
        Ok((ident, p)) => {
            if agg_op(ident) is Some {
                if next_is(s, p, "by"@) {
                    match p_by_clause(s, behind(s, p, "by"@)) {
                        Ok((_, q)) => {
                            match p_expect(s, q, "("@) {
                                Ok(r) => {
                                    expressions_are_plain(s, r);
                                },
                                Err(_) => {},
                            }
                        },
                        Err(_) => {},
                    }
                } else {
                    match p_expect(s, p, "("@) {
                        Ok(q) => {
                            expressions_are_plain(s, q);
                        },
                        Err(_) => {},
                    }
                }
            }
        },
        Err(_) => {},
    }
}

} // verus!
