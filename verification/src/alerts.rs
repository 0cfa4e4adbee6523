//! Alert rules and their evaluation.
//!
//! The consumer of an alert is an agent: a rule evaluates an expression on a
//! schedule and, when it holds, emits an event.
//!
//! * **`for` before firing.** A rule must hold continuously for its `for`
//!   duration before it fires.
//! * **Span-derived series.** Error rate and latency are computed from spans,
//!   under names of their own, so that an alert on them needs no metric.

use crate::doubles::{bits_are_nan, is_nan_bits};
use crate::labels::Labels;
use crate::metrics::{MetricPoint, MetricType};
use crate::promql;
use crate::promql_eval::Series;
use crate::text::{copy_text, decimal_i64, find_char, opt_text, same, signed_decimal, trim, trimmed};
use crate::time::{elapsed, seconds_between, whole_seconds, Timestamp};
use vstd::prelude::*;

verus! {

/// How many recent events are kept. An agent that connects after something
/// fired still needs to see it, but this is a live feed, not an audit log.
pub const RECENT_EVENT_CAPACITY: usize = 256;

/// Where a fired alert is delivered.
#[derive(Debug, Clone, PartialEq, Eq)]
pub enum Sink {
    /// POST the event as JSON.
    Webhook { url: String },
    /// Run a command with the event in its environment.
    Exec { command: String },
}

/// A sink specification that is none.
#[derive(Debug, Clone)]
pub struct SinkError {
    pub spec: String,
}

impl SinkError {
    pub fn message(&self) -> (r: String)
        ensures
            r@ == "sink must be `webhook=<url>` or `exec=<command>`, got `"@ + self.spec@ + "`"@,
    {
        let mut out = "sink must be `webhook=<url>` or `exec=<command>`, got `".to_owned();
        out.append(self.spec.as_str());
        out.append("`");
        out
    }
}

/// The kind and the target of a `kind=target` text.
pub open spec fn sink_parts(spec: Seq<char>) -> Option<(Seq<char>, Seq<char>)> {
    let at = find_char(spec, 0, '=');
    if at < spec.len() {
        Some((spec.take(at), spec.skip(at + 1)))
    } else {
        None
    }
}

impl Sink {
    /// Whether this is the sink that a `kind=target` text specifies.
    pub open spec fn specified_by(self, spec: Seq<char>) -> bool {
        sink_parts(spec) matches Some((kind, target)) && trimmed(target).len() > 0 && match self {
            Sink::Webhook { url } => kind == "webhook"@ && url@ == trimmed(target),
            Sink::Exec { command } => kind == "exec"@ && command@ == trimmed(target),
        }
    }

    /// Parse a `kind=target` sink specification.
    pub fn parse(spec: &str) -> (r: Result<Self, SinkError>)
        ensures
            match r {
                Ok(sink) => sink.specified_by(spec@),
                Err(e) => e.spec@ == spec@ && !(sink_parts(spec@) matches Some((kind, target)) && (
                kind == "webhook"@ || kind == "exec"@) && trimmed(target).len() > 0),
            },
    {
        let v = crate::text::chars(spec);
        let at: usize = crate::text::find(&v, 0, '=');
        let n: usize = v.len();
        if at < n {
            let kind = crate::text::text(&v, 0, at);
            assert(kind@ =~= spec@.take(at as int));
            let rest = crate::text::text(&v, at + 1, n);
            assert(rest@ =~= spec@.skip(at as int + 1));
            let target = trim(rest.as_str());
            if !target.as_str().is_empty() {
                if same(kind.as_str(), "webhook") {
                    return Ok(Sink::Webhook { url: target });
                }
                if same(kind.as_str(), "exec") {
                    return Ok(Sink::Exec { command: target });
                }
            }
        }
        Err(SinkError { spec: spec.to_owned() })
    }
}

/// A stored alert rule.
#[derive(Debug, Clone)]
pub struct AlertRule {
    pub name: String,
    /// Expression, normally ending in a comparison.
    pub query: String,
    /// How long the condition must hold continuously before firing.
    pub for_seconds: i64,
    /// Lookback used when evaluating the expression.
    pub window_seconds: i64,
    pub sinks: Vec<Sink>,
    pub description: Option<String>,
    pub created_at: Timestamp,
}

/// The lookback of a rule that names none.
pub fn default_window_seconds() -> (r: i64)
    ensures
        r == 300,
{
    300
}

/// Whether a rule is currently satisfied.
#[derive(Debug, Clone, Copy, PartialEq, Eq, Structural)]
pub enum AlertState {
    /// Not satisfied.
    Okay,
    /// Satisfied, but not yet for long enough to fire.
    Pending,
    /// Satisfied for at least `for_seconds`.
    Firing,
}

impl Default for AlertState {
    fn default() -> (r: AlertState)
        ensures
            r == AlertState::Okay,
    {
        AlertState::Okay
    }
}

/// One state transition, which is what gets delivered and recorded.
#[derive(Debug)]
pub struct AlertEvent {
    pub rule: String,
    pub state: AlertState,
    pub previous_state: AlertState,
    pub at: Timestamp,
    pub query: String,
    /// The series that satisfied the comparison when this fired. Empty on a
    /// resolve, since nothing matches any more.
    pub matched: Vec<MatchedSeries>,
    pub description: Option<String>,
}

#[derive(Debug)]
pub struct MatchedSeries {
    pub metric: String,
    pub labels: Labels,
    pub value: u64,
}

pub struct MatchedModel {
    pub metric: Seq<char>,
    pub labels: Map<Seq<char>, Seq<char>>,
    pub value: u64,
}

pub struct EventModel {
    pub rule: Seq<char>,
    pub state: AlertState,
    pub previous_state: AlertState,
    pub at: Timestamp,
    pub query: Seq<char>,
    pub matched: Seq<MatchedModel>,
    pub description: Option<Seq<char>>,
}

impl View for MatchedSeries {
    type V = MatchedModel;

    open spec fn view(&self) -> MatchedModel {
        MatchedModel { metric: self.metric@, labels: self.labels@, value: self.value }
    }
}

pub open spec fn matched_models(v: Seq<MatchedSeries>) -> Seq<MatchedModel> {
    v.map_values(|m: MatchedSeries| m@)
}

impl View for AlertEvent {
    type V = EventModel;

    open spec fn view(&self) -> EventModel {
        EventModel {
            rule: self.rule@,
            state: self.state,
            previous_state: self.previous_state,
            at: self.at,
            query: self.query@,
            matched: matched_models(self.matched@),
            description: opt_text(self.description),
        }
    }
}

pub open spec fn event_models(v: Seq<AlertEvent>) -> Seq<EventModel> {
    v.map_values(|e: AlertEvent| e@)
}

impl Clone for MatchedSeries {
    fn clone(&self) -> (r: MatchedSeries)
        ensures
            r@ == self@,
    {
        MatchedSeries {
            metric: self.metric.clone(),
            labels: self.labels.clone(),
            value: self.value,
        }
    }
}

impl Clone for AlertEvent {
    fn clone(&self) -> (r: AlertEvent)
        ensures
            r@ == self@,
    {
        let mut matched: Vec<MatchedSeries> = Vec::new();
        let mut i: usize = 0;
        while i < self.matched.len()
            invariant
                i <= self.matched@.len(),
                matched_models(matched@) == matched_models(self.matched@).take(i as int),
            decreases self.matched@.len() - i,
        {
            let ghost before = matched@;
            let m = self.matched[i].clone();
            matched.push(m);
            assert(matched_models(matched@) =~= matched_models(before).push(m@));
            i = i + 1;
            assert(matched_models(matched@) =~= matched_models(self.matched@).take(i as int));
        }
        assert(matched_models(self.matched@).take(self.matched@.len() as int) =~= matched_models(
            self.matched@,
        ));
        AlertEvent {
            rule: self.rule.clone(),
            state: self.state,
            previous_state: self.previous_state,
            at: self.at,
            query: self.query.clone(),
            matched,
            description: copy_text(&self.description),
        }
    }
}

/// Where a rule stands, and when its condition first became true in the
/// current streak. The streak ends the moment the condition stops holding,
/// which is what makes `for` mean "continuously".
#[derive(Debug, Clone, Copy, PartialEq, Eq, Structural)]
pub struct RuleState {
    pub state: AlertState,
    pub satisfied_since: Option<Timestamp>,
}

/// Where a rule stands before it was ever evaluated.
pub open spec fn initial_state() -> RuleState {
    RuleState { state: AlertState::Okay, satisfied_since: None }
}

/// Where a rule stands after an evaluation at `now`.
pub open spec fn next_state(
    before: RuleState,
    satisfied: bool,
    for_seconds: i64,
    now: Timestamp,
) -> RuleState {
    if !satisfied {
        RuleState { state: AlertState::Okay, satisfied_since: None }
    } else {
        let since = match before.satisfied_since {
            Some(since) => since,
            None => now,
        };
        RuleState {
            state: if whole_seconds(elapsed(since@, now@)) >= for_seconds {
                AlertState::Firing
            } else {
                AlertState::Pending
            },
            satisfied_since: Some(since),
        }
    }
}

/// Pending is a step on the way to firing, not something worth waking a
/// consumer for.
pub open spec fn worth_reporting(previous: AlertState, next: AlertState) -> bool {
    ||| previous != AlertState::Firing && next == AlertState::Firing
    ||| previous == AlertState::Firing && next == AlertState::Okay
}

fn advance(before: RuleState, satisfied: bool, for_seconds: i64, now: Timestamp) -> (r: RuleState)
    ensures
        r == next_state(before, satisfied, for_seconds, now),
{
    if !satisfied {
        return RuleState { state: AlertState::Okay, satisfied_since: None };
    }
    let since: Timestamp = match before.satisfied_since {
        Some(since) => since,
        None => now,
    };
    let state = if seconds_between(&since, &now) >= for_seconds {
        AlertState::Firing
    } else {
        AlertState::Pending
    };
    RuleState { state, satisfied_since: Some(since) }
}

/// Rules plus their evaluation state.
#[derive(Debug)]
pub struct AlertStore {
    rules: Vec<AlertRule>,
    /// Where each evaluated rule stands, by its name.
    states: Vec<(String, RuleState)>,
    /// Recently delivered events, newest last.
    recent: Vec<AlertEvent>,
}

/// Why a rule was not added.
#[derive(Debug)]
pub enum CreateError {
    InvalidQuery { name: String, error: promql::ParseError },
    Duplicate { name: String },
}

impl CreateError {
    /// What is wrong, given how a literal of the query is to be shown that must
    /// be rounded.
    pub fn message(&self, rounded: &str) -> (r: String)
        ensures
            r@ == match self {
                CreateError::InvalidQuery { name, error } => "alert `"@ + name@
                    + "` has an invalid query: "@ + promql::fault_message(
                    error@,
                    rounded@,
                ),
                CreateError::Duplicate { name } => "an alert named `"@ + name@
                    + "` already exists"@,
            },
    {
        match self {
            CreateError::InvalidQuery { name, error } => {
                let mut out = "alert `".to_owned();
                out.append(name.as_str());
                out.append("` has an invalid query: ");
                out.append(error.message(rounded).as_str());
                out
            },
            CreateError::Duplicate { name } => {
                let mut out = "an alert named `".to_owned();
                out.append(name.as_str());
                out.append("` already exists");
                out
            },
        }
    }
}

/// What a sequence of named states holds under a name.
pub open spec fn state_under(states: Seq<(String, RuleState)>, name: Seq<char>) -> Option<RuleState>
    decreases states.len(),
{
    if states.len() == 0 {
        None
    } else if states.last().0@ == name {
        Some(states.last().1)
    } else {
        state_under(states.drop_last(), name)
    }
}

/// Whether no two names are the same.
pub open spec fn names_distinct(rules: Seq<AlertRule>) -> bool {
    forall|i: int, j: int|
        0 <= i < j < rules.len() ==> (#[trigger] rules[i]).name@ != (#[trigger] rules[j]).name@
}

pub open spec fn named(rules: Seq<AlertRule>, name: Seq<char>) -> bool {
    exists|i: int| 0 <= i < rules.len() && (#[trigger] rules[i]).name@ == name
}

/// The last events, at most as many as are kept.
pub open spec fn ring(events: Seq<EventModel>) -> Seq<EventModel> {
    if events.len() > RECENT_EVENT_CAPACITY {
        events.skip(events.len() - RECENT_EVENT_CAPACITY)
    } else {
        events
    }
}

/// The event that an evaluation gives rise to, if it is worth reporting.
pub open spec fn event_of(
    rule: AlertRule,
    before: RuleState,
    matched: Seq<MatchedModel>,
    now: Timestamp,
) -> Option<EventModel> {
    let next = next_state(before, matched.len() > 0, rule.for_seconds, now);
    if worth_reporting(before.state, next.state) {
        Some(
            EventModel {
                rule: rule.name@,
                state: next.state,
                previous_state: before.state,
                at: now,
                query: rule.query@,
                matched: if next.state == AlertState::Firing {
                    matched
                } else {
                    Seq::empty()
                },
                description: opt_text(rule.description),
            },
        )
    } else {
        None
    }
}

/// Where a rule stands, by the states of all.
pub open spec fn standing(states: Map<Seq<char>, RuleState>, name: Seq<char>) -> RuleState {
    if states.dom().contains(name) {
        states[name]
    } else {
        initial_state()
    }
}

/// The states after the first `n` rules have been evaluated. A rule whose
/// evaluation failed keeps its state.
pub open spec fn states_after(
    states: Map<Seq<char>, RuleState>,
    rules: Seq<AlertRule>,
    outcomes: Seq<Option<Vec<MatchedSeries>>>,
    now: Timestamp,
    n: int,
) -> Map<Seq<char>, RuleState>
    decreases n,
{
    if n <= 0 {
        states
    } else {
        let before = states_after(states, rules, outcomes, now, n - 1);
        match outcomes[n - 1] {
            Some(matched) => before.insert(
                rules[n - 1].name@,
                next_state(
                    standing(before, rules[n - 1].name@),
                    matched@.len() > 0,
                    rules[n - 1].for_seconds,
                    now,
                ),
            ),
            None => before,
        }
    }
}

/// The events of evaluating the first `n` rules, in order.
pub open spec fn events_after(
    states: Map<Seq<char>, RuleState>,
    rules: Seq<AlertRule>,
    outcomes: Seq<Option<Vec<MatchedSeries>>>,
    now: Timestamp,
    n: int,
) -> Seq<EventModel>
    decreases n,
{
    if n <= 0 {
        Seq::empty()
    } else {
        let events = events_after(states, rules, outcomes, now, n - 1);
        let before = states_after(states, rules, outcomes, now, n - 1);
        match outcomes[n - 1] {
            Some(matched) => match event_of(
                rules[n - 1],
                standing(before, rules[n - 1].name@),
                matched_models(matched@),
                now,
            ) {
                Some(event) => events.push(event),
                None => events,
            },
            None => events,
        }
    }
}

pub open spec fn states_map(states: Seq<(String, RuleState)>) -> Map<Seq<char>, RuleState> {
    Map::new(
        |name: Seq<char>| state_under(states, name) is Some,
        |name: Seq<char>| state_under(states, name)->0,
    )
}

spec fn state_names_distinct(states: Seq<(String, RuleState)>) -> bool {
    forall|i: int, j: int|
        0 <= i < j < states.len() ==> (#[trigger] states[i]).0@ != (#[trigger] states[j]).0@
}

proof fn state_under_at(states: Seq<(String, RuleState)>, i: int)
    requires
        state_names_distinct(states),
        0 <= i < states.len(),
    ensures
        state_under(states, states[i].0@) == Some(states[i].1),
    decreases states.len(),
{
    if i < states.len() - 1 {
        assert(states[i].0@ != states[states.len() - 1].0@);
        state_under_at(states.drop_last(), i);
    }
}

proof fn state_under_absent(states: Seq<(String, RuleState)>, name: Seq<char>)
    requires
        forall|i: int| 0 <= i < states.len() ==> (#[trigger] states[i]).0@ != name,
    ensures
        state_under(states, name) is None,
    decreases states.len(),
{
    if states.len() > 0 {
        assert(states[states.len() - 1].0@ != name);
        assert forall|i: int| 0 <= i < states.drop_last().len() implies (
        #[trigger] states.drop_last()[i]).0@ != name by {
            assert(states[i].0@ != name);
        }
        state_under_absent(states.drop_last(), name);
    }
}

proof fn state_under_present(states: Seq<(String, RuleState)>, name: Seq<char>)
    requires
        state_under(states, name) is Some,
    ensures
        exists|i: int| 0 <= i < states.len() && (#[trigger] states[i]).0@ == name,
    decreases states.len(),
{
    if states.last().0@ == name {
        assert(states[states.len() - 1].0@ == name);
    } else {
        state_under_present(states.drop_last(), name);
        let i = choose|i: int|
            0 <= i < states.drop_last().len() && (#[trigger] states.drop_last()[i]).0@ == name;
        assert(states[i].0@ == name);
    }
}

impl AlertStore {
    #[verifier::type_invariant]
    spec fn wf(self) -> bool {
        &&& state_names_distinct(self.states@)
        &&& self.recent@.len() <= RECENT_EVENT_CAPACITY
    }

    /// The rules, in the order in which they were added.
    pub closed spec fn rule_seq(self) -> Seq<AlertRule> {
        self.rules@
    }

    /// Where the evaluated rules stand.
    pub closed spec fn standings(self) -> Map<Seq<char>, RuleState> {
        states_map(self.states@)
    }

    /// The recent events, newest last.
    pub closed spec fn events(self) -> Seq<EventModel> {
        event_models(self.recent@)
    }

    /// A store with the given rules, none of them evaluated yet.
    pub fn open(rules: Vec<AlertRule>) -> (r: AlertStore)
        ensures
            r.rule_seq() == rules@,
            r.standings() == Map::<Seq<char>, RuleState>::empty(),
            r.events() == Seq::<EventModel>::empty(),
    {
        let r = AlertStore { rules, states: Vec::new(), recent: Vec::new() };
        assert(r.standings() =~= Map::<Seq<char>, RuleState>::empty());
        assert(r.events() =~= Seq::<EventModel>::empty());
        r
    }

    pub fn list(&self) -> (r: &Vec<AlertRule>)
        ensures
            r@ == self.rule_seq(),
    {
        &self.rules
    }

    /// The state of a rule, if it has been evaluated.
    pub fn state(&self, name: &str) -> (r: Option<AlertState>)
        ensures
            match r {
                Some(s) => self.standings().dom().contains(name@) && self.standings()[name@].state
                    == s,
                None => !self.standings().dom().contains(name@),
            },
    {
        match self.find_state(name) {
            Some(i) => {
                proof {
                    use_type_invariant(self);
                    state_under_at(self.states@, i as int);
                }
                Some(self.states[i].1.state)
            },
            None => {
                proof {
                    state_under_absent(self.states@, name@);
                }
                None
            },
        }
    }

    fn find_state(&self, name: &str) -> (r: Option<usize>)
        ensures
            match r {
                Some(i) => i < self.states@.len() && self.states@[i as int].0@ == name@,
                None => forall|i: int|
                    0 <= i < self.states@.len() ==> (#[trigger] self.states@[i]).0@ != name@,
            },
    {
        let mut i: usize = 0;
        while i < self.states.len()
            invariant
                i <= self.states@.len(),
                forall|j: int| 0 <= j < i ==> (#[trigger] self.states@[j]).0@ != name@,
            decreases self.states@.len() - i,
        {
            if same(self.states[i].0.as_str(), name) {
                return Some(i);
            }
            i = i + 1;
        }
        None
    }

    /// Add a rule. The query is parsed here so a typo is rejected at creation
    /// rather than silently never firing.
    pub fn create(&mut self, rule: AlertRule) -> (r: Result<(), CreateError>)
        ensures
            final(self).standings() == old(self).standings(),
            final(self).events() == old(self).events(),
            match r {
                Ok(_) => promql::p_query(rule.query@) is Ok && !named(
                    old(self).rule_seq(),
                    rule.name@,
                ) && final(self).rule_seq() == old(self).rule_seq().push(rule),
                Err(CreateError::InvalidQuery { name, error }) => name@ == rule.name@
                    && promql::p_query(rule.query@) == Err::<promql::ExprModel, promql::Fault>(
                    error@,
                ) && final(self).rule_seq() == old(self).rule_seq(),
                Err(CreateError::Duplicate { name }) => name@ == rule.name@ && promql::p_query(
                    rule.query@,
                ) is Ok && named(old(self).rule_seq(), rule.name@) && final(self).rule_seq() == old(self).rule_seq(),
            },
    {
        match promql::parse(rule.query.as_str()) {
            Ok(_) => {},
            Err(error) => return Err(CreateError::InvalidQuery { name: rule.name, error }),
        }
        let mut i: usize = 0;
        while i < self.rules.len()
            invariant
                i <= self.rules@.len(),
                *self == *old(self),
                promql::p_query(rule.query@) is Ok,
                forall|j: int| 0 <= j < i ==> (#[trigger] self.rules@[j]).name@ != rule.name@,
            decreases self.rules@.len() - i,
        {
            if same(self.rules[i].name.as_str(), rule.name.as_str()) {
                assert(self.rules@[i as int].name@ == rule.name@);
                return Err(CreateError::Duplicate { name: rule.name });
            }
            i = i + 1;
        }
        proof {
            use_type_invariant(&*self);
        }
        let mut rules: Vec<AlertRule> = Vec::new();
        std::mem::swap(&mut rules, &mut self.rules);
        rules.push(rule);
        self.rules = rules;
        Ok(())
    }

    /// Remove the rules of a name and what was known of where they stand.
    /// Returns whether there were any.
    pub fn delete(&mut self, name: &str) -> (r: bool)
        ensures
            r == named(old(self).rule_seq(), name@),
            final(self).rule_seq() == old(self).rule_seq().filter(
                |rule: AlertRule| rule.name@ != name@,
            ),
            final(self).standings() == if r {
                old(self).standings().remove(name@)
            } else {
                old(self).standings()
            },
            final(self).events() == old(self).events(),
    {
        proof {
            use_type_invariant(&*self);
        }
        let ghost all = self.rules@;
        let ghost keep = |rule: AlertRule| rule.name@ != name@;
        let mut rules: Vec<AlertRule> = Vec::new();
        std::mem::swap(&mut rules, &mut self.rules);
        let mut kept: Vec<AlertRule> = Vec::new();
        let mut removed: bool = false;
        proof {
            reveal(Seq::filter);
        }
        for rule in it: rules
            invariant
                it.seq() == all,
                keep == (|rule: AlertRule| rule.name@ != name@),
                kept@ == all.take(it.index()).filter(keep),
                removed == named(all.take(it.index()), name@),
        {
            proof {
                reveal(Seq::filter);
                let t = all.take(it.index() + 1);
                assert(t.drop_last() =~= all.take(it.index()));
                if named(all.take(it.index()), name@) {
                    let i = choose|i: int|
                        0 <= i < it.index() && (#[trigger] all.take(it.index())[i]).name@ == name@;
                    assert(t[i].name@ == name@);
                }
                if named(t, name@) {
                    let i = choose|i: int| 0 <= i < t.len() && (#[trigger] t[i]).name@ == name@;
                    if i < it.index() {
                        assert(all.take(it.index())[i].name@ == name@);
                    }
                }
                if rule.name@ == name@ {
                    assert(t[it.index()].name@ == name@);
                }
            }
            if same(rule.name.as_str(), name) {
                removed = true;
            } else {
                kept.push(rule);
            }
        }
        assert(all.take(all.len() as int) =~= all);
        self.rules = kept;
        if removed {
            self.forget(name);
        }
        removed
    }

    fn forget(&mut self, name: &str)
        ensures
            final(self).rule_seq() == old(self).rule_seq(),
            final(self).events() == old(self).events(),
            final(self).standings() == old(self).standings().remove(name@),
    {
        proof {
            use_type_invariant(&*self);
        }
        let found = self.find_state(name);
        if let Some(i) = found {
            let ghost before = self.states@;
            let mut states: Vec<(String, RuleState)> = Vec::new();
            std::mem::swap(&mut states, &mut self.states);
            let _ = states.remove(i);
            proof {
                let after = states@;
                assert(after =~= before.remove(i as int));
                assert(state_names_distinct(after)) by {
                    assert forall|a: int, b: int| 0 <= a < b < after.len() implies (
                    #[trigger] after[a]).0@ != (#[trigger] after[b]).0@ by {
                        let x = if a < i { a } else { a + 1 };
                        let y = if b < i { b } else { b + 1 };
                        assert(before[x].0@ != before[y].0@);
                    }
                }
                assert forall|n: Seq<char>| #[trigger] state_under(after, n) == if n == name@ {
                    None::<RuleState>
                } else {
                    state_under(before, n)
                } by {
                    if n == name@ {
                        assert forall|k: int| 0 <= k < after.len() implies (#[trigger] after[k]).0@
                            != n by {
                            let x = if k < i { k } else { k + 1 };
                            if x < i {
                                assert(before[x].0@ != before[i as int].0@);
                            } else {
                                assert(before[i as int].0@ != before[x].0@);
                            }
                        }
                        state_under_absent(after, n);
                    } else {
                        assert forall|x: int| 0 <= x < before.len() && (#[trigger] before[x]).0@
                            == n implies exists|k: int|
                            0 <= k < after.len() && (#[trigger] after[k]).0@ == n && after[k].1
                                == before[x].1 by {
                            let k = if x < i { x } else { x - 1 };
                            assert(after[k] == before[x]);
                        }
                        assert forall|k: int| 0 <= k < after.len() && (#[trigger] after[k]).0@
                            == n implies exists|x: int|
                            0 <= x < before.len() && (#[trigger] before[x]).0@ == n by {
                            let x = if k < i { k } else { k + 1 };
                            assert(before[x] == after[k]);
                        }
                        same_under(before, after, n);
                    }
                }
            }
            self.states = states;
            assert(self.standings() =~= old(self).standings().remove(name@)) by {
                assert forall|n: Seq<char>| #[trigger] self.standings().dom().contains(n) == old(
                    self,
                ).standings().remove(name@).dom().contains(n) by {
                    assert(state_under(self.states@, n) == if n == name@ {
                        None::<RuleState>
                    } else {
                        state_under(before, n)
                    });
                }
                assert forall|n: Seq<char>| #[trigger] self.standings().dom().contains(
                    n,
                ) implies self.standings()[n] == old(self).standings()[n] by {
                    assert(state_under(self.states@, n) == if n == name@ {
                        None::<RuleState>
                    } else {
                        state_under(before, n)
                    });
                }
            }
        } else {
            proof {
                state_under_absent(self.states@, name@);
                assert(self.standings() =~= old(self).standings().remove(name@));
            }
        }
    }

    /// Where a rule stands; one that was never evaluated is as good as new.
    fn rule_state(&self, name: &str) -> (r: RuleState)
        ensures
            r == standing(self.standings(), name@),
    {
        match self.find_state(name) {
            Some(i) => {
                proof {
                    use_type_invariant(self);
                    state_under_at(self.states@, i as int);
                }
                self.states[i].1
            },
            None => {
                proof {
                    state_under_absent(self.states@, name@);
                }
                RuleState { state: AlertState::Okay, satisfied_since: None }
            },
        }
    }

    fn set_state(&mut self, name: &str, state: RuleState)
        ensures
            final(self).rule_seq() == old(self).rule_seq(),
            final(self).events() == old(self).events(),
            final(self).standings() == old(self).standings().insert(name@, state),
    {
        proof {
            use_type_invariant(&*self);
        }
        let found = self.find_state(name);
        let ghost before = self.states@;
        let mut states: Vec<(String, RuleState)> = Vec::new();
        std::mem::swap(&mut states, &mut self.states);
        match found {
            Some(i) => {
                states.set(i, (name.to_owned(), state));
                proof {
                    let after = states@;
                    assert forall|a: int, b: int| 0 <= a < b < after.len() implies (
                    #[trigger] after[a]).0@ != (#[trigger] after[b]).0@ by {
                        assert(before[a].0@ != before[b].0@);
                    }
                    state_under_at(after, i as int);
                    assert forall|n: Seq<char>| n != name@ implies #[trigger] state_under(after, n)
                        == state_under(before, n) by {
                        assert forall|x: int| 0 <= x < before.len() && (#[trigger] before[x]).0@
                            == n implies exists|k: int|
                            0 <= k < after.len() && (#[trigger] after[k]).0@ == n && after[k].1
                                == before[x].1 by {
                            assert(after[x] == before[x]);
                        }
                        assert forall|k: int| 0 <= k < after.len() && (#[trigger] after[k]).0@
                            == n implies exists|x: int|
                            0 <= x < before.len() && (#[trigger] before[x]).0@ == n by {
                            assert(before[k] == after[k]);
                        }
                        same_under(before, after, n);
                    }
                }
            },
            None => {
                states.push((name.to_owned(), state));
                proof {
                    let after = states@;
                    assert(after.drop_last() =~= before);
                    assert forall|a: int, b: int| 0 <= a < b < after.len() implies (
                    #[trigger] after[a]).0@ != (#[trigger] after[b]).0@ by {
                        if b < before.len() {
                            assert(before[a].0@ != before[b].0@);
                        } else {
                            assert(before[a].0@ != name@);
                        }
                    }
                }
            },
        }
        self.states = states;
        assert(self.standings() =~= old(self).standings().insert(name@, state)) by {
            assert forall|n: Seq<char>| #[trigger] self.standings().dom().contains(n) == old(
                self,
            ).standings().insert(name@, state).dom().contains(n) by {
                if n != name@ {
                    assert(state_under(self.states@, n) == state_under(before, n));
                }
            }
            assert forall|n: Seq<char>| #[trigger] self.standings().dom().contains(
                n,
            ) implies self.standings()[n] == old(self).standings().insert(name@, state)[n] by {
                if n != name@ {
                    assert(state_under(self.states@, n) == state_under(before, n));
                }
            }
        }
    }

    /// Record an event among the recent ones.
    fn publish(&mut self, event: AlertEvent)
        ensures
            final(self).rule_seq() == old(self).rule_seq(),
            final(self).standings() == old(self).standings(),
            final(self).events() == ring(old(self).events().push(event@)),
    {
        proof {
            use_type_invariant(&*self);
        }
        let ghost before = self.events();
        let mut recent: Vec<AlertEvent> = Vec::new();
        std::mem::swap(&mut recent, &mut self.recent);
        if recent.len() >= RECENT_EVENT_CAPACITY {
            let _ = recent.remove(0);
        }
        recent.push(event);
        self.recent = recent;
        assert(self.events() =~= ring(before.push(event@)));
    }
}

impl AlertStore {
    /// Recent events, newest first.
    pub fn recent_events(&self, limit: usize) -> (r: Vec<&AlertEvent>)
        ensures
            r@.len() == if limit < self.events().len() {
                limit as nat
            } else {
                self.events().len()
            },
            forall|i: int|
                0 <= i < r@.len() ==> (#[trigger] r@[i])@ == self.events()[self.events().len() - 1
                    - i],
    {
        let mut out: Vec<&AlertEvent> = Vec::new();
        let n: usize = self.recent.len();
        while out.len() < limit && out.len() < n
            invariant
                n == self.recent@.len(),
                n == self.events().len(),
                out@.len() <= limit,
                out@.len() <= n,
                forall|i: int|
                    0 <= i < out@.len() ==> (#[trigger] out@[i])@ == self.events()[n - 1 - i],
            decreases n - out@.len(),
        {
            let at: usize = n - 1 - out.len();
            out.push(&self.recent[at]);
        }
        out
    }

    /// Take in the outcome of evaluating one rule. Returns the transition, if
    /// there was one worth reporting.
    fn observe(
        &mut self,
        at: usize,
        matched: Vec<MatchedSeries>,
        now: Timestamp,
    ) -> (r: Option<AlertEvent>)
        requires
            at < old(self).rule_seq().len(),
        ensures
            ({
                let rule = old(self).rule_seq()[at as int];
                let before = standing(old(self).standings(), rule.name@);
                let event = event_of(rule, before, matched_models(matched@), now);
                &&& final(self).rule_seq() == old(self).rule_seq()
                &&& final(self).standings() == old(self).standings().insert(
                    rule.name@,
                    next_state(before, matched@.len() > 0, rule.for_seconds, now),
                )
                &&& match r {
                    Some(e) => event == Some(e@) && final(self).events() == ring(
                        old(self).events().push(e@),
                    ),
                    None => event is None && final(self).events() == old(self).events(),
                }
            }),
    {
        let name = self.rules[at].name.clone();
        let query = self.rules[at].query.clone();
        let description = copy_text(&self.rules[at].description);
        let for_seconds: i64 = self.rules[at].for_seconds;
        let before = self.rule_state(name.as_str());
        let satisfied: bool = matched.len() > 0;
        let next = advance(before, satisfied, for_seconds, now);
        self.set_state(name.as_str(), next);
        assert(matched_models(matched@).len() == matched@.len());
        let report: bool = (before.state != AlertState::Firing && next.state
            == AlertState::Firing) || (before.state == AlertState::Firing && next.state
            == AlertState::Okay);
        if !report {
            return None;
        }
        let shown: Vec<MatchedSeries> = if next.state == AlertState::Firing {
            matched
        } else {
            Vec::new()
        };
        assert(next.state != AlertState::Firing ==> matched_models(shown@) =~= Seq::<
            MatchedModel,
        >::empty());
        let event = AlertEvent {
            rule: name,
            state: next.state,
            previous_state: before.state,
            at: now,
            query,
            matched: shown,
            description,
        };
        let copy = event.clone();
        self.publish(copy);
        Some(event)
    }

    /// Take in the outcome of evaluating every rule once, in the order of the
    /// rules, and return the state transitions. `None` stands for a rule that
    /// could not be evaluated: a broken rule does not stop the others.
    ///
    /// Only transitions are returned: a rule that has been firing for an hour
    /// does not report again on every tick.
    pub fn evaluate_all(
        &mut self,
        outcomes: Vec<Option<Vec<MatchedSeries>>>,
        now: Timestamp,
    ) -> (r: Vec<AlertEvent>)
        requires
            outcomes@.len() == old(self).rule_seq().len(),
        ensures
            final(self).rule_seq() == old(self).rule_seq(),
            final(self).standings() == states_after(
                old(self).standings(),
                old(self).rule_seq(),
                outcomes@,
                now,
                outcomes@.len() as int,
            ),
            event_models(r@) == events_after(
                old(self).standings(),
                old(self).rule_seq(),
                outcomes@,
                now,
                outcomes@.len() as int,
            ),
            final(self).events() == ring(old(self).events() + event_models(r@)),
    {
        proof {
            use_type_invariant(&*self);
        }
        let ghost states = self.standings();
        let ghost rules = self.rule_seq();
        let ghost all = outcomes@;
        let mut events: Vec<AlertEvent> = Vec::new();
        assert(event_models(events@) =~= Seq::<EventModel>::empty());
        assert(self.events() + event_models(events@) =~= self.events());
        let mut at: usize = 0;
        let total: usize = outcomes.len();
        for outcome in it: outcomes
            invariant
                it.seq() == all,
                total == all.len(),
                at == it.index(),
                all.len() == rules.len(),
                self.rule_seq() == rules,
                states == old(self).standings(),
                self.standings() == states_after(states, rules, all, now, at as int),
                event_models(events@) == events_after(states, rules, all, now, at as int),
                self.events() == ring(old(self).events() + event_models(events@)),
        {
            if let Some(matched) = outcome {
                if let Some(event) = self.observe(at, matched, now) {
                    let ghost before = events@;
                    let ghost past = old(self).events() + event_models(before);
                    events.push(event);
                    proof {
                        assert(event_models(events@) =~= event_models(before).push(event@));
                        assert(old(self).events() + event_models(events@) =~= past.push(event@));
                        ring_push(past, event@);
                    }
                }
            }
            at = at + 1;
        }
        events
    }
}

/// Keeping the last events step by step keeps the last of all.
proof fn ring_push(events: Seq<EventModel>, event: EventModel)
    ensures
        ring(ring(events).push(event)) == ring(events.push(event)),
{
    assert(ring(ring(events).push(event)) =~= ring(events.push(event)));
}

// ── Series that satisfy a rule ──────────────────────────────────────

pub open spec fn is_match_of(m: MatchedSeries, s: Series) -> bool {
    m.metric@ == s.metric@ && m.labels@ == s.labels@ && m.value == s.value
}

pub open spec fn has_value(s: Series) -> bool {
    !is_nan_bits(s.value)
}

/// The series that satisfy a rule's query, in order. A NaN is "no data", not a
/// threshold crossing; alerting on it would fire every time a series goes
/// quiet.
pub fn matched_series(series: Vec<Series>) -> (r: Vec<MatchedSeries>)
    ensures
        r@.len() == series@.filter(|s: Series| has_value(s)).len(),
        forall|i: int|
            0 <= i < r@.len() ==> is_match_of(
                #[trigger] r@[i],
                series@.filter(|s: Series| has_value(s))[i],
            ),
{
    let ghost keep = |s: Series| has_value(s);
    let ghost all = series@;
    let mut out: Vec<MatchedSeries> = Vec::new();
    proof {
        reveal(Seq::filter);
    }
    for s in it: series
        invariant
            it.seq() == all,
            keep == (|s: Series| has_value(s)),
            out@.len() == all.take(it.index()).filter(keep).len(),
            forall|i: int|
                0 <= i < out@.len() ==> is_match_of(
                    #[trigger] out@[i],
                    all.take(it.index()).filter(keep)[i],
                ),
    {
        proof {
            reveal(Seq::filter);
            assert(all.take(it.index() + 1).drop_last() =~= all.take(it.index()));
        }
        if !bits_are_nan(s.value) {
            out.push(MatchedSeries { metric: s.metric, labels: s.labels, value: s.value });
        }
    }
    assert(all.take(all.len() as int) =~= all);
    out
}

// ── Delivery ────────────────────────────────────────────────────────

impl AlertState {
    pub open spec fn word(self) -> Seq<char> {
        match self {
            AlertState::Okay => "ok"@,
            AlertState::Pending => "pending"@,
            AlertState::Firing => "firing"@,
        }
    }

    /// The state in a word.
    pub fn as_str(self) -> (r: &'static str)
        ensures
            r@ == self.word(),
    {
        match self {
            AlertState::Okay => "ok",
            AlertState::Pending => "pending",
            AlertState::Firing => "firing",
        }
    }
}

/// What a command finds in its environment for an event: the rule, the state,
/// and the event as JSON.
pub fn sink_env(rule: &str, state: AlertState, event: &str) -> (r: Vec<(String, String)>)
    ensures
        r@.len() == 3,
        r@[0].0@ == "TAEL_ALERT_RULE"@ && r@[0].1@ == rule@,
        r@[1].0@ == "TAEL_ALERT_STATE"@ && r@[1].1@ == state.word(),
        r@[2].0@ == "TAEL_ALERT_EVENT"@ && r@[2].1@ == event@,
{
    vec![
        ("TAEL_ALERT_RULE".to_owned(), rule.to_owned()),
        ("TAEL_ALERT_STATE".to_owned(), state.as_str().to_owned()),
        ("TAEL_ALERT_EVENT".to_owned(), event.to_owned()),
    ]
}

/// Where the first rule of a name stands; the number of rules where none does.
pub open spec fn place_of(rules: Seq<AlertRule>, name: Seq<char>, from: int) -> int
    decreases rules.len() - from,
{
    if from < 0 || from >= rules.len() {
        rules.len() as int
    } else if rules[from].name@ == name {
        from
    } else {
        place_of(rules, name, from + 1)
    }
}

impl AlertStore {
    /// The sinks that the events of a rule go to; none once the rule is gone.
    pub fn sinks_of(&self, rule: &str) -> (r: Option<&Vec<Sink>>)
        ensures
            ({
                let at = place_of(self.rule_seq(), rule@, 0);
                match r {
                    Some(sinks) => at < self.rule_seq().len() && *sinks
                        == self.rule_seq()[at].sinks,
                    None => at == self.rule_seq().len(),
                }
            }),
    {
        let mut i: usize = 0;
        while i < self.rules.len()
            invariant
                i <= self.rules@.len(),
                self.rules@ == self.rule_seq(),
                place_of(self.rule_seq(), rule@, 0) == place_of(self.rule_seq(), rule@, i as int),
            decreases self.rules@.len() - i,
        {
            if same(self.rules[i].name.as_str(), rule) {
                return Some(&self.rules[i].sinks);
            }
            i = i + 1;
        }
        None
    }
}

// ── Span-derived series ─────────────────────────────────────────────

/// Latency and errors over a window, of everything or of one service. The
/// numbers are the bits of doubles.
#[derive(Debug, Clone)]
pub struct SpanFigures {
    pub service: String,
    pub error_rate: u64,
    pub p95_ms: u64,
    pub p99_ms: u64,
    pub span_count: u64,
    pub error_count: u64,
}

pub open spec fn is_derived_point(
    p: MetricPoint,
    name: Seq<char>,
    value: u64,
    service: Seq<char>,
    window_seconds: i64,
    now: Timestamp,
) -> bool {
    &&& p.timestamp == now
    &&& p.service@ == service
    &&& p.name@ == name
    &&& p.metric_type == MetricType::Gauge
    &&& p.value == value
    &&& p.unit@.len() == 0
    &&& p.attributes@ == Map::<Seq<char>, Seq<char>>::empty().insert(
        "window_seconds"@,
        signed_decimal(window_seconds as int),
    )
    &&& p.histogram is None
}

fn derived_point(
    name: &str,
    value: u64,
    service: &str,
    window_seconds: i64,
    now: Timestamp,
) -> (r: MetricPoint)
    ensures
        is_derived_point(r, name@, value, service@, window_seconds, now),
{
    let mut attributes = Labels::new();
    attributes.insert("window_seconds".to_owned(), decimal_i64(window_seconds));
    MetricPoint {
        timestamp: now,
        service: service.to_owned(),
        name: name.to_owned(),
        metric_type: MetricType::Gauge,
        value,
        unit: String::new(),
        attributes,
        histogram: None,
    }
}

/// The span-derived series for a window: five for everything, under the
/// service name `tael` so that groupings by service do not mix the aggregate
/// in with the services, and three for each service.
pub fn span_derived_points(
    total: &SpanFigures,
    services: &Vec<SpanFigures>,
    window_seconds: i64,
    now: Timestamp,
) -> (r: Vec<MetricPoint>)
    ensures
        r@.len() == 5 + 3 * services@.len(),
        is_derived_point(
            r@[0],
            "tael:span_error_rate"@,
            total.error_rate,
            "tael"@,
            window_seconds,
            now,
        ),
        is_derived_point(r@[1], "tael:span_p95_ms"@, total.p95_ms, "tael"@, window_seconds, now),
        is_derived_point(r@[2], "tael:span_p99_ms"@, total.p99_ms, "tael"@, window_seconds, now),
        is_derived_point(r@[3], "tael:span_count"@, total.span_count, "tael"@, window_seconds, now),
        is_derived_point(
            r@[4],
            "tael:span_error_count"@,
            total.error_count,
            "tael"@,
            window_seconds,
            now,
        ),
        forall|i: int|
            0 <= i < services@.len() ==> is_derived_service(
                r@,
                5 + 3 * i,
                #[trigger] services@[i],
                window_seconds,
                now,
            ),
{
    let mut points: Vec<MetricPoint> = Vec::new();
    points.push(
        derived_point("tael:span_error_rate", total.error_rate, "tael", window_seconds, now),
    );
    points.push(derived_point("tael:span_p95_ms", total.p95_ms, "tael", window_seconds, now));
    points.push(derived_point("tael:span_p99_ms", total.p99_ms, "tael", window_seconds, now));
    points.push(derived_point("tael:span_count", total.span_count, "tael", window_seconds, now));
    points.push(
        derived_point("tael:span_error_count", total.error_count, "tael", window_seconds, now),
    );
    let ghost fleet = points@;
    assert(is_derived_point(
        fleet[0],
        "tael:span_error_rate"@,
        total.error_rate,
        "tael"@,
        window_seconds,
        now,
    ));
    assert(is_derived_point(
        fleet[1],
        "tael:span_p95_ms"@,
        total.p95_ms,
        "tael"@,
        window_seconds,
        now,
    ));
    assert(is_derived_point(
        fleet[2],
        "tael:span_p99_ms"@,
        total.p99_ms,
        "tael"@,
        window_seconds,
        now,
    ));
    assert(is_derived_point(
        fleet[3],
        "tael:span_count"@,
        total.span_count,
        "tael"@,
        window_seconds,
        now,
    ));
    assert(is_derived_point(
        fleet[4],
        "tael:span_error_count"@,
        total.error_count,
        "tael"@,
        window_seconds,
        now,
    ));
    let mut i: usize = 0;
    while i < services.len()
        invariant
            i <= services@.len(),
            fleet.len() == 5,
            points@.len() == 5 + 3 * i,
            forall|k: int| 0 <= k < 5 ==> points@[k] == fleet[k],
            forall|k: int|
                0 <= k < i ==> is_derived_service(
                    points@,
                    5 + 3 * k,
                    #[trigger] services@[k],
                    window_seconds,
                    now,
                ),
        decreases services@.len() - i,
    {
        let svc = &services[i];
        let ghost before = points@;
        let name = svc.service.as_str();
        points.push(
            derived_point("tael:span_error_rate", svc.error_rate, name, window_seconds, now),
        );
        points.push(derived_point("tael:span_p95_ms", svc.p95_ms, name, window_seconds, now));
        points.push(derived_point("tael:span_count", svc.span_count, name, window_seconds, now));
        proof {
            assert forall|k: int| 0 <= k < i implies is_derived_service(
                points@,
                5 + 3 * k,
                #[trigger] services@[k],
                window_seconds,
                now,
            ) by {
                assert(is_derived_service(before, 5 + 3 * k, services@[k], window_seconds, now));
                assert(points@[5 + 3 * k] == before[5 + 3 * k]);
                assert(points@[5 + 3 * k + 1] == before[5 + 3 * k + 1]);
                assert(points@[5 + 3 * k + 2] == before[5 + 3 * k + 2]);
            }
        }
        i = i + 1;
    }
    assert(points@[0] == fleet[0] && points@[1] == fleet[1] && points@[2] == fleet[2] && points@[3]
        == fleet[3] && points@[4] == fleet[4]);
    points
}

/// Whether three points from `at` on are those of a service.
pub open spec fn is_derived_service(
    points: Seq<MetricPoint>,
    at: int,
    svc: SpanFigures,
    window_seconds: i64,
    now: Timestamp,
) -> bool {
    &&& is_derived_point(
        points[at],
        "tael:span_error_rate"@,
        svc.error_rate,
        svc.service@,
        window_seconds,
        now,
    )
    &&& is_derived_point(
        points[at + 1],
        "tael:span_p95_ms"@,
        svc.p95_ms,
        svc.service@,
        window_seconds,
        now,
    )
    &&& is_derived_point(
        points[at + 2],
        "tael:span_count"@,
        svc.span_count,
        svc.service@,
        window_seconds,
        now,
    )
}

/// A name that is no part of what changed keeps its state.
proof fn same_under(
    before: Seq<(String, RuleState)>,
    after: Seq<(String, RuleState)>,
    n: Seq<char>,
)
    requires
        state_names_distinct(before),
        state_names_distinct(after),
        forall|i: int|
            0 <= i < before.len() && (#[trigger] before[i]).0@ == n ==> exists|k: int|
                0 <= k < after.len() && (#[trigger] after[k]).0@ == n && after[k].1 == before[i].1,
        forall|k: int|
            0 <= k < after.len() && (#[trigger] after[k]).0@ == n ==> exists|i: int|
                0 <= i < before.len() && (#[trigger] before[i]).0@ == n,
    ensures
        state_under(after, n) == state_under(before, n),
{
    if state_under(before, n) is Some {
        state_under_present(before, n);
        let i = choose|i: int| 0 <= i < before.len() && (#[trigger] before[i]).0@ == n;
        state_under_at(before, i);
        let k = choose|k: int|
            0 <= k < after.len() && (#[trigger] after[k]).0@ == n && after[k].1 == before[i].1;
        state_under_at(after, k);
    } else if state_under(after, n) is Some {
        state_under_present(after, n);
        let k = choose|k: int| 0 <= k < after.len() && (#[trigger] after[k]).0@ == n;
        let i = choose|i: int| 0 <= i < before.len() && (#[trigger] before[i]).0@ == n;
        state_under_at(before, i);
    }
}

// ── Laws ────────────────────────────────────────────────────────────

/// A rule that goes on firing reports nothing more.
pub proof fn firing_reports_once(
    rule: AlertRule,
    before: RuleState,
    matched: Seq<MatchedModel>,
    now: Timestamp,
)
    requires
        before.state == AlertState::Firing,
        next_state(before, matched.len() > 0, rule.for_seconds, now).state == AlertState::Firing,
    ensures
        event_of(rule, before, matched, now) is None,
{
}

/// Recovery after firing is reported, with no matched series; recovery from
/// anything else is not reported.
pub proof fn recovery_reports_once(rule: AlertRule, before: RuleState, now: Timestamp)
    ensures
        before.state == AlertState::Firing ==> (event_of(
            rule,
            before,
            Seq::<MatchedModel>::empty(),
            now,
        ) matches Some(e) && e.state == AlertState::Okay && e.matched.len() == 0),
        before.state != AlertState::Firing ==> event_of(
            rule,
            before,
            Seq::<MatchedModel>::empty(),
            now,
        ) is None,
        next_state(before, false, rule.for_seconds, now) == initial_state(),
{
}

/// What is reported is firing or recovery, never the wait in between.
pub proof fn pending_is_never_reported(
    rule: AlertRule,
    before: RuleState,
    matched: Seq<MatchedModel>,
    now: Timestamp,
)
    ensures
        event_of(rule, before, matched, now) matches Some(e) ==> e.state != AlertState::Pending
            && e.state != e.previous_state,
{
}

/// Where a rule stands after a series of evaluations, the first of which it
/// enters as new.
pub open spec fn state_after(
    for_seconds: i64,
    satisfied: Seq<bool>,
    instants: Seq<Timestamp>,
) -> RuleState
    decreases satisfied.len(),
{
    if satisfied.len() == 0 {
        initial_state()
    } else {
        next_state(
            state_after(for_seconds, satisfied.drop_last(), instants.drop_last()),
            satisfied.last(),
            for_seconds,
            instants.last(),
        )
    }
}

/// `for` means continuously: a rule fires only where it has been satisfied at
/// every evaluation since one that lies at least `for_seconds` back.
pub proof fn firing_was_held_continuously(
    for_seconds: i64,
    satisfied: Seq<bool>,
    instants: Seq<Timestamp>,
)
    requires
        satisfied.len() == instants.len(),
        state_after(for_seconds, satisfied, instants).state == AlertState::Firing,
    ensures
        exists|k: int| #[trigger] held_since(satisfied, k) && whole_seconds(
            elapsed(instants[k]@, instants.last()@),
        ) >= for_seconds,
{
    streak(for_seconds, satisfied, instants);
}

/// Whether every evaluation from the `k`th on was satisfied.
pub open spec fn held_since(satisfied: Seq<bool>, k: int) -> bool {
    0 <= k < satisfied.len() && forall|i: int| k <= i < satisfied.len() ==> satisfied[i]
}

/// A rule remembers the instant of the evaluation from which on it has been
/// satisfied.
proof fn streak(for_seconds: i64, satisfied: Seq<bool>, instants: Seq<Timestamp>)
    requires
        satisfied.len() == instants.len(),
    ensures
        state_after(for_seconds, satisfied, instants).satisfied_since matches Some(since)
            ==> exists|k: int| #[trigger] held_since(satisfied, k) && instants[k] == since,
        state_after(for_seconds, satisfied, instants).state == AlertState::Firing ==> exists|k: int|
         #[trigger] held_since(satisfied, k) && whole_seconds(
            elapsed(instants[k]@, instants.last()@),
        ) >= for_seconds,
    decreases satisfied.len(),
{
    if satisfied.len() > 0 {
        let init = satisfied.drop_last();
        let before = state_after(for_seconds, init, instants.drop_last());
        streak(for_seconds, init, instants.drop_last());
        if satisfied.last() {
            if let Some(since) = before.satisfied_since {
                let k = choose|k: int| #[trigger]
                    held_since(init, k) && instants.drop_last()[k] == since;
                assert(held_since(satisfied, k)) by {
                    assert forall|i: int| k <= i < satisfied.len() implies satisfied[i] by {
                        if i < init.len() {
                            assert(init[i]);
                        }
                    }
                }
                assert(instants[k] == since);
            } else {
                assert(held_since(satisfied, satisfied.len() - 1));
            }
        }
    }
}

/// One pass over all rules: what evaluating each of them gave, and when.
pub struct Pass {
    pub outcomes: Seq<Option<Vec<MatchedSeries>>>,
    pub now: Timestamp,
}

/// The states after a row of passes.
pub open spec fn after_passes(
    states: Map<Seq<char>, RuleState>,
    rules: Seq<AlertRule>,
    passes: Seq<Pass>,
) -> Map<Seq<char>, RuleState>
    decreases passes.len(),
{
    if passes.len() == 0 {
        states
    } else {
        states_after(
            after_passes(states, rules, passes.drop_last()),
            rules,
            passes.last().outcomes,
            passes.last().now,
            passes.last().outcomes.len() as int,
        )
    }
}

/// Whether a rule was satisfied in each pass that could evaluate it, in order.
pub open spec fn satisfied_in(passes: Seq<Pass>, at: int) -> Seq<bool>
    decreases passes.len(),
{
    if passes.len() == 0 {
        Seq::empty()
    } else {
        let before = satisfied_in(passes.drop_last(), at);
        match passes.last().outcomes[at] {
            Some(matched) => before.push(matched@.len() > 0),
            None => before,
        }
    }
}

/// The instants of the passes that could evaluate a rule, in order.
pub open spec fn instants_in(passes: Seq<Pass>, at: int) -> Seq<Timestamp>
    decreases passes.len(),
{
    if passes.len() == 0 {
        Seq::empty()
    } else {
        let before = instants_in(passes.drop_last(), at);
        match passes.last().outcomes[at] {
            Some(_) => before.push(passes.last().now),
            None => before,
        }
    }
}

/// A pass moves each rule by its own outcome, whatever the others do.
proof fn a_pass_moves_each_rule(
    states: Map<Seq<char>, RuleState>,
    rules: Seq<AlertRule>,
    outcomes: Seq<Option<Vec<MatchedSeries>>>,
    now: Timestamp,
    n: int,
    at: int,
)
    requires
        names_distinct(rules),
        0 <= n <= rules.len(),
        0 <= at < rules.len(),
    ensures
        standing(states_after(states, rules, outcomes, now, n), rules[at].name@) == if at < n {
            match outcomes[at] {
                Some(matched) => next_state(
                    standing(states, rules[at].name@),
                    matched@.len() > 0,
                    rules[at].for_seconds,
                    now,
                ),
                None => standing(states, rules[at].name@),
            }
        } else {
            standing(states, rules[at].name@)
        },
    decreases n,
{
    if n > 0 {
        a_pass_moves_each_rule(states, rules, outcomes, now, n - 1, at);
        if at < n - 1 {
            assert(rules[at].name@ != rules[n - 1].name@);
        } else if at >= n {
            assert(rules[n - 1].name@ != rules[at].name@);
        }
    }
}

/// After a row of passes, each rule of a store that was opened on the rules
/// stands where its own evaluations have led it. A pass that could not evaluate
/// it does not count.
pub proof fn passes_move_each_rule(rules: Seq<AlertRule>, passes: Seq<Pass>, at: int)
    requires
        names_distinct(rules),
        0 <= at < rules.len(),
        forall|k: int|
            0 <= k < passes.len() ==> (#[trigger] passes[k]).outcomes.len() == rules.len(),
    ensures
        satisfied_in(passes, at).len() == instants_in(passes, at).len(),
        standing(after_passes(Map::empty(), rules, passes), rules[at].name@) == state_after(
            rules[at].for_seconds,
            satisfied_in(passes, at),
            instants_in(passes, at),
        ),
    decreases passes.len(),
{
    if passes.len() > 0 {
        let init = passes.drop_last();
        assert forall|k: int| 0 <= k < init.len() implies (#[trigger] init[k]).outcomes.len()
            == rules.len() by {
            assert(init[k] == passes[k]);
        }
        passes_move_each_rule(rules, init, at);
        let last = passes.last();
        assert(passes[passes.len() - 1] == last);
        a_pass_moves_each_rule(
            after_passes(Map::empty(), rules, init),
            rules,
            last.outcomes,
            last.now,
            last.outcomes.len() as int,
            at,
        );
        if last.outcomes[at] is Some {
            assert(satisfied_in(passes, at).drop_last() =~= satisfied_in(init, at));
            assert(instants_in(passes, at).drop_last() =~= instants_in(init, at));
        }
    }
}

/// A rule that fires after a row of passes was satisfied in every pass that
/// could evaluate it since one that lies at least its `for_seconds` back.
pub proof fn a_firing_rule_was_held(rules: Seq<AlertRule>, passes: Seq<Pass>, at: int)
    requires
        names_distinct(rules),
        0 <= at < rules.len(),
        forall|k: int|
            0 <= k < passes.len() ==> (#[trigger] passes[k]).outcomes.len() == rules.len(),
        standing(after_passes(Map::empty(), rules, passes), rules[at].name@).state
            == AlertState::Firing,
    ensures
        exists|k: int| #[trigger] held_since(satisfied_in(passes, at), k) && whole_seconds(
            elapsed(instants_in(passes, at)[k]@, instants_in(passes, at).last()@),
        ) >= rules[at].for_seconds,
{
    passes_move_each_rule(rules, passes, at);
    firing_was_held_continuously(
        rules[at].for_seconds,
        satisfied_in(passes, at),
        instants_in(passes, at),
    );
}

/// A store that is opened on what another one lists has the same rules under
/// the same names, and none of them has been evaluated.
pub proof fn a_reopened_store_keeps_its_rules(
    store: AlertStore,
    listed: Seq<AlertRule>,
    reopened: AlertStore,
    name: Seq<char>,
)
    requires
        listed == store.rule_seq(),
        reopened.rule_seq() == listed,
        reopened.standings() == Map::<Seq<char>, RuleState>::empty(),
    ensures
        reopened.rule_seq() == store.rule_seq(),
        named(reopened.rule_seq(), name) == named(store.rule_seq(), name),
        place_of(reopened.rule_seq(), name, 0) == place_of(store.rule_seq(), name, 0),
        standing(reopened.standings(), name) == initial_state(),
{
}

/// Creating rules keeps their names distinct.
pub proof fn create_keeps_names_distinct(rules: Seq<AlertRule>, rule: AlertRule)
    requires
        names_distinct(rules),
        !named(rules, rule.name@),
    ensures
        names_distinct(rules.push(rule)),
{
    let after = rules.push(rule);
    assert forall|i: int, j: int| 0 <= i < j < after.len() implies (#[trigger] after[i]).name@ != (
    #[trigger] after[j]).name@ by {
        assert(after[i] == rules[i]);
        if j < rules.len() {
            assert(after[j] == rules[j]);
        }
    }
}

/// After a rule is deleted its name is free again.
pub proof fn delete_frees_the_name(rules: Seq<AlertRule>, name: Seq<char>)
    ensures
        !named(rules.filter(|rule: AlertRule| rule.name@ != name), name),
    decreases rules.len(),
{
    reveal(Seq::filter);
    let keep = |rule: AlertRule| rule.name@ != name;
    if rules.len() > 0 {
        delete_frees_the_name(rules.drop_last(), name);
        let left = rules.filter(keep);
        if named(left, name) {
            let i = choose|i: int| 0 <= i < left.len() && (#[trigger] left[i]).name@ == name;
            let init = rules.drop_last().filter(keep);
            if i < init.len() {
                assert(init[i].name@ == name);
            }
        }
    }
}

/// A rule that is satisfied at every evaluation from one on, and still is when
/// the time that it must hold has passed since that one, fires. The evaluations
/// before it are to lie at least as far back, as they do where clocks do not.
pub proof fn what_is_held_long_enough_fires(
    for_seconds: i64,
    satisfied: Seq<bool>,
    instants: Seq<Timestamp>,
    k: int,
)
    requires
        satisfied.len() == instants.len(),
        0 <= k < satisfied.len(),
        forall|i: int| k <= i < satisfied.len() ==> satisfied[i],
        forall|i: int|
            0 <= i <= k ==> whole_seconds(elapsed((#[trigger] instants[i])@, instants.last()@))
                >= whole_seconds(elapsed(instants[k]@, instants.last()@)),
    ensures
        whole_seconds(elapsed(instants[k]@, instants.last()@)) >= for_seconds ==> state_after(
            for_seconds,
            satisfied,
            instants,
        ).state == AlertState::Firing,
{
    streak_began(for_seconds, satisfied, instants, k);
}

/// The streak that stands began no later than where the rule was satisfied on.
proof fn streak_began(
    for_seconds: i64,
    satisfied: Seq<bool>,
    instants: Seq<Timestamp>,
    k: int,
)
    requires
        satisfied.len() == instants.len(),
        0 <= k < satisfied.len(),
        forall|i: int| k <= i < satisfied.len() ==> satisfied[i],
    ensures
        exists|j: int|
            0 <= j <= k && state_after(for_seconds, satisfied, instants).satisfied_since == Some(
                #[trigger] instants[j],
            ),
        state_after(for_seconds, satisfied, instants).satisfied_since matches Some(since)
            && (state_after(for_seconds, satisfied, instants).state == AlertState::Firing
            <==> whole_seconds(elapsed(since@, instants.last()@)) >= for_seconds),
        (k == 0 || !satisfied[k - 1]) ==> state_after(for_seconds, satisfied, instants).satisfied_since
            == Some(instants[k]),
    decreases satisfied.len(),
{
    let init = satisfied.drop_last();
    let times = instants.drop_last();
    let n = init.len() as int;
    assert(satisfied[n]);
    if k < n {
        assert forall|i: int| k <= i < init.len() implies init[i] by {
            assert(init[i] == satisfied[i]);
        }
        streak_began(for_seconds, init, times, k);
        let j = choose|j: int|
            0 <= j <= k && state_after(for_seconds, init, times).satisfied_since == Some(
                #[trigger] times[j],
            );
        assert(instants[j] == times[j]);
        if k > 0 {
            assert(init[k - 1] == satisfied[k - 1]);
        }
    } else {
        if k > 0 && satisfied[k - 1] {
            assert(init[k - 1]);
            streak_began(for_seconds, init, times, k - 1);
            let j = choose|j: int|
                0 <= j <= k - 1 && state_after(for_seconds, init, times).satisfied_since == Some(
                    #[trigger] times[j],
                );
            assert(instants[j] == times[j]);
        } else {
            if k > 0 {
                let last = init.len() - 1;
                assert(!init.last());
            }
            assert(state_after(for_seconds, init, times).satisfied_since is None);
            assert(instants[k] == instants.last());
        }
    }
}

/// Where a streak began decides: a rule satisfied from one evaluation on, and not
/// at the one before, fires exactly when the time that it must hold has passed
/// since, and is pending until then; one not satisfied is neither.
pub proof fn streaks_decide(
    for_seconds: i64,
    satisfied: Seq<bool>,
    instants: Seq<Timestamp>,
    k: int,
)
    requires
        satisfied.len() == instants.len(),
        0 < satisfied.len(),
    ensures
        !satisfied.last() ==> state_after(for_seconds, satisfied, instants).state
            == AlertState::Okay,
        0 <= k < satisfied.len() && (forall|i: int| k <= i < satisfied.len() ==> satisfied[i]) && (k
            == 0 || !satisfied[k - 1]) ==> state_after(for_seconds, satisfied, instants).state == if
            whole_seconds(elapsed(instants[k]@, instants.last()@)) >= for_seconds {
            AlertState::Firing
        } else {
            AlertState::Pending
        },
{
    if 0 <= k < satisfied.len() && (forall|i: int| k <= i < satisfied.len() ==> satisfied[i]) && (k
        == 0 || !satisfied[k - 1]) {
        streak_began(for_seconds, satisfied, instants, k);
        assert(satisfied[satisfied.len() - 1]);
    }
}

/// A rule fires after the passes that it held through: satisfied at every
/// evaluation from one on, and not before, it fires exactly when the time that it
/// must hold has passed since.
pub proof fn a_rule_that_held_fires(rules: Seq<AlertRule>, passes: Seq<Pass>, at: int, k: int)
    requires
        names_distinct(rules),
        0 <= at < rules.len(),
        forall|i: int|
            0 <= i < passes.len() ==> (#[trigger] passes[i]).outcomes.len() == rules.len(),
        0 <= k < satisfied_in(passes, at).len(),
        forall|i: int|
            k <= i < satisfied_in(passes, at).len() ==> #[trigger] satisfied_in(passes, at)[i],
        k == 0 || !satisfied_in(passes, at)[k - 1],
    ensures
        standing(after_passes(Map::empty(), rules, passes), rules[at].name@).state == if whole_seconds(
            elapsed(instants_in(passes, at)[k]@, instants_in(passes, at).last()@),
        ) >= rules[at].for_seconds {
            AlertState::Firing
        } else {
            AlertState::Pending
        },
{
    passes_move_each_rule(rules, passes, at);
    as_many_instants(passes, at);
    assert forall|i: int| k <= i < satisfied_in(passes, at).len() implies satisfied_in(
        passes,
        at,
    )[i] by {}
    streaks_decide(
        rules[at].for_seconds,
        satisfied_in(passes, at),
        instants_in(passes, at),
        k,
    );
}

proof fn as_many_instants(passes: Seq<Pass>, at: int)
    ensures
        satisfied_in(passes, at).len() == instants_in(passes, at).len(),
    decreases passes.len(),
{
    if passes.len() > 0 {
        as_many_instants(passes.drop_last(), at);
    }
}

/// Each evaluation of a rule is one of the passes in which it was evaluated, and
/// says whether any series matched then.
pub proof fn evaluations_are_passes(passes: Seq<Pass>, at: int, n: int)
    requires
        0 <= n < satisfied_in(passes, at).len(),
    ensures
        satisfied_in(passes, at).len() == instants_in(passes, at).len(),
        exists|p: int|
            0 <= p < passes.len() && (#[trigger] passes[p]).outcomes[at] is Some
                && satisfied_in(passes, at)[n] == (passes[p].outcomes[at]->0@.len() > 0)
                && instants_in(passes, at)[n] == passes[p].now,
    decreases passes.len(),
{
    as_many_instants(passes, at);
    let init = passes.drop_last();
    as_many_instants(init, at);
    if n < satisfied_in(init, at).len() {
        evaluations_are_passes(init, at, n);
        let p = choose|p: int|
            0 <= p < init.len() && (#[trigger] init[p]).outcomes[at] is Some && satisfied_in(
                init,
                at,
            )[n] == (init[p].outcomes[at]->0@.len() > 0) && instants_in(init, at)[n] == init[p].now;
        assert(passes[p] == init[p]);
    } else {
        assert(passes[passes.len() - 1] == passes.last());
    }
}

/// An event says of which rule it is, what the rule asks, where it stood and
/// where it stands, when, and which series matched if it fires.
pub proof fn events_tell_what_happened(
    rule: AlertRule,
    before: RuleState,
    matched: Seq<MatchedModel>,
    now: Timestamp,
)
    ensures
        event_of(rule, before, matched, now) matches Some(e) ==> {
            &&& e.rule == rule.name@
            &&& e.query == rule.query@
            &&& e.previous_state == before.state
            &&& e.at == now
            &&& e.state == AlertState::Firing || e.state == AlertState::Okay
            &&& e.state == AlertState::Firing ==> matched.len() > 0 && e.matched == matched
                && before.state != AlertState::Firing
            &&& e.state == AlertState::Okay ==> matched.len() == 0 && e.matched.len() == 0
                && before.state == AlertState::Firing
            &&& match rule.description {
                Some(d) => e.description == Some(d@),
                None => e.description is None,
            }
        },
        before.state == AlertState::Firing && matched.len() == 0 ==> event_of(
            rule,
            before,
            matched,
            now,
        ) is Some,
        before.state != AlertState::Firing && matched.len() > 0 && rule.for_seconds <= 0
            && before.satisfied_since is None ==> event_of(rule, before, matched, now) is Some,
{
}

/// A sink reads as it is written: `webhook=` stands before a URL, `exec=` before a
/// command.
pub proof fn sinks_read_as_written(sink: Sink, target: Seq<char>)
    requires
        trimmed(target) == target,
        target.len() > 0,
    ensures
        sink.specified_by("webhook="@ + target) <==> (sink matches Sink::Webhook { url } && url@
            == target),
        sink.specified_by("exec="@ + target) <==> (sink matches Sink::Exec { command } && command@
            == target),
{
    reveal_strlit("webhook=");
    reveal_strlit("exec=");
    reveal_strlit("webhook");
    reveal_strlit("exec");
    parted_at_equals("webhook"@, target);
    parted_at_equals("exec"@, target);
    assert("webhook="@ =~= "webhook"@ + seq!['=']);
    assert("exec="@ =~= "exec"@ + seq!['=']);
    assert("webhook"@.len() == 7 && "exec"@.len() == 4);
}

proof fn parted_at_equals(kind: Seq<char>, target: Seq<char>)
    requires
        forall|i: int| 0 <= i < kind.len() ==> #[trigger] kind[i] != '=',
    ensures
        sink_parts(kind + seq!['='] + target) == Some((kind, target)),
{
    let s = kind + seq!['='] + target;
    crate::text::the_first_place_is_found(s, 0, '=');
    let at = find_char(s, 0, '=');
    if at < kind.len() {
        assert(s[at] == kind[at]);
    } else if at > kind.len() {
        assert(s[kind.len() as int] == '=');
    }
    assert(s.take(at) =~= kind);
    assert(s.skip(at + 1) =~= target);
}

/// The recent events are the newest ones, in order, as many as are kept.
pub proof fn the_newest_events_are_kept(events: Seq<EventModel>, e: EventModel)
    ensures
        ring(events.push(e)).len() > 0 && ring(events.push(e)).last() == e,
        ring(events).len() <= events.len(),
        forall|i: int|
            0 <= i < ring(events).len() ==> #[trigger] ring(events)[i] == events[events.len()
                - ring(events).len() + i],
        events.len() <= RECENT_EVENT_CAPACITY ==> ring(events) == events,
{
}

/// A rule that could not be evaluated stays where it stood and reports nothing.
pub proof fn what_was_not_evaluated_stays(
    states: Map<Seq<char>, RuleState>,
    rules: Seq<AlertRule>,
    outcomes: Seq<Option<Vec<MatchedSeries>>>,
    now: Timestamp,
    n: int,
)
    requires
        0 < n <= outcomes.len(),
        outcomes[n - 1] is None,
    ensures
        states_after(states, rules, outcomes, now, n) == states_after(
            states,
            rules,
            outcomes,
            now,
            n - 1,
        ),
        events_after(states, rules, outcomes, now, n) == events_after(
            states,
            rules,
            outcomes,
            now,
            n - 1,
        ),
{
}

/// A match shows the series that it is of; a series without a number matches
/// nothing. Each state is told by its word.
pub proof fn matches_show_their_series(m: MatchedSeries, s: Series)
    requires
        is_match_of(m, s),
    ensures
        m.metric@ == s.metric@ && m.labels@ == s.labels@ && m.value == s.value,
        is_nan_bits(s.value) <==> !has_value(s),
        AlertState::Okay.word() == "ok"@ && AlertState::Pending.word() == "pending"@
            && AlertState::Firing.word() == "firing"@,
{
}

/// Where a rule is found is where its name first stands.
pub proof fn rules_are_found_by_name(rules: Seq<AlertRule>, name: Seq<char>, from: int)
    requires
        0 <= from <= rules.len(),
    ensures
        from <= place_of(rules, name, from) <= rules.len(),
        place_of(rules, name, from) < rules.len() ==> rules[place_of(rules, name, from)].name@
            == name,
        forall|k: int|
            from <= k < place_of(rules, name, from) ==> (#[trigger] rules[k]).name@ != name,
    decreases rules.len() - from,
{
    if from < rules.len() && rules[from].name@ != name {
        rules_are_found_by_name(rules, name, from + 1);
    }
}

/// A derived figure is a gauge under its name, of its service, at the instant of
/// the pass, over the window that it says.
pub proof fn derived_figures_say_their_window(
    p: MetricPoint,
    name: Seq<char>,
    value: u64,
    service: Seq<char>,
    window_seconds: i64,
    now: Timestamp,
)
    requires
        is_derived_point(p, name, value, service, window_seconds, now),
    ensures
        p.name@ == name && p.value == value && p.service@ == service && p.timestamp == now,
        p.attributes@.dom().contains("window_seconds"@) && crate::text::signed_literal(
            p.attributes@["window_seconds"@],
        ) == Some(window_seconds as int),
{
    crate::text::signed_decimal_reads_back(window_seconds as int);
}

/// Of a service its error rate, its slow end and its number of spans are shown,
/// each under its own name.
pub proof fn services_are_shown_by_figure(
    points: Seq<MetricPoint>,
    at: int,
    svc: SpanFigures,
    window_seconds: i64,
    now: Timestamp,
    k: int,
)
    requires
        is_derived_service(points, at, svc, window_seconds, now),
        at <= k < at + 3,
    ensures
        points[k].service@ == svc.service@,
        points[k].name@ == "tael:span_error_rate"@ ==> points[k].value == svc.error_rate,
        points[k].name@ == "tael:span_p95_ms"@ ==> points[k].value == svc.p95_ms,
        points[k].name@ == "tael:span_count"@ ==> points[k].value == svc.span_count,
{
    reveal_strlit("tael:span_error_rate");
    reveal_strlit("tael:span_p95_ms");
    reveal_strlit("tael:span_count");
    assert("tael:span_error_rate"@.len() == 20 && "tael:span_p95_ms"@.len() == 16
        && "tael:span_count"@.len() == 15);
}

} // verus!
