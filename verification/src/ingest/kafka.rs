//! The broker buffer: what is published to a topic, and how a consumer gets
//! through it.

use crate::auth::{Principal, Role};
use crate::config::{csv_items, parse_csv};
use crate::ingest::otlp_http::ServiceCode;
use crate::labels::Labels;
use crate::spans::{under};
use crate::text::{bytes_of, decimal_i64, is_blank, lowered, parse_i64, same, signed_decimal, signed_literal, texts, to_lower, trim, trimmed};
use vstd::prelude::*;
use vstd::utf8::{decode_utf8, encode_utf8, valid_utf8};

verus! {

// ── Settings ────────────────────────────────────────────────────────

#[derive(Debug, Clone, Copy, PartialEq, Eq, Structural)]
pub enum KafkaMode {
    Produce,
    Consume,
}

/// What the `TAEL_KAFKA_*` variables say.
#[derive(Debug)]
pub struct KafkaSettings {
    pub mode: KafkaMode,
    /// Bootstrap brokers.
    pub brokers: Vec<String>,
    pub topic: String,
    /// The partitions that a consumer owns.
    pub partitions: Vec<i32>,
}

/// What is wrong with the variables.
#[derive(Debug)]
pub enum KafkaError {
    UnknownMode(String),
    NoBrokers,
    BadPartition,
    NoPartitions,
}

impl KafkaError {
    pub open spec fn text(self) -> Seq<char> {
        match self {
            KafkaError::UnknownMode(m) => "TAEL_KAFKA_MODE must be `produce` or `consume`, got `"@
                + m@ + "`"@,
            KafkaError::NoBrokers => "TAEL_KAFKA_MODE is set but TAEL_KAFKA_BROKERS is empty"@,
            KafkaError::BadPartition => "parsing TAEL_KAFKA_PARTITIONS"@,
            KafkaError::NoPartitions =>
                "TAEL_KAFKA_MODE=consume requires TAEL_KAFKA_PARTITIONS=<0,1,…> — partition ownership is explicit (one consumer per partition), not group-assigned"@,
        }
    }

    pub fn message(&self) -> (r: String)
        ensures
            r@ == self.text(),
    {
        match self {
            KafkaError::UnknownMode(m) => {
                let mut s = "TAEL_KAFKA_MODE must be `produce` or `consume`, got `".to_owned();
                s.append(m.as_str());
                s.append("`");
                s
            },
            KafkaError::NoBrokers =>
                "TAEL_KAFKA_MODE is set but TAEL_KAFKA_BROKERS is empty".to_owned(),
            KafkaError::BadPartition => "parsing TAEL_KAFKA_PARTITIONS".to_owned(),
            KafkaError::NoPartitions =>
                "TAEL_KAFKA_MODE=consume requires TAEL_KAFKA_PARTITIONS=<0,1,…> — partition ownership is explicit (one consumer per partition), not group-assigned".to_owned(),
        }
    }
}

/// The mode that a word asks for; nothing where it is none of the known ones.
pub open spec fn mode_named(w: Seq<char>) -> Option<KafkaMode> {
    if w == "produce"@ || w == "producer"@ || w == "publish"@ {
        Some(KafkaMode::Produce)
    } else if w == "consume"@ || w == "consumer"@ {
        Some(KafkaMode::Consume)
    } else {
        None
    }
}

/// The word in the mode's variable, trimmed and in lower case; nothing where it
/// is unset or blank.
pub open spec fn mode_word(env: Map<Seq<char>, Seq<char>>) -> Option<Seq<char>> {
    match under(env, "TAEL_KAFKA_MODE"@) {
        Some(m) => if trimmed(m).len() == 0 {
            None
        } else {
            Some(lowered(trimmed(m)))
        },
        None => None,
    }
}

pub open spec fn items_under(env: Map<Seq<char>, Seq<char>>, name: Seq<char>) -> Seq<Seq<char>> {
    match under(env, name) {
        Some(v) => csv_items(v),
        None => csv_items(Seq::empty()),
    }
}

pub open spec fn topic_in(env: Map<Seq<char>, Seq<char>>) -> Seq<char> {
    match under(env, "TAEL_KAFKA_TOPIC"@) {
        Some(t) => if trimmed(t).len() == 0 {
            "tael-ingest"@
        } else {
            t
        },
        None => "tael-ingest"@,
    }
}

/// A partition's number.
pub open spec fn partition_named(s: Seq<char>) -> Option<i32> {
    match signed_literal(s) {
        Some(n) => if i32::MIN <= n <= i32::MAX {
            Some(n as i32)
        } else {
            None
        },
        None => None,
    }
}

/// The partitions in a list; nothing where one of them is no number.
pub open spec fn partitions_named(items: Seq<Seq<char>>) -> Option<Seq<i32>>
    decreases items.len(),
{
    if items.len() == 0 {
        Some(Seq::empty())
    } else {
        match (partitions_named(items.drop_last()), partition_named(items.last())) {
            (Some(before), Some(p)) => Some(before.push(p)),
            _ => None,
        }
    }
}

fn csv_under(env: &Labels, name: &str) -> (r: Vec<String>)
    ensures
        texts(r@) == items_under(env@, name@),
{
    match env.get(name) {
        Some(v) => parse_csv(v.as_str()),
        None => {
            let none = String::new();
            assert(none@ =~= Seq::<char>::empty());
            parse_csv(none.as_str())
        },
    }
}

proof fn one_bad_partition(items: Seq<Seq<char>>, i: int)
    requires
        0 <= i < items.len(),
        partition_named(items[i]) is None,
    ensures
        partitions_named(items) is None,
    decreases items.len(),
{
    if i < items.len() - 1 {
        one_bad_partition(items.drop_last(), i);
    }
}

fn parse_partitions(items: &Vec<String>) -> (r: Option<Vec<i32>>)
    ensures
        match r {
            Some(p) => partitions_named(texts(items@)) == Some(p@),
            None => partitions_named(texts(items@)) is None,
        },
{
    let ghost all = texts(items@);
    let mut out: Vec<i32> = Vec::new();
    let mut i: usize = 0;
    assert(all.take(0) =~= Seq::<Seq<char>>::empty());
    while i < items.len()
        invariant
            i <= items@.len(),
            all == texts(items@),
            partitions_named(all.take(i as int)) == Some(out@),
        decreases items@.len() - i,
    {
        assert(all[i as int] == items@[i as int]@);
        assert(all.take(i as int + 1).drop_last() =~= all.take(i as int));
        assert(all.take(i as int + 1).last() == all[i as int]);
        match parse_i64(items[i].as_str()) {
            Some(n) => {
                if n < i32::MIN as i64 || n > i32::MAX as i64 {
                    proof {
                        one_bad_partition(all, i as int);
                    }
                    return None;
                }
                out.push(n as i32);
            },
            None => {
                proof {
                    one_bad_partition(all, i as int);
                }
                return None;
            },
        }
        i = i + 1;
    }
    assert(all.take(items@.len() as int) =~= all);
    Some(out)
}

impl KafkaSettings {
    /// Whether the settings are what the variables say.
    pub open spec fn says(self, env: Map<Seq<char>, Seq<char>>) -> bool {
        &&& mode_word(env) matches Some(w) && mode_named(w) == Some(self.mode)
        &&& texts(self.brokers@) == items_under(env, "TAEL_KAFKA_BROKERS"@)
        &&& self.topic@ == topic_in(env)
        &&& partitions_named(items_under(env, "TAEL_KAFKA_PARTITIONS"@)) == Some(self.partitions@)
    }

    /// Read the variables. Nothing comes back where the mode is not set. What is
    /// wrong is reported in this order: the mode, the brokers, the partitions.
    pub fn from_env(env: &Labels) -> (r: Result<Option<KafkaSettings>, KafkaError>)
        ensures
            ({
                let brokers = items_under(env@, "TAEL_KAFKA_BROKERS"@);
                let partitions = partitions_named(items_under(env@, "TAEL_KAFKA_PARTITIONS"@));
                match mode_word(env@) {
                    None => r == Ok::<Option<KafkaSettings>, KafkaError>(None),
                    Some(w) => match mode_named(w) {
                        None => r matches Err(KafkaError::UnknownMode(got)) && got@ == w,
                        Some(mode) => if brokers.len() == 0 {
                            r matches Err(KafkaError::NoBrokers)
                        } else if partitions is None {
                            r matches Err(KafkaError::BadPartition)
                        } else if mode == KafkaMode::Consume && partitions->0.len() == 0 {
                            r matches Err(KafkaError::NoPartitions)
                        } else {
                            r matches Ok(Some(s)) && s.says(env@)
                        },
                    },
                }
            }),
    {
        let word = match env.get("TAEL_KAFKA_MODE") {
            Some(m) => {
                if is_blank(m.as_str()) {
                    return Ok(None);
                }
                to_lower(trim(m.as_str()).as_str())
            },
            None => return Ok(None),
        };
        let w = word.as_str();
        let mode = if same(w, "produce") || same(w, "producer") || same(w, "publish") {
            KafkaMode::Produce
        } else if same(w, "consume") || same(w, "consumer") {
            KafkaMode::Consume
        } else {
            return Err(KafkaError::UnknownMode(word));
        };
        let brokers = csv_under(env, "TAEL_KAFKA_BROKERS");
        assert(texts(brokers@).len() == brokers@.len());
        if brokers.len() == 0 {
            return Err(KafkaError::NoBrokers);
        }
        let topic = match env.get("TAEL_KAFKA_TOPIC") {
            Some(t) => if is_blank(t.as_str()) {
                "tael-ingest".to_owned()
            } else {
                t.clone()
            },
            None => "tael-ingest".to_owned(),
        };
        let items = csv_under(env, "TAEL_KAFKA_PARTITIONS");
        let partitions = match parse_partitions(&items) {
            Some(p) => p,
            None => return Err(KafkaError::BadPartition),
        };
        let consume = match mode {
            KafkaMode::Consume => true,
            KafkaMode::Produce => false,
        };
        if consume && partitions.len() == 0 {
            return Err(KafkaError::NoPartitions);
        }
        Ok(Some(KafkaSettings { mode, brokers, topic, partitions }))
    }
}

// ── Records ─────────────────────────────────────────────────────────

/// The OTLP signal that a record's payload decodes as.
#[derive(Debug, Clone, Copy, PartialEq, Eq, Structural)]
pub enum Signal {
    Traces,
    Logs,
    Metrics,
}

pub open spec fn signal_name(s: Signal) -> Seq<char> {
    match s {
        Signal::Traces => "traces"@,
        Signal::Logs => "logs"@,
        Signal::Metrics => "metrics"@,
    }
}

/// A record's headers.
#[derive(Debug)]
pub struct RecordHeaders {
    /// Under `tael-signal`.
    pub signal: Option<Vec<u8>>,
    /// Under `tael-tenant`.
    pub tenant: Option<Vec<u8>>,
}

pub open spec fn opt_bytes(v: Option<Vec<u8>>) -> Option<Seq<u8>> {
    match v {
        Some(b) => Some(b@),
        None => None,
    }
}

/// The headers that a record is published with. Only the resolved tenant
/// travels, never credentials.
pub fn record_headers(signal: Signal, tenant: &Option<String>) -> (r: RecordHeaders)
    ensures
        opt_bytes(r.signal) == Some(encode_utf8(signal_name(signal))),
        opt_bytes(r.tenant) == match *tenant {
            Some(t) => Some(encode_utf8(t@)),
            None => None,
        },
{
    let name = match signal {
        Signal::Traces => "traces",
        Signal::Logs => "logs",
        Signal::Metrics => "metrics",
    };
    RecordHeaders {
        signal: Some(bytes_of(name)),
        tenant: match tenant {
            Some(t) => Some(bytes_of(t.as_str())),
            None => None,
        },
    }
}

/// The signal that a header names: traces where there is none, nothing where it
/// is unknown.
pub open spec fn signal_in(header: Option<Seq<u8>>) -> Option<Signal> {
    match header {
        None => Some(Signal::Traces),
        Some(b) => if b == encode_utf8("traces"@) {
            Some(Signal::Traces)
        } else if b == encode_utf8("logs"@) {
            Some(Signal::Logs)
        } else if b == encode_utf8("metrics"@) {
            Some(Signal::Metrics)
        } else {
            None
        },
    }
}

fn same_bytes(a: &Vec<u8>, b: &Vec<u8>) -> (r: bool)
    ensures
        r == (a@ == b@),
{
    if a.len() != b.len() {
        return false;
    }
    let mut i: usize = 0;
    while i < a.len()
        invariant
            i <= a@.len(),
            a@.len() == b@.len(),
            forall|j: int| 0 <= j < i ==> a@[j] == b@[j],
        decreases a@.len() - i,
    {
        if a[i] != b[i] {
            return false;
        }
        i = i + 1;
    }
    assert(a@ =~= b@);
    true
}

pub fn signal_of(headers: &RecordHeaders) -> (r: Option<Signal>)
    ensures
        r == signal_in(opt_bytes(headers.signal)),
{
    match &headers.signal {
        None => Some(Signal::Traces),
        Some(b) => if same_bytes(b, &bytes_of("traces")) {
            Some(Signal::Traces)
        } else if same_bytes(b, &bytes_of("logs")) {
            Some(Signal::Logs)
        } else if same_bytes(b, &bytes_of("metrics")) {
            Some(Signal::Metrics)
        } else {
            None
        },
    }
}

/// What std makes of bytes that need not be valid UTF-8.
pub uninterp spec fn utf8_lossy(bytes: Seq<u8>) -> Seq<char>;

/// Calls std's `String::from_utf8_lossy`. Claims that the text is a function of
/// the bytes, and is what they encode where they are valid UTF-8.
#[verifier::external_body]
fn std_from_utf8_lossy(bytes: &Vec<u8>) -> (r: String)
    ensures
        r@ == utf8_lossy(bytes@),
        valid_utf8(bytes@) ==> r@ == decode_utf8(bytes@),
{
    String::from_utf8_lossy(bytes).into_owned()
}

/// The writer as whom a record is applied, given the tenant in its header:
/// stamping then behaves as if the original writer had connected directly.
pub fn writer_for(tenant: String) -> (r: Principal)
    ensures
        r.key_id@ == "kafka-buffer"@,
        r.name@ == "kafka-buffer"@,
        r.role == Role::Writer,
        r.tenant@ == tenant@,
{
    Principal {
        key_id: "kafka-buffer".to_owned(),
        name: "kafka-buffer".to_owned(),
        role: Role::Writer,
        tenant,
    }
}

/// The writer that a record's headers name, where they name a tenant.
pub fn header_principal(headers: &RecordHeaders) -> (r: Option<Principal>)
    ensures
        match opt_bytes(headers.tenant) {
            None => r is None,
            Some(b) => {
                &&& r matches Some(p)
                &&& p.key_id@ == "kafka-buffer"@
                &&& p.name@ == "kafka-buffer"@
                &&& p.role == Role::Writer
                &&& p.tenant@ == utf8_lossy(b)
                &&& valid_utf8(b) ==> p.tenant@ == decode_utf8(b)
            },
        },
{
    match &headers.tenant {
        None => None,
        Some(b) => Some(writer_for(std_from_utf8_lossy(b))),
    }
}

/// The writer that is attached to a record: with tenancy off, none.
pub fn attached_principal(multi_tenant: bool, headers: &RecordHeaders) -> (r: Option<Principal>)
    ensures
        r is Some <==> multi_tenant && headers.tenant is Some,
        r matches Some(p) ==> {
            &&& p.key_id@ == "kafka-buffer"@
            &&& p.name@ == "kafka-buffer"@
            &&& p.role == Role::Writer
            &&& p.tenant@ == utf8_lossy(headers.tenant->0@)
            &&& valid_utf8(headers.tenant->0@) ==> p.tenant@ == decode_utf8(headers.tenant->0@)
        },
{
    if multi_tenant {
        header_principal(headers)
    } else {
        None
    }
}

/// A record's tenant survives the broker: what it is published as is valid
/// UTF-8 for the tenant, which is what the writer that is read back is of.
pub proof fn tenants_survive_the_broker(tenant: Seq<char>)
    ensures
        valid_utf8(encode_utf8(tenant)),
        decode_utf8(encode_utf8(tenant)) == tenant,
{
    vstd::utf8::encode_utf8_valid_utf8(tenant);
    vstd::utf8::encode_utf8_decode_utf8(tenant);
}

/// A record's signal survives the broker.
pub proof fn signals_survive_the_broker(signal: Signal)
    ensures
        signal_in(Some(encode_utf8(signal_name(signal)))) == Some(signal),
{
    reveal_strlit("traces");
    reveal_strlit("logs");
    reveal_strlit("metrics");
    vstd::utf8::encode_utf8_decode_utf8("traces"@);
    vstd::utf8::encode_utf8_decode_utf8("logs"@);
    vstd::utf8::encode_utf8_decode_utf8("metrics"@);
    assert("traces"@.len() != "logs"@.len());
    assert("traces"@.len() != "metrics"@.len());
    assert("logs"@.len() != "metrics"@.len());
}

// ── Applying ────────────────────────────────────────────────────────

/// How applying a record ended.
#[derive(Debug, Clone, Copy, PartialEq, Eq, Structural)]
pub enum Applied {
    Done,
    /// The record can never succeed: it is skipped, so that it does not wedge
    /// the partition.
    Poison,
    /// It may succeed later: it is tried again without advancing.
    Retry,
}

/// What becomes of a record: one with no value or with an unknown signal can
/// never succeed.
pub open spec fn admission(has_value: bool, signal: Option<Seq<u8>>) -> Option<Signal> {
    if has_value {
        signal_in(signal)
    } else {
        None
    }
}

/// The signal to apply a record as, or nothing where it is to be skipped.
pub fn admissible(has_value: bool, headers: &RecordHeaders) -> (r: Option<Signal>)
    ensures
        r == admission(has_value, opt_bytes(headers.signal)),
{
    if has_value {
        signal_of(headers)
    } else {
        None
    }
}

/// What a service's refusal means for a record.
pub fn judge_refusal(code: ServiceCode) -> (r: Applied)
    ensures
        r == match code {
            ServiceCode::ResourceExhausted => Applied::Retry,
            ServiceCode::Unavailable => Applied::Retry,
            ServiceCode::Internal => Applied::Retry,
            _ => Applied::Poison,
        },
        r == verdict_on(code),
{
    match code {
        ServiceCode::ResourceExhausted => Applied::Retry,
        ServiceCode::Unavailable => Applied::Retry,
        ServiceCode::Internal => Applied::Retry,
        _ => Applied::Poison,
    }
}

/// The next offset to fetch once a record at an offset was tried: past it, but
/// for one that is to be tried again.
pub open spec fn next_after(next: i64, offset: i64, applied: Applied) -> int {
    match applied {
        Applied::Retry => next as int,
        _ => offset + 1,
    }
}

pub fn advance(next: i64, offset: i64, applied: Applied) -> (r: i64)
    requires
        offset < i64::MAX,
    ensures
        r == next_after(next, offset, applied),
{
    match applied {
        Applied::Retry => next,
        _ => offset + 1,
    }
}

// ── Offsets ─────────────────────────────────────────────────────────

/// The next offset to fetch of each partition, recorded after records are
/// applied: a record may be applied twice, never not at all.
#[derive(Debug)]
pub struct OffsetStore {
    entries: Vec<(String, i64)>,
}

pub open spec fn offset_key(topic: Seq<char>, partition: i32) -> Seq<char> {
    topic + "/"@ + signed_decimal(partition as int)
}

/// The offsets in a list; a later entry outdoes an earlier one of the same key.
pub open spec fn offsets_in(entries: Seq<(String, i64)>) -> Map<Seq<char>, i64>
    decreases entries.len(),
{
    if entries.len() == 0 {
        Map::empty()
    } else {
        offsets_in(entries.drop_last()).insert(entries.last().0@, entries.last().1)
    }
}

impl View for OffsetStore {
    type V = Map<Seq<char>, i64>;

    closed spec fn view(&self) -> Map<Seq<char>, i64> {
        offsets_in(self.entries@)
    }
}

impl OffsetStore {
    /// A store that holds some entries.
    pub fn open(entries: Vec<(String, i64)>) -> (r: OffsetStore)
        ensures
            r@ == offsets_in(entries@),
    {
        OffsetStore { entries }
    }

    /// The entries, for keeping.
    pub fn entries(&self) -> (r: &Vec<(String, i64)>)
        ensures
            offsets_in(r@) == self@,
    {
        &self.entries
    }

    pub fn key(topic: &str, partition: i32) -> (r: String)
        ensures
            r@ == offset_key(topic@, partition),
    {
        let mut k = topic.to_owned();
        k.append("/");
        k.append(decimal_i64(partition as i64).as_str());
        k
    }

    /// The next offset to fetch of a partition, if one was ever recorded.
    pub fn next_offset(&self, topic: &str, partition: i32) -> (r: Option<i64>)
        ensures
            r == if self@.dom().contains(offset_key(topic@, partition)) {
                Some(self@[offset_key(topic@, partition)])
            } else {
                None
            },
    {
        let key = Self::key(topic, partition);
        let mut n: usize = self.entries.len();
        assert(self.entries@.take(n as int) =~= self.entries@);
        while n > 0
            invariant
                n <= self.entries@.len(),
                key@ == offset_key(topic@, partition),
                self@.dom().contains(key@) == offsets_in(self.entries@.take(n as int)).dom().contains(
                    key@,
                ),
                self@.dom().contains(key@) ==> self@[key@] == offsets_in(
                    self.entries@.take(n as int),
                )[key@],
            decreases n,
        {
            assert(self.entries@.take(n as int).drop_last() =~= self.entries@.take(n as int - 1));
            if same(self.entries[n - 1].0.as_str(), key.as_str()) {
                return Some(self.entries[n - 1].1);
            }
            n = n - 1;
        }
        None
    }

    /// Record that everything below `next` has been applied.
    pub fn commit(&mut self, topic: &str, partition: i32, next: i64)
        ensures
            final(self)@ == old(self)@.insert(offset_key(topic@, partition), next),
    {
        let key = Self::key(topic, partition);
        let mut kept: Vec<(String, i64)> = Vec::new();
        let ghost all = self.entries@;
        let mut i: usize = 0;
        assert(offsets_in(kept@) =~= offsets_in(all.take(0)).remove(key@));
        while i < self.entries.len()
            invariant
                i <= all.len(),
                self.entries@ == all,
                offsets_in(kept@) == offsets_in(all.take(i as int)).remove(key@),
            decreases all.len() - i,
        {
            proof {
                assert(all.take(i as int + 1).drop_last() =~= all.take(i as int));
                assert(all.take(i as int + 1).last() == all[i as int]);
            }
            if !same(self.entries[i].0.as_str(), key.as_str()) {
                let ghost before = kept@;
                let entry = (self.entries[i].0.clone(), self.entries[i].1);
                kept.push(entry);
                assert(kept@.drop_last() =~= before);
                assert(offsets_in(kept@) =~= offsets_in(all.take(i as int + 1)).remove(key@));
            } else {
                assert(offsets_in(kept@) =~= offsets_in(all.take(i as int + 1)).remove(key@));
            }
            i = i + 1;
        }
        assert(all.take(all.len() as int) =~= all);
        let ghost before = kept@;
        let ghost name = key@;
        kept.push((key, next));
        assert(kept@.drop_last() =~= before);
        self.entries = kept;
        assert(offsets_in(self.entries@) =~= offsets_in(all).insert(name, next));
    }
}

/// A store that was opened on nothing has no offset of any partition, and once
/// one is committed it has that one and no other.
pub proof fn a_fresh_store_has_no_offsets(topic: Seq<char>, partition: i32, next: i64)
    ensures
        offsets_in(Seq::empty()) == Map::<Seq<char>, i64>::empty(),
        !offsets_in(Seq::empty()).dom().contains(offset_key(topic, partition)),
        forall|key: Seq<char>|
            offsets_in(Seq::empty()).insert(
                offset_key(topic, partition),
                next,
            ).dom().contains(key) <==> key == offset_key(topic, partition),
{
}

/// Partitions have offsets of their own: no two of them share a key, whatever
/// the topics are called.
pub proof fn partitions_are_told_apart(t1: Seq<char>, p1: i32, t2: Seq<char>, p2: i32)
    requires
        offset_key(t1, p1) == offset_key(t2, p2),
    ensures
        t1 == t2,
        p1 == p2,
{
    reveal_strlit("/");
    let d1 = signed_decimal(p1 as int);
    let d2 = signed_decimal(p2 as int);
    let k = offset_key(t1, p1);
    crate::text::signed_decimal_reads_back(p1 as int);
    crate::text::signed_decimal_reads_back(p2 as int);
    assert(k.len() == t1.len() + 1 + d1.len());
    assert(k.len() == t2.len() + 1 + d2.len());
    assert(k[t1.len() as int] == '/');
    assert(k[t2.len() as int] == '/');
    if t1.len() < t2.len() {
        let i = t2.len() - t1.len() - 1;
        assert(d1[i] == k[t1.len() + 1 + i]);
    } else if t2.len() < t1.len() {
        let i = t1.len() - t2.len() - 1;
        assert(d2[i] == offset_key(t2, p2)[t2.len() + 1 + i]);
    }
    assert(t1 =~= k.take(t1.len() as int));
    assert(t2 =~= offset_key(t2, p2).take(t2.len() as int));
    assert(d1 =~= k.skip(t1.len() as int + 1));
    assert(d2 =~= offset_key(t2, p2).skip(t2.len() as int + 1));
}

/// What was recorded for a partition is what is read back for it, and no other
/// partition is touched.
pub proof fn offsets_read_back(
    offsets: Map<Seq<char>, i64>,
    topic: Seq<char>,
    partition: i32,
    next: i64,
    other_topic: Seq<char>,
    other: i32,
)
    ensures
        ({
            let after = offsets.insert(offset_key(topic, partition), next);
            let key = offset_key(other_topic, other);
            if other_topic == topic && other == partition {
                after.dom().contains(key) && after[key] == next
            } else {
                &&& after.dom().contains(key) == offsets.dom().contains(key)
                &&& offsets.dom().contains(key) ==> after[key] == offsets[key]
            }
        }),
{
    if offset_key(topic, partition) == offset_key(other_topic, other) {
        partitions_are_told_apart(topic, partition, other_topic, other);
    }
}

/// A record that is to be tried again is never passed over: the next offset
/// stays where it was, at or before the record.
pub proof fn a_retry_does_not_advance(next: i64, offset: i64)
    requires
        next <= offset,
    ensures
        next_after(next, offset, Applied::Retry) <= offset,
        next_after(next, offset, Applied::Done) == offset + 1,
        next_after(next, offset, Applied::Poison) == offset + 1,
{
}

/// A producer and a consumer are each named by their word, whatever its case and
/// the space around it; no word is no broker, any other word is refused.
pub proof fn modes_are_named(env: Map<Seq<char>, Seq<char>>, v: Seq<char>)
    requires
        env.dom().contains("TAEL_KAFKA_MODE"@),
        env["TAEL_KAFKA_MODE"@] == v,
    ensures
        trimmed(v).len() == 0 ==> mode_word(env) is None,
        trimmed(v).len() > 0 ==> mode_word(env) == Some(lowered(trimmed(v))),
        mode_named("produce"@) == Some(KafkaMode::Produce),
        mode_named("producer"@) == Some(KafkaMode::Produce),
        mode_named("publish"@) == Some(KafkaMode::Produce),
        mode_named("consume"@) == Some(KafkaMode::Consume),
        mode_named("consumer"@) == Some(KafkaMode::Consume),
        v != "produce"@ && v != "producer"@ && v != "publish"@ && v != "consume"@ && v
            != "consumer"@ ==> mode_named(v) is None,
{
    reveal_strlit("produce");
    reveal_strlit("producer");
    reveal_strlit("publish");
    reveal_strlit("consume");
    reveal_strlit("consumer");
    assert("consume"@[0] == 'c' && "consumer"@[0] == 'c' && "produce"@[0] == 'p' && "producer"@[0]
        == 'p' && "publish"@[0] == 'p');
}

/// A topic that is set is taken as it is, and so is each partition that is named.
pub proof fn partitions_read_as_written(
    env: Map<Seq<char>, Seq<char>>,
    items: Seq<Seq<char>>,
    partitions: Seq<i32>,
)
    requires
        items.len() == partitions.len(),
        forall|i: int|
            0 <= i < items.len() ==> #[trigger] items[i] == signed_decimal(partitions[i] as int),
    ensures
        partitions_named(items) == Some(partitions),
        !env.dom().contains("TAEL_KAFKA_TOPIC"@) ==> topic_in(env) == "tael-ingest"@,
        env.dom().contains("TAEL_KAFKA_TOPIC"@) && trimmed(env["TAEL_KAFKA_TOPIC"@]).len() > 0
            ==> topic_in(env) == env["TAEL_KAFKA_TOPIC"@],
    decreases items.len(),
{
    if items.len() == 0 {
        assert(partitions =~= Seq::<i32>::empty());
    } else {
        let (init, before) = (items.drop_last(), partitions.drop_last());
        assert forall|i: int| 0 <= i < init.len() implies #[trigger] init[i] == signed_decimal(
            before[i] as int,
        ) by {
            assert(init[i] == items[i]);
        }
        partitions_read_as_written(env, init, before);
        assert(items[items.len() - 1] == items.last());
        crate::text::signed_decimal_reads_back(partitions.last() as int);
        assert(before.push(partitions.last()) =~= partitions);
    }
}

/// A record that was applied or can never be is passed by, so that the next one is
/// read; one without a value is poison, and without a signal it is a trace.
pub proof fn records_are_passed_by(next: i64, offset: i64, signal: Option<Seq<u8>>)
    ensures
        next_after(next, offset, Applied::Done) == offset + 1,
        next_after(next, offset, Applied::Poison) == offset + 1,
        next_after(next, offset, Applied::Retry) == next,
        admission(false, signal) is None,
        admission(true, None) == Some(Signal::Traces),
        admission(true, Some(encode_utf8("logs"@))) == Some(Signal::Logs),
        admission(true, Some(encode_utf8("metrics"@))) == Some(Signal::Metrics),
        admission(true, Some(encode_utf8("traces"@))) == Some(Signal::Traces),
{
    signals_survive_the_broker(Signal::Logs);
    signals_survive_the_broker(Signal::Metrics);
    signals_survive_the_broker(Signal::Traces);
}

/// What becomes of a record that a service refused.
pub open spec fn verdict_on(code: ServiceCode) -> Applied {
    match code {
        ServiceCode::ResourceExhausted => Applied::Retry,
        ServiceCode::Unavailable => Applied::Retry,
        ServiceCode::Internal => Applied::Retry,
        _ => Applied::Poison,
    }
}

/// A record is tried again exactly where the refusal was not its own fault: where
/// the answer over HTTP would be the server's fault or too many requests.
pub proof fn what_may_succeed_is_tried_again(code: ServiceCode, next: i64, offset: i64)
    requires
        code != ServiceCode::Other,
    ensures
        verdict_on(code) == Applied::Retry <==> crate::ingest::otlp_http::status_of(code) >= 500
            || crate::ingest::otlp_http::status_of(code) == 429,
        verdict_on(code) == Applied::Retry ==> next_after(next, offset, verdict_on(code)) == next,
        verdict_on(code) != Applied::Retry ==> next_after(next, offset, verdict_on(code)) == offset
            + 1,
{
}

} // verus!
