//! Instants, to the nanosecond.

use vstd::prelude::*;

verus! {

/// The first and the last second that an instant can fall in: the years
/// -262143 and 262142.
pub const MIN_SECOND: i64 = -8334601228800;

pub const MAX_SECOND: i64 = 8210266876799;

pub const NANOS_PER_SECOND: u32 = 1000000000;

/// An instant in UTC. A leap second counts with the second before it: its
/// nanoseconds go on from a full second.
#[derive(Debug, Clone, Copy, PartialEq, Eq, Structural)]
pub struct Timestamp {
    secs: i64,
    nanos: u32,
}

/// Seconds since the epoch, leap seconds not counted, and nanoseconds past them.
pub struct Instant {
    pub secs: int,
    pub nanos: int,
}

impl View for Timestamp {
    type V = Instant;

    closed spec fn view(&self) -> Instant {
        Instant { secs: self.secs as int, nanos: self.nanos as int }
    }
}

impl Instant {
    /// Whether this is in a leap second.
    pub open spec fn is_leap(self) -> bool {
        self.nanos >= 1000000000
    }

    /// Whether there is such an instant. A leap second is the last of a minute.
    pub open spec fn exists_in_time(self) -> bool {
        &&& MIN_SECOND <= self.secs <= MAX_SECOND
        &&& 0 <= self.nanos < 2000000000
        &&& self.is_leap() ==> self.secs % 60 == 59
    }
}

/// The instant a number of nanoseconds after the epoch, leap seconds not counted.
pub open spec fn at(nanos: int) -> Instant {
    Instant { secs: nanos / 1000000000, nanos: nanos % 1000000000 }
}

/// Whether a number of nanoseconds since the epoch is an instant.
pub open spec fn in_range(nanos: int) -> bool {
    MIN_SECOND * 1000000000 <= nanos < (MAX_SECOND + 1) * 1000000000
}

/// Whether one instant lies before another.
pub open spec fn earlier(a: Instant, b: Instant) -> bool {
    a.secs < b.secs || (a.secs == b.secs && a.nanos < b.nanos)
}

/// The nanoseconds from one instant to another. A leap second at either of them
/// counts where the other is later, or earlier, by the time of day.
pub open spec fn elapsed(from: Instant, to: Instant) -> int {
    let leaps: int = if to.secs % 86400 > from.secs % 86400 && from.is_leap() {
        1
    } else if to.secs % 86400 < from.secs % 86400 && to.is_leap() {
        -1
    } else {
        0
    };
    (to.secs - from.secs + leaps) * 1000000000 + to.nanos - from.nanos
}

/// The instant a number of seconds before another. That leaves a leap second,
/// unless the number is zero.
pub open spec fn seconds_before(t: Instant, n: int) -> Instant {
    if n == 0 || !t.is_leap() {
        Instant { secs: t.secs - n, nanos: t.nanos }
    } else if n > 0 {
        Instant { secs: t.secs + 1 - n, nanos: t.nanos - 1000000000 }
    } else {
        Instant { secs: t.secs - n, nanos: t.nanos - 1000000000 }
    }
}

/// What chrono's `DateTime::to_rfc3339` writes for an instant in UTC.
pub uninterp spec fn rfc3339_text(secs: i64, nanos: u32) -> Seq<char>;

/// Calls chrono's `DateTime::from_timestamp`, which gives an instant for every
/// second in the range, with less than a full second of nanoseconds or, in the
/// last second of a minute, less than two; and `to_rfc3339` on it. Claims that
/// the text is a function of the two.
#[verifier::external_body]
fn chrono_to_rfc3339(secs: i64, nanos: u32) -> (r: String)
    requires
        (Instant { secs: secs as int, nanos: nanos as int }).exists_in_time(),
    ensures
        r@ == rfc3339_text(secs, nanos),
{
    chrono::DateTime::from_timestamp(secs, nanos).unwrap().to_rfc3339()
}

/// The place of a second in a cycle of seconds that begins with the epoch.
fn place_in(secs: i64, cycle: i64) -> (r: i64)
    requires
        MIN_SECOND <= secs <= MAX_SECOND,
        cycle == 60 || cycle == 86400,
    ensures
        r == secs % cycle,
{
    proof {
        if cycle == 60 {
            assert((secs - MIN_SECOND) % 60 == secs % 60);
        } else {
            assert((secs - MIN_SECOND) % 86400 == secs % 86400);
        }
    }
    (secs - MIN_SECOND) % cycle
}

impl Timestamp {
    #[verifier::type_invariant]
    spec fn wf(self) -> bool {
        self@.exists_in_time()
    }

    /// Seconds since the epoch and the nanoseconds past them.
    pub fn new(secs: i64, nanos: u32) -> (r: Option<Timestamp>)
        ensures
            ({
                let t = Instant { secs: secs as int, nanos: nanos as int };
                match r {
                    Some(got) => t.exists_in_time() && got@ == t,
                    None => !t.exists_in_time(),
                }
            }),
    {
        if secs < MIN_SECOND || secs > MAX_SECOND || nanos >= 2000000000 {
            return None;
        }
        if nanos >= NANOS_PER_SECOND && place_in(secs, 60) != 59 {
            return None;
        }
        Some(Timestamp { secs, nanos })
    }

    /// The instant that many nanoseconds after the epoch.
    pub fn from_unix_nanos(nanos: u64) -> (r: Timestamp)
        ensures
            r@ == at(nanos as int),
    {
        let secs: u64 = nanos / 1000000000;
        let rest: u64 = nanos % 1000000000;
        Timestamp { secs: secs as i64, nanos: rest as u32 }
    }

    /// The instant that many nanoseconds after the epoch, or before it.
    pub fn from_signed_nanos(nanos: i64) -> (r: Timestamp)
        ensures
            r@ == at(nanos as int),
    {
        if nanos >= 0 {
            Timestamp::from_unix_nanos(nanos as u64)
        } else {
            // Rounds towards the past: the remainder counts up.
            let before: u64 = if nanos == i64::MIN {
                0x8000_0000_0000_0000
            } else {
                (-nanos) as u64
            };
            let up: u64 = (before + 999999999) / 1000000000;
            let rest: u64 = up * 1000000000 - before;
            proof {
                lemma_split(-(up as int), rest as int);
            }
            Timestamp { secs: -(up as i64), nanos: rest as u32 }
        }
    }

    /// The instant that many milliseconds after the epoch, or before it,
    /// where it is in range.
    pub fn from_millis(millis: i64) -> (r: Option<Timestamp>)
        ensures
            r is Some <==> in_range(millis * 1000000),
            r matches Some(t) ==> t@ == at(millis * 1000000),
    {
        if millis < -8334601228800000 || millis > 8210266876799999 {
            return None;
        }
        if millis >= 0 {
            let secs: i64 = millis / 1000;
            let rest: i64 = millis % 1000;
            proof {
                lemma_split(secs as int, rest * 1000000);
            }
            Some(Timestamp { secs, nanos: (rest as u32) * 1000000 })
        } else {
            let before: i64 = -millis;
            let up: i64 = (before + 999) / 1000;
            let rest: i64 = up * 1000 - before;
            proof {
                lemma_split(-up, rest * 1000000);
            }
            Some(Timestamp { secs: -up, nanos: (rest as u32) * 1000000 })
        }
    }

    pub fn seconds(&self) -> (r: i64)
        ensures
            r == self@.secs,
            MIN_SECOND <= r <= MAX_SECOND,
    {
        proof {
            use_type_invariant(self);
        }
        self.secs
    }

    /// The nanoseconds past the second; a full second and more in a leap second.
    pub fn subsec_nanos(&self) -> (r: u32)
        ensures
            r == self@.nanos,
            r < 2 * NANOS_PER_SECOND,
    {
        proof {
            use_type_invariant(self);
        }
        self.nanos
    }

    /// Whether this instant lies before another.
    pub fn before(&self, other: &Timestamp) -> (r: bool)
        ensures
            r == earlier(self@, other@),
    {
        self.secs < other.secs || (self.secs == other.secs && self.nanos < other.nanos)
    }

    /// The nanoseconds from another instant to this one.
    pub fn nanos_since(&self, other: &Timestamp) -> (r: i128)
        ensures
            r == elapsed(other@, self@),
            -20000000000000000000000 <= r <= 20000000000000000000000,
    {
        proof {
            use_type_invariant(self);
            use_type_invariant(other);
        }
        let here: i64 = place_in(self.secs, 86400);
        let there: i64 = place_in(other.secs, 86400);
        let leaps: i128 = if here > there && other.nanos >= NANOS_PER_SECOND {
            1
        } else if here < there && self.nanos >= NANOS_PER_SECOND {
            -1
        } else {
            0
        };
        (self.secs as i128 - other.secs as i128 + leaps) * 1000000000 + (self.nanos as i128
            - other.nanos as i128)
    }

    /// The instant a number of seconds earlier, where there is one.
    pub fn minus_seconds(&self, seconds: i64) -> (r: Option<Timestamp>)
        ensures
            r is Some <==> seconds_before(self@, seconds as int).exists_in_time(),
            r matches Some(t) ==> t@ == seconds_before(self@, seconds as int),
    {
        proof {
            use_type_invariant(self);
        }
        if seconds == 0 {
            return Some(*self);
        }
        let leap = self.nanos >= NANOS_PER_SECOND;
        let nanos: u32 = if leap {
            self.nanos - NANOS_PER_SECOND
        } else {
            self.nanos
        };
        let from: i128 = if leap && seconds > 0 {
            self.secs as i128 + 1
        } else {
            self.secs as i128
        };
        let secs: i128 = from - seconds as i128;
        if secs < MIN_SECOND as i128 || secs > MAX_SECOND as i128 {
            return None;
        }
        Some(Timestamp { secs: secs as i64, nanos })
    }

    /// Whole milliseconds since the epoch.
    pub fn millis(&self) -> (r: i64)
        ensures
            r == self@.secs * 1000 + self@.nanos / 1000000,
    {
        proof {
            use_type_invariant(self);
        }
        self.secs * 1000 + (self.nanos / 1000000) as i64
    }

    /// The instant in RFC 3339 form.
    pub fn to_rfc3339(&self) -> (r: String)
        ensures
            r@ == instant_text(self@),
    {
        proof {
            use_type_invariant(self);
        }
        chrono_to_rfc3339(self.secs, self.nanos)
    }
}

/// The whole seconds in a span of nanoseconds, rounded towards zero.
pub open spec fn whole_seconds(nanos: int) -> int {
    if nanos >= 0 {
        nanos / 1000000000
    } else {
        -((-nanos) / 1000000000)
    }
}

/// The whole seconds from one instant to another, rounded towards zero.
pub fn seconds_between(from: &Timestamp, to: &Timestamp) -> (r: i64)
    ensures
        r == whole_seconds(elapsed(from@, to@)),
{
    let nanos: i128 = to.nanos_since(from);
    if nanos >= 0 {
        (nanos / 1000000000) as i64
    } else {
        let back: i128 = -nanos;
        -((back / 1000000000) as i64)
    }
}

/// The RFC 3339 form of an instant.
pub open spec fn instant_text(t: Instant) -> Seq<char> {
    rfc3339_text(t.secs as i64, t.nanos as u32)
}

proof fn lemma_split(secs: int, nanos: int)
    requires
        0 <= nanos < 1000000000,
    ensures
        (secs * 1000000000 + nanos) / 1000000000 == secs,
        (secs * 1000000000 + nanos) % 1000000000 == nanos,
{
    vstd::arithmetic::div_mod::lemma_fundamental_div_mod_converse(
        secs * 1000000000 + nanos,
        1000000000,
        secs,
        nanos,
    );
}

/// Instants are ordered as the nanoseconds that they are made from, apart as far
/// as those, and a number of seconds earlier when so much is taken away.
pub proof fn instants_are_a_line(a: int, b: int, seconds: int)
    ensures
        earlier(at(a), at(b)) <==> a < b,
        at(a) == at(b) <==> a == b,
        elapsed(at(a), at(b)) == b - a,
        seconds_before(at(a), seconds) == at(a - seconds * 1000000000),
        !at(a).is_leap(),
{
    assert((a - seconds * 1000000000) / 1000000000 == a / 1000000000 - seconds);
}

/// Whole seconds are what fits into a span, on either side of zero.
pub proof fn whole_seconds_fit(nanos: int)
    ensures
        nanos >= 0 ==> 0 <= nanos - whole_seconds(nanos) * 1000000000 < 1000000000,
        whole_seconds(-nanos) == -whole_seconds(nanos),
{
}

} // verus!
