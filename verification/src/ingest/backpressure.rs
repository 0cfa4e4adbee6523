//! Bounded admission for the ingest paths.
//!
//! A gate caps the batches that are in flight at one time; a batch that cannot
//! get a permit is shed at once with a retryable status. The cap is a setting;
//! `0` disables it.

use crate::text::parse_unsigned;
use crate::text::unsigned_literal;
use vstd::prelude::*;

verus! {

pub const DEFAULT_MAX_IN_FLIGHT: usize = 512;

/// How many batches are in flight, and how many may be.
#[derive(Debug)]
pub struct Gate {
    limit: usize,
    in_flight: usize,
}

/// An admitted batch. Giving it back releases the slot.
#[derive(Debug)]
pub struct Permit {
    counted: bool,
}

/// What a setting says the cap is: an unsigned number, or the default.
pub open spec fn cap_of(setting: Option<Seq<char>>, default: usize) -> usize {
    match setting {
        Some(s) => match unsigned_literal(s) {
            Some(n) => if n <= usize::MAX {
                n as usize
            } else {
                default
            },
            None => default,
        },
        None => default,
    }
}

/// Reads a cap from a setting.
pub fn read_cap(setting: Option<&str>, default: usize) -> (r: usize)
    ensures
        r == cap_of(
            match setting {
                Some(s) => Some(s@),
                None => None,
            },
            default,
        ),
{
    match setting {
        Some(s) => match parse_unsigned(s, usize::MAX as u64) {
            Some(n) => n as usize,
            None => default,
        },
        None => default,
    }
}

impl Permit {
    /// Whether this permit holds a slot.
    pub closed spec fn holds_slot(&self) -> bool {
        self.counted
    }
}

impl Gate {
    #[verifier::type_invariant]
    spec fn wf(self) -> bool {
        self.limit > 0 ==> self.in_flight <= self.limit
    }

    /// The cap; `0` stands for none.
    pub closed spec fn cap(&self) -> nat {
        self.limit as nat
    }

    /// The slots that are taken.
    pub closed spec fn taken(&self) -> nat {
        self.in_flight as nat
    }

    /// A gate with the cap that a setting names.
    pub fn new(setting: Option<&str>) -> (r: Gate)
        ensures
            r.cap() == cap_of(
                match setting {
                    Some(s) => Some(s@),
                    None => None,
                },
                DEFAULT_MAX_IN_FLIGHT,
            ),
            r.taken() == 0,
    {
        Gate { limit: read_cap(setting, DEFAULT_MAX_IN_FLIGHT), in_flight: 0 }
    }
}

/// Try to admit one ingest batch. `None` means the node is at capacity and the
/// caller must shed with a retryable status.
pub fn try_acquire(gate: &mut Gate) -> (r: Option<Permit>)
    ensures
        final(gate).cap() == old(gate).cap(),
        final(gate).cap() > 0 ==> final(gate).taken() <= final(gate).cap(),
        match r {
            Some(p) => if old(gate).cap() == 0 {
                !p.holds_slot() && final(gate).taken() == old(gate).taken()
            } else {
                p.holds_slot() && old(gate).taken() < old(gate).cap() && final(gate).taken() == old(
                    gate,
                ).taken() + 1
            },
            None => old(gate).cap() > 0 && old(gate).taken() >= old(gate).cap()
                && final(gate).taken() == old(gate).taken(),
        },
        r is Some <==> has_room(old(gate).cap(), old(gate).taken()),
        final(gate).taken() == taken_after(old(gate).cap(), old(gate).taken()),
{
    proof {
        use_type_invariant(&*gate);
    }
    if gate.limit == 0 {
        return Some(Permit { counted: false });
    }
    if gate.in_flight >= gate.limit {
        return None;
    }
    gate.in_flight = gate.in_flight + 1;
    Some(Permit { counted: true })
}

/// Give a permit back.
pub fn release(gate: &mut Gate, permit: Permit)
    requires
        permit.holds_slot() ==> old(gate).taken() > 0,
    ensures
        final(gate).cap() == old(gate).cap(),
        final(gate).taken() == if permit.holds_slot() {
            old(gate).taken() - 1
        } else {
            old(gate).taken() as int
        },
        final(gate).taken() == freed(old(gate).taken(), permit.holds_slot()),
{
    proof {
        use_type_invariant(&*gate);
    }
    if permit.counted {
        gate.in_flight = gate.in_flight - 1;
    }
}

/// Currently admitted batches.
pub fn in_flight(gate: &Gate) -> (r: usize)
    ensures
        r == gate.taken(),
        gate.cap() > 0 ==> r <= gate.cap(),
{
    proof {
        use_type_invariant(gate);
    }
    gate.in_flight
}

/// The cap (`0` = unbounded).
pub fn max_in_flight(gate: &Gate) -> (r: usize)
    ensures
        r == gate.cap(),
{
    gate.limit
}

// ── Laws ────────────────────────────────────────────────────────────

/// A cap that is set is read as it is written; one that cannot be read is the
/// default.
pub proof fn caps_read_as_written(n: usize, default: usize, s: Seq<char>)
    ensures
        cap_of(Some(crate::text::decimal(n as nat)), default) == n,
        cap_of(None, default) == default,
        unsigned_literal(s) is None ==> cap_of(Some(s), default) == default,
{
    crate::text::decimal_reads_back(n as nat);
    assert(crate::text::decimal(n as nat)[0] != '+');
}

/// Whether one more batch may come in; a cap of nothing is none.
pub open spec fn has_room(cap: nat, taken: nat) -> bool {
    cap == 0 || taken < cap
}

/// How many are in flight once another has asked to come in.
pub open spec fn taken_after(cap: nat, taken: nat) -> nat {
    if cap > 0 && taken < cap {
        taken + 1
    } else {
        taken
    }
}

/// How many are in flight once one has left.
pub open spec fn freed(taken: nat, slot: bool) -> int {
    if slot {
        taken - 1
    } else {
        taken as int
    }
}

/// How many are in flight after a number of batches have asked to come in.
pub open spec fn taken_after_all(cap: nat, n: nat) -> nat
    decreases n,
{
    if n == 0 {
        0
    } else {
        taken_after(cap, taken_after_all(cap, (n - 1) as nat))
    }
}

/// As many batches come in as the cap allows and no more; one that leaves makes
/// room for one, and without a cap all come in.
pub proof fn the_cap_is_what_comes_in(cap: nat, n: nat)
    ensures
        cap > 0 ==> taken_after_all(cap, n) == if n < cap {
            n
        } else {
            cap
        },
        cap > 0 ==> (has_room(cap, taken_after_all(cap, n)) <==> n < cap),
        cap == 0 ==> has_room(cap, n),
        cap > 0 && n < cap ==> freed(taken_after(cap, n), true) == n,
        cap > 0 && n == cap ==> has_room(cap, freed(n, true) as nat),
    decreases n,
{
    if n > 0 {
        the_cap_is_what_comes_in(cap, (n - 1) as nat);
    }
}

} // verus!
