//! Replication ingress: which records a standby takes.

use crate::cluster::EpochFencer;
use crate::text::{opt_text, parse_unsigned, unsigned_literal};
use vstd::prelude::*;

verus! {

/// A record from a deposed leader: its epoch, and the one that is current.
#[derive(Debug, Clone, Copy, PartialEq, Eq, Structural)]
pub struct Fenced {
    pub epoch: u64,
    pub current: u64,
}

/// The epoch in a header; zero where there is none, or none that can be read.
pub open spec fn epoch_in(header: Option<Seq<char>>) -> u64 {
    match header {
        Some(h) => match unsigned_literal(h) {
            Some(n) => if n <= u64::MAX {
                n as u64
            } else {
                0
            },
            None => 0,
        },
        None => 0,
    }
}

/// Judge a record by the epoch of the leader that shipped it. One from a
/// deposed leader is refused, so that it cannot corrupt the state.
pub fn fence_record(fencer: &mut EpochFencer, header: &Option<String>) -> (r: Result<(), Fenced>)
    ensures
        match r {
            Ok(_) => {
                &&& epoch_in(opt_text(*header)) >= old(fencer)@
                &&& final(fencer)@ == epoch_in(opt_text(*header))
            },
            Err(f) => {
                &&& epoch_in(opt_text(*header)) < old(fencer)@
                &&& final(fencer)@ == old(fencer)@
                &&& f.epoch == epoch_in(opt_text(*header))
                &&& f.current == old(fencer)@
            },
        },
{
    let epoch: u64 = match header {
        Some(h) => match parse_unsigned(h.as_str(), u64::MAX) {
            Some(n) => n,
            None => 0,
        },
        None => 0,
    };
    if fencer.check_and_advance(epoch) {
        Ok(())
    } else {
        Err(Fenced { epoch, current: fencer.highest() })
    }
}

/// The HTTP status of the answer to a shipped record: accepted once applied,
/// conflict where it was fenced off, unprocessable where this store cannot be
/// a standby. A fenced record is not applied at all.
pub fn answer_status(fenced: bool, applied: bool) -> (r: u16)
    ensures
        r == if fenced {
            409u16
        } else if applied {
            202u16
        } else {
            422u16
        },
        r == status_shown(fenced, applied),
{
    if fenced {
        409
    } else if applied {
        202
    } else {
        422
    }
}

// ── Laws ────────────────────────────────────────────────────────────

/// The epoch of a shipped log is read as it is written; without one it is the
/// first.
pub proof fn epochs_read_as_written(n: u64, h: Seq<char>)
    ensures
        epoch_in(Some(crate::text::decimal(n as nat))) == n,
        epoch_in(None) == 0,
        unsigned_literal(h) is None ==> epoch_in(Some(h)) == 0,
{
    crate::text::decimal_reads_back(n as nat);
    assert(crate::text::decimal(n as nat)[0] != '+');
}

/// The status that a shipped record is answered with.
pub open spec fn status_shown(fenced: bool, applied: bool) -> u16 {
    if fenced {
        409u16
    } else if applied {
        202u16
    } else {
        422u16
    }
}

/// A record is answered as accepted exactly when it was applied, and a deposed
/// leader is told of the conflict, not of a fault in what it sent.
pub proof fn records_are_answered(fenced: bool, applied: bool)
    ensures
        200 <= status_shown(fenced, applied) < 300 <==> applied && !fenced,
        status_shown(fenced, applied) == 409 <==> fenced,
        status_shown(fenced, applied) == 422 <==> !fenced && !applied,
{
}

} // verus!
