//! Leader election and fencing for log replication, independent of the gossip
//! transport that brings the membership view.

use crate::text::{less, parse_unsigned, same, text_less, unsigned_literal};
use vstd::prelude::*;

verus! {

/// Whether an id is among the live ones and none of them comes before it.
pub open spec fn is_least(id: Seq<char>, live: Seq<String>) -> bool {
    &&& exists|i: int| 0 <= i < live.len() && (#[trigger] live[i])@ == id
    &&& forall|i: int| 0 <= i < live.len() ==> !text_less((#[trigger] live[i])@, id)
}

/// Elect the leader of a replication group from its **live** members: the
/// smallest node id wins. Every node that sees the same live set picks the
/// same leader, and when the leader dies it drops out of the live set so the
/// next-smallest id is elected.
///
/// Returns `None` only when there are no live members.
pub fn elect_leader(live_node_ids: &[String]) -> (r: Option<&String>)
    ensures
        match r {
            Some(id) => is_least(id@, live_node_ids@),
            None => live_node_ids@.len() == 0,
        },
{
    if live_node_ids.len() == 0 {
        return None;
    }
    let mut best: usize = 0;
    let mut i: usize = 1;
    proof {
        crate::text::text_less_irreflexive(live_node_ids@[0]@);
    }
    while i < live_node_ids.len()
        invariant
            1 <= i <= live_node_ids@.len(),
            best < i,
            forall|j: int|
                0 <= j < i ==> !text_less(
                    (#[trigger] live_node_ids@[j])@,
                    live_node_ids@[best as int]@,
                ),
        decreases live_node_ids@.len() - i,
    {
        let ghost before = live_node_ids@[best as int]@;
        let ghost here = live_node_ids@[i as int]@;
        if less(live_node_ids[i].as_str(), live_node_ids[best].as_str()) {
            proof {
                assert forall|j: int| 0 <= j < i + 1 implies !text_less(
                    (#[trigger] live_node_ids@[j])@,
                    here,
                ) by {
                    if j < i {
                        if text_less(live_node_ids@[j]@, here) {
                            crate::text::text_less_transitive(live_node_ids@[j]@, here, before);
                        }
                    } else {
                        crate::text::text_less_irreflexive(here);
                    }
                }
            }
            best = i;
        }
        i = i + 1;
    }
    assert(live_node_ids@[best as int]@ == live_node_ids@[best as int]@);
    Some(&live_node_ids[best])
}

/// All nodes that see the same live set elect the same leader, whatever the
/// order in which they see it.
pub proof fn leader_is_agreed(a: Seq<char>, b: Seq<char>, seen_a: Seq<String>, seen_b: Seq<String>)
    requires
        is_least(a, seen_a),
        is_least(b, seen_b),
        forall|id: Seq<char>| #[trigger] is_member(id, seen_a) == is_member(id, seen_b),
    ensures
        a == b,
{
    assert(is_member(a, seen_a));
    assert(is_member(b, seen_b));
    assert(is_member(a, seen_b) && is_member(b, seen_a));
    let i = choose|i: int| 0 <= i < seen_b.len() && (#[trigger] seen_b[i])@ == a;
    let j = choose|j: int| 0 <= j < seen_a.len() && (#[trigger] seen_a[j])@ == b;
    crate::text::text_less_total(a, b);
}

pub open spec fn is_member(id: Seq<char>, live: Seq<String>) -> bool {
    exists|i: int| 0 <= i < live.len() && (#[trigger] live[i])@ == id
}

/// When the leader leaves, the next one comes after it and before every other
/// node that is left.
pub proof fn failover_takes_the_next(
    leader: Seq<char>,
    next: Seq<char>,
    live: Seq<String>,
    left: Seq<String>,
)
    requires
        is_least(leader, live),
        is_least(next, left),
        !is_member(leader, left),
        forall|id: Seq<char>| #[trigger] is_member(id, left) ==> is_member(id, live),
    ensures
        text_less(leader, next),
        forall|id: Seq<char>| #[trigger] is_member(id, left) ==> id == next || text_less(next, id),
{
    assert(is_member(next, left));
    assert(is_member(next, live));
    let i = choose|i: int| 0 <= i < live.len() && (#[trigger] live[i])@ == next;
    crate::text::text_less_total(leader, next);
    assert forall|id: Seq<char>| #[trigger] is_member(id, left) implies id == next || text_less(
        next,
        id,
    ) by {
        let k = choose|k: int| 0 <= k < left.len() && (#[trigger] left[k])@ == id;
        crate::text::text_less_total(id, next);
    }
}

// ── Fencing ─────────────────────────────────────────────────────────

/// Monotonic epoch gate that fences a deposed leader out of the log stream.
///
/// Each leadership reign carries a strictly higher epoch. A standby records
/// the highest epoch it has accepted and **rejects any record stamped with a
/// lower epoch**. Records at the current epoch are accepted; a higher epoch
/// raises the bar.
#[derive(Debug)]
pub struct EpochFencer {
    highest: u64,
}

impl View for EpochFencer {
    type V = u64;

    /// The highest epoch accepted so far.
    closed spec fn view(&self) -> u64 {
        self.highest
    }
}

impl EpochFencer {
    pub fn new() -> (r: Self)
        ensures
            r@ == 0,
    {
        EpochFencer { highest: 0 }
    }

    /// Accept a record stamped with `epoch`? Accepts when `epoch` is at least
    /// the highest seen (raising the bar on a newer epoch); rejects a
    /// strictly older one.
    pub fn check_and_advance(&mut self, epoch: u64) -> (r: bool)
        ensures
            r == (epoch >= old(self)@),
            final(self)@ == if r {
                epoch
            } else {
                old(self)@
            },
            r == passes_the_bar(old(self)@, epoch),
    {
        if epoch < self.highest {
            return false;
        }
        self.highest = epoch;
        true
    }

    /// The highest epoch accepted so far.
    pub fn highest(&self) -> (r: u64)
        ensures
            r == self@,
    {
        self.highest
    }
}

impl Default for EpochFencer {
    fn default() -> (r: EpochFencer)
        ensures
            r@ == 0,
    {
        EpochFencer::new()
    }
}

/// The bar after a series of epochs.
pub open spec fn bar_after(epochs: Seq<u64>) -> u64
    decreases epochs.len(),
{
    if epochs.len() == 0 {
        0
    } else {
        let before = bar_after(epochs.drop_last());
        if epochs.last() >= before {
            epochs.last()
        } else {
            before
        }
    }
}

/// The bar stands at the highest epoch that came: it never falls, and
/// whatever is lower than an epoch that was let in stays out.
pub proof fn bar_is_the_highest(epochs: Seq<u64>)
    ensures
        forall|i: int| 0 <= i < epochs.len() ==> (#[trigger] epochs[i]) <= bar_after(epochs),
        epochs.len() > 0 ==> epochs.contains(bar_after(epochs)) || bar_after(epochs) == 0,
    decreases epochs.len(),
{
    if epochs.len() > 0 {
        let init = epochs.drop_last();
        bar_is_the_highest(init);
        assert forall|i: int| 0 <= i < epochs.len() implies (#[trigger] epochs[i]) <= bar_after(
            epochs,
        ) by {
            if i < init.len() {
                assert(init[i] == epochs[i]);
            }
        }
        if epochs.last() >= bar_after(init) {
            assert(epochs[epochs.len() - 1] == bar_after(epochs));
        } else if init.len() > 0 && init.contains(bar_after(init)) {
            let i = choose|i: int| 0 <= i < init.len() && init[i] == bar_after(init);
            assert(epochs[i] == bar_after(epochs));
        }
    }
}

// ── The election loop's step ────────────────────────────────────────

/// What a node does after looking at the membership view.
#[derive(Debug, Clone, Copy, PartialEq, Eq, Structural)]
pub enum ElectionStep {
    /// Took the lead; ships records under this epoch from now on.
    Promoted { epoch: u64 },
    SteppedDown,
    Unchanged,
}

/// The epoch that a member advertises, where it is a number.
pub open spec fn advertised(text: Option<String>) -> Option<u64> {
    match text {
        Some(t) => match unsigned_literal(t@) {
            Some(n) => if n <= u64::MAX {
                Some(n as u64)
            } else {
                None
            },
            None => None,
        },
        None => None,
    }
}

/// The highest advertised epoch, or zero.
pub open spec fn highest_advertised(epochs: Seq<Option<String>>) -> u64
    decreases epochs.len(),
{
    if epochs.len() == 0 {
        0
    } else {
        let before = highest_advertised(epochs.drop_last());
        match advertised(epochs.last()) {
            Some(n) => if n > before {
                n
            } else {
                before
            },
            None => before,
        }
    }
}

fn max_epoch(epochs: &Vec<Option<String>>) -> (r: u64)
    ensures
        r == highest_advertised(epochs@),
{
    let mut best: u64 = 0;
    let mut i: usize = 0;
    assert(epochs@.take(0) =~= Seq::<Option<String>>::empty());
    while i < epochs.len()
        invariant
            i <= epochs@.len(),
            best == highest_advertised(epochs@.take(i as int)),
        decreases epochs@.len() - i,
    {
        assert(epochs@.take(i as int + 1).drop_last() =~= epochs@.take(i as int));
        assert(epochs@.take(i as int + 1).last() == epochs@[i as int]);
        if let Some(t) = &epochs[i] {
            if let Some(n) = parse_unsigned(t.as_str(), 0xffff_ffff_ffff_ffff) {
                if n > best {
                    best = n;
                }
            }
        }
        i = i + 1;
    }
    assert(epochs@.take(epochs@.len() as int) =~= epochs@);
    best
}

/// Where a node stands in the elections of its group: whether it leads, and the
/// highest epoch that it has ever seen, its own ones among them.
#[derive(Debug, Clone, Copy, PartialEq, Eq, Structural)]
pub struct Election {
    pub leads: bool,
    pub seen: u64,
}

/// What a node sees of its group at one time: the live ids, the epochs that are
/// advertised, and the highest one under which it has taken a record.
pub struct Sight {
    pub live: Seq<String>,
    pub epochs: Seq<Option<String>>,
    pub accepted: u64,
}

/// The highest epoch that a node has seen once it has looked.
pub open spec fn seen_after(seen: u64, sight: Sight) -> u64 {
    let advertised = highest_advertised(sight.epochs);
    let most = if advertised > seen {
        advertised
    } else {
        seen
    };
    if sight.accepted > most {
        sight.accepted
    } else {
        most
    }
}

/// What a node does on what it sees. It takes the lead under an epoch past all
/// that it has ever seen; where none is left, it cannot take the lead.
pub open spec fn step_on(node_id: Seq<char>, before: Election, sight: Sight) -> ElectionStep {
    let least = is_least(node_id, sight.live);
    let seen = seen_after(before.seen, sight);
    if least && !before.leads && seen < u64::MAX {
        ElectionStep::Promoted { epoch: (seen + 1) as u64 }
    } else if !least && before.leads {
        ElectionStep::SteppedDown
    } else {
        ElectionStep::Unchanged
    }
}

/// Where a node stands afterwards.
pub open spec fn stands_after(node_id: Seq<char>, before: Election, sight: Sight) -> Election {
    match step_on(node_id, before, sight) {
        ElectionStep::Promoted { epoch } => Election { leads: true, seen: epoch },
        ElectionStep::SteppedDown => Election {
            leads: false,
            seen: seen_after(before.seen, sight),
        },
        ElectionStep::Unchanged => Election {
            leads: before.leads,
            seen: seen_after(before.seen, sight),
        },
    }
}

impl Election {
    /// A node that has seen nothing yet.
    pub fn new() -> (r: Election)
        ensures
            r == (Election { leads: false, seen: 0 }),
    {
        Election { leads: false, seen: 0 }
    }

    /// Recompute leadership from the membership view: the live ids, the epochs
    /// that are advertised, by whomever, and the highest one under which this
    /// node has taken a record.
    pub fn step(
        &mut self,
        node_id: &str,
        live: &Vec<String>,
        epochs: &Vec<Option<String>>,
        accepted: u64,
    ) -> (r: ElectionStep)
        ensures
            ({
                let sight = Sight { live: live@, epochs: epochs@, accepted };
                &&& r == step_on(node_id@, *old(self), sight)
                &&& *final(self) == stands_after(node_id@, *old(self), sight)
            }),
    {
        let least: bool = match elect_leader(live.as_slice()) {
            Some(id) => {
                let mine: bool = same(id.as_str(), node_id);
                proof {
                    if is_least(node_id@, live@) {
                        leader_is_agreed(id@, node_id@, live@, live@);
                    }
                }
                mine
            },
            None => false,
        };
        let mut seen: u64 = max_epoch(epochs);
        if self.seen > seen {
            seen = self.seen;
        }
        if accepted > seen {
            seen = accepted;
        }
        if least && !self.leads && seen < 0xffff_ffff_ffff_ffff {
            self.leads = true;
            self.seen = seen + 1;
            ElectionStep::Promoted { epoch: seen + 1 }
        } else {
            self.seen = seen;
            if !least && self.leads {
                self.leads = false;
                ElectionStep::SteppedDown
            } else {
                ElectionStep::Unchanged
            }
        }
    }
}

/// Where a node stands after it has looked some times.
pub open spec fn stands_after_all(node_id: Seq<char>, sights: Seq<Sight>) -> Election
    decreases sights.len(),
{
    if sights.len() == 0 {
        Election { leads: false, seen: 0 }
    } else {
        stands_after(node_id, stands_after_all(node_id, sights.drop_last()), sights.last())
    }
}

/// What a node did when it looked for the `k`th time.
pub open spec fn step_at(node_id: Seq<char>, sights: Seq<Sight>, k: int) -> ElectionStep {
    step_on(node_id, stands_after_all(node_id, sights.take(k)), sights[k])
}

/// A node that takes the lead goes past every epoch that it has ever seen: the
/// ones advertised by members, live or gone since, the ones of records that it
/// has taken, and those of its own earlier reigns.
pub proof fn a_promotion_passes_every_epoch_seen(
    node_id: Seq<char>,
    sights: Seq<Sight>,
    n: int,
    k: int,
    i: int,
)
    requires
        0 <= k <= n < sights.len(),
    ensures
        step_at(node_id, sights, n) matches ElectionStep::Promoted { epoch } ==> {
            &&& sights[k].accepted < epoch
            &&& 0 <= i < sights[k].epochs.len() ==> (advertised(sights[k].epochs[i]) matches Some(
                m,
            ) ==> m < epoch)
            &&& k < n ==> (step_at(node_id, sights, k) matches ElectionStep::Promoted {
                epoch: earlier,
            } ==> earlier < epoch)
        },
{
    let last = sights.take(n + 1);
    assert(last.drop_last() =~= sights.take(n));
    if k < n {
        sightings_are_remembered(node_id, sights, n, k, i);
    } else if 0 <= i < sights[n].epochs.len() {
        highest_bounds(sights[n].epochs, i);
    }
}

proof fn sightings_are_remembered(
    node_id: Seq<char>,
    sights: Seq<Sight>,
    n: int,
    k: int,
    i: int,
)
    requires
        0 <= k < n <= sights.len(),
    ensures
        ({
            let seen = stands_after_all(node_id, sights.take(n)).seen;
            &&& sights[k].accepted <= seen
            &&& 0 <= i < sights[k].epochs.len() ==> (advertised(sights[k].epochs[i]) matches Some(
                m,
            ) ==> m <= seen)
            &&& step_at(node_id, sights, k) matches ElectionStep::Promoted { epoch } ==> epoch
                <= seen
        }),
    decreases n,
{
    assert(sights.take(n).drop_last() =~= sights.take(n - 1));
    assert(sights.take(n).last() == sights[n - 1]);
    if k < n - 1 {
        sightings_are_remembered(node_id, sights, n - 1, k, i);
    } else if 0 <= i < sights[k].epochs.len() {
        highest_bounds(sights[k].epochs, i);
    }
}

proof fn highest_bounds(epochs: Seq<Option<String>>, i: int)
    requires
        0 <= i < epochs.len(),
    ensures
        advertised(epochs[i]) matches Some(n) ==> n <= highest_advertised(epochs),
    decreases epochs.len(),
{
    if i < epochs.len() - 1 {
        highest_bounds(epochs.drop_last(), i);
    }
}

/// A node takes the lead exactly when it is the least of those that live and does
/// not lead yet, under an epoch above all that it has seen, and steps down exactly
/// when it leads and is not the least any more.
pub proof fn the_least_leads(node_id: Seq<char>, before: Election, sight: Sight)
    ensures
        ({
            let after = stands_after(node_id, before, sight);
            let least = is_least(node_id, sight.live);
            let seen = seen_after(before.seen, sight);
            &&& seen < u64::MAX ==> (after.leads <==> least)
            &&& !least ==> !after.leads
            &&& before.leads && least ==> after.leads && step_on(node_id, before, sight)
                is Unchanged
            &&& step_on(node_id, before, sight) is SteppedDown <==> before.leads && !least
            &&& step_on(node_id, before, sight) matches ElectionStep::Promoted { epoch } ==> least
                && !before.leads && epoch > before.seen && epoch > sight.accepted && epoch
                > highest_advertised(sight.epochs) && after.seen == epoch
            &&& after.seen >= before.seen && after.seen >= sight.accepted
        }),
{
}

/// The highest epoch advertised is one that a peer advertises, and none is higher.
pub proof fn the_highest_epoch_is_taken(epochs: Seq<Option<String>>, i: int)
    ensures
        0 <= i < epochs.len() ==> (advertised(epochs[i]) matches Some(n) ==> n <= highest_advertised(
            epochs,
        )),
        highest_advertised(epochs) > 0 ==> exists|k: int|
            0 <= k < epochs.len() && advertised(#[trigger] epochs[k]) == Some(
                highest_advertised(epochs),
            ),
        0 <= i < epochs.len() ==> (epochs[i] matches Some(t) ==> forall|n: u64|
            t@ == #[trigger] crate::text::decimal(n as nat) ==> advertised(epochs[i]) == Some(n)),
    decreases epochs.len(),
{
    if epochs.len() > 0 {
        let init = epochs.drop_last();
        the_highest_epoch_is_taken(init, i);
        assert(epochs[epochs.len() - 1] == epochs.last());
        if 0 <= i < init.len() {
            assert(init[i] == epochs[i]);
        }
        if highest_advertised(init) > 0 {
            let k = choose|k: int|
                0 <= k < init.len() && advertised(#[trigger] init[k]) == Some(
                    highest_advertised(init),
                );
            assert(epochs[k] == init[k]);
        }
        if 0 <= i < epochs.len() {
            if let Some(t) = epochs[i] {
                assert forall|n: u64| t@ == #[trigger] crate::text::decimal(n as nat) implies advertised(
                    epochs[i],
                ) == Some(n) by {
                    crate::text::decimal_reads_back(n as nat);
                    assert(t@[0] != '+');
                }
            }
        }
    }
}

/// Whether a leader of an epoch may still ship records.
pub open spec fn passes_the_bar(bar: u64, epoch: u64) -> bool {
    epoch >= bar
}

/// A leader is turned away exactly when one of a later epoch shipped before it,
/// and a leader that was let in is let in again until then.
pub proof fn deposed_leaders_are_fenced(epochs: Seq<u64>, i: int, epoch: u64)
    requires
        0 <= i < epochs.len(),
    ensures
        epoch < epochs[i] ==> !passes_the_bar(bar_after(epochs), epoch),
        (forall|k: int| 0 <= k < epochs.len() ==> epochs[k] <= epoch) ==> passes_the_bar(
            bar_after(epochs),
            epoch,
        ),
        passes_the_bar(bar_after(epochs), epoch) ==> passes_the_bar(
            bar_after(epochs.push(epoch)),
            epoch,
        ),
        passes_the_bar(bar_after(Seq::empty()), epoch),
        bar_after(epochs.push(epoch)) == if passes_the_bar(bar_after(epochs), epoch) {
            epoch
        } else {
            bar_after(epochs)
        },
{
    bar_is_the_highest(epochs);
    assert(epochs.push(epoch).drop_last() =~= epochs);
    if forall|k: int| 0 <= k < epochs.len() ==> epochs[k] <= epoch {
        if bar_after(epochs) > epoch {
            let k = choose|k: int| 0 <= k < epochs.len() && epochs[k] == bar_after(epochs);
            assert(epochs[k] <= epoch);
        }
    }
}

} // verus!
