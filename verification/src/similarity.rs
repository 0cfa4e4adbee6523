//! Trace similarity and clustering: what is ranked, what is grouped, and in
//! which order it is reported. Similarities are single-precision numbers, held
//! as their bits.

use crate::grouping::{assigned, assigned_to};
use crate::ranking::{as_ints, is_ranking, rank, ranking};
use crate::text::{same, texts};
use vstd::prelude::*;

verus! {

// ── Numbers ─────────────────────────────────────────────────────────

pub open spec fn is_nan32(bits: u32) -> bool {
    bits % 0x8000_0000 > 0x7f80_0000
}

/// A number that orders single-precision numbers as their values do.
pub open spec fn order32(bits: u32) -> i64 {
    if bits < 0x8000_0000 {
        bits as i64
    } else {
        (0x8000_0000 - bits) as i64
    }
}

fn key32(bits: u32) -> (r: i64)
    ensures
        r == order32(bits),
{
    if bits < 0x8000_0000 {
        bits as i64
    } else {
        0x8000_0000 - bits as i64
    }
}

fn nan32(bits: u32) -> (r: bool)
    ensures
        r == is_nan32(bits),
{
    bits % 0x8000_0000 > 0x7f80_0000
}

// ── Neighbours ──────────────────────────────────────────────────────

/// A trace and how similar it is to the one that is asked about; nothing where
/// the two cannot be compared.
#[derive(Debug)]
pub struct Candidate {
    pub trace_id: String,
    pub similarity: Option<u32>,
}

/// A trace's similarity to a query trace.
#[derive(Debug)]
pub struct Neighbor {
    pub trace_id: String,
    pub similarity: u32,
}

impl View for Neighbor {
    type V = (Seq<char>, u32);

    open spec fn view(&self) -> (Seq<char>, u32) {
        (self.trace_id@, self.similarity)
    }
}

pub open spec fn neighbor_views(v: Seq<Neighbor>) -> Seq<(Seq<char>, u32)> {
    v.map_values(|n: Neighbor| n@)
}

/// Whether a similarity reaches the floor.
pub open spec fn reaches(similarity: u32, floor: u32) -> bool {
    !is_nan32(similarity) && !is_nan32(floor) && order32(similarity) >= order32(floor)
}

/// The candidates that count: not the query itself, comparable to it, and
/// similar enough.
pub open spec fn eligible(query: Seq<char>, candidates: Seq<Candidate>, floor: u32) -> Seq<
    (Seq<char>, u32),
>
    decreases candidates.len(),
{
    if candidates.len() == 0 {
        Seq::empty()
    } else {
        let before = eligible(query, candidates.drop_last(), floor);
        let c = candidates.last();
        match c.similarity {
            Some(s) => if c.trace_id@ != query && reaches(s, floor) {
                before.push((c.trace_id@, s))
            } else {
                before
            },
            None => before,
        }
    }
}

pub open spec fn similarity_keys(v: Seq<(Seq<char>, u32)>) -> Seq<i64> {
    v.map_values(|n: (Seq<char>, u32)| order32(n.1))
}

/// Items in the order of a ranking.
pub open spec fn in_order<T>(items: Seq<T>, order: Seq<int>) -> Seq<T> {
    order.map_values(|i: int| items[i])
}

/// The most similar candidates, most similar first, equals in the order in
/// which they came.
pub open spec fn nearest_of(
    query: Seq<char>,
    candidates: Seq<Candidate>,
    limit: nat,
    floor: u32,
) -> Seq<(Seq<char>, u32)> {
    let kept = eligible(query, candidates, floor);
    let ranked = in_order(kept, ranking(similarity_keys(kept)));
    if limit < ranked.len() {
        ranked.take(limit as int)
    } else {
        ranked
    }
}

/// Rank candidates by similarity to a query.
pub fn nearest(query: &str, candidates: &Vec<Candidate>, limit: usize, min_similarity: u32) -> (r:
    Vec<Neighbor>)
    ensures
        neighbor_views(r@) == nearest_of(query@, candidates@, limit as nat, min_similarity),
{
    let mut kept: Vec<usize> = Vec::new();
    let mut keys: Vec<i64> = Vec::new();
    let ghost mut found: Seq<(Seq<char>, u32)> = Seq::empty();
    let mut i: usize = 0;
    assert(candidates@.take(0) =~= Seq::<Candidate>::empty());
    assert(keys@ =~= similarity_keys(found));
    while i < candidates.len()
        invariant
            i <= candidates@.len(),
            found == eligible(query@, candidates@.take(i as int), min_similarity),
            kept@.len() == found.len(),
            keys@ == similarity_keys(found),
            forall|k: int|
                0 <= k < kept@.len() ==> {
                    &&& #[trigger] kept@[k] < candidates@.len()
                    &&& candidates@[kept@[k] as int].similarity == Some(found[k].1)
                    &&& candidates@[kept@[k] as int].trace_id@ == found[k].0
                },
        decreases candidates@.len() - i,
    {
        assert(candidates@.take(i as int + 1).drop_last() =~= candidates@.take(i as int));
        assert(candidates@.take(i as int + 1).last() == candidates@[i as int]);
        if let Some(s) = candidates[i].similarity {
            if !same(candidates[i].trace_id.as_str(), query) && !nan32(s) && !nan32(min_similarity)
                && key32(s) >= key32(min_similarity) {
                let ghost before = found;
                kept.push(i);
                keys.push(key32(s));
                proof {
                    found = before.push((candidates@[i as int].trace_id@, s));
                    assert(keys@ =~= similarity_keys(found));
                }
            }
        }
        i = i + 1;
    }
    assert(candidates@.take(candidates@.len() as int) =~= candidates@);
    let order = rank(&keys);
    let ghost ranked = in_order(found, ranking(similarity_keys(found)));
    let n: usize = if limit < order.len() {
        limit
    } else {
        order.len()
    };
    let mut out: Vec<Neighbor> = Vec::new();
    let mut j: usize = 0;
    assert(neighbor_views(out@) =~= ranked.take(0));
    while j < n
        invariant
            j <= n <= order@.len(),
            ranked == in_order(found, ranking(similarity_keys(found))),
            as_ints(order@) == ranking(similarity_keys(found)),
            is_ranking(keys@, as_ints(order@)),
            keys@ == similarity_keys(found),
            kept@.len() == found.len(),
            forall|k: int|
                0 <= k < kept@.len() ==> {
                    &&& #[trigger] kept@[k] < candidates@.len()
                    &&& candidates@[kept@[k] as int].similarity == Some(found[k].1)
                    &&& candidates@[kept@[k] as int].trace_id@ == found[k].0
                },
            neighbor_views(out@) == ranked.take(j as int),
        decreases n - j,
    {
        let ghost before = out@;
        assert(as_ints(order@)[j as int] == order@[j as int] as int);
        let at: usize = kept[order[j]];
        if let Some(s) = candidates[at].similarity {
            let hit = Neighbor { trace_id: candidates[at].trace_id.clone(), similarity: s };
            assert(hit@ == ranked[j as int]);
            out.push(hit);
            assert(neighbor_views(out@) =~= neighbor_views(before).push(hit@));
        }
        j = j + 1;
        assert(neighbor_views(out@) =~= ranked.take(j as int));
    }
    assert(ranked.take(ranked.len() as int) =~= ranked);
    out
}

// ── Clusters ────────────────────────────────────────────────────────

/// Why traces cannot be clustered.
#[derive(Debug, Clone, Copy, PartialEq, Eq, Structural)]
pub enum ClusterError {
    NoClusters,
    NoDimensions,
    InconsistentDimensions,
}

impl ClusterError {
    pub open spec fn text(self) -> Seq<char> {
        match self {
            ClusterError::NoClusters => "cluster count must be at least 1"@,
            ClusterError::NoDimensions => "embeddings have no dimensions"@,
            ClusterError::InconsistentDimensions =>
                "embeddings have inconsistent dimensions; they must all come from the same model"@,
        }
    }

    pub fn message(&self) -> (r: String)
        ensures
            r@ == self.text(),
    {
        match self {
            ClusterError::NoClusters => "cluster count must be at least 1".to_owned(),
            ClusterError::NoDimensions => "embeddings have no dimensions".to_owned(),
            ClusterError::InconsistentDimensions =>
                "embeddings have inconsistent dimensions; they must all come from the same model".to_owned(),
        }
    }
}

pub open spec fn at_most(k: usize, n: nat) -> nat {
    if k < n {
        k as nat
    } else {
        n
    }
}

/// Evenly spaced seeds: the same on every run, and spread across the input.
pub open spec fn seed_positions(n: nat, k: nat) -> Seq<int> {
    Seq::new(k, |i: int| i * (n as int / k as int))
}

/// The seeds for clustering some embeddings, given the dimensions of each. None
/// at all where there is nothing to cluster; and no more clusters than
/// embeddings.
pub fn seeds(dims: &Vec<usize>, k: usize) -> (r: Result<Vec<usize>, ClusterError>)
    ensures
        match r {
            Ok(s) => {
                &&& dims@.len() == 0 ==> s@.len() == 0
                &&& dims@.len() > 0 ==> {
                    &&& k > 0
                    &&& dims@[0] > 0
                    &&& forall|i: int| 0 <= i < dims@.len() ==> #[trigger] dims@[i] == dims@[0]
                    &&& as_ints(s@) == seed_positions(dims@.len(), at_most(k, dims@.len()))
                    &&& forall|i: int| 0 <= i < s@.len() ==> #[trigger] s@[i] < dims@.len()
                }
            },
            Err(ClusterError::NoClusters) => dims@.len() > 0 && k == 0,
            Err(ClusterError::NoDimensions) => dims@.len() > 0 && k > 0 && dims@[0] == 0,
            Err(ClusterError::InconsistentDimensions) => {
                &&& dims@.len() > 0
                &&& k > 0
                &&& dims@[0] > 0
                &&& exists|i: int| 0 <= i < dims@.len() && #[trigger] dims@[i] != dims@[0]
            },
        },
{
    let n: usize = dims.len();
    if n == 0 {
        return Ok(Vec::new());
    }
    if k == 0 {
        return Err(ClusterError::NoClusters);
    }
    if dims[0] == 0 {
        return Err(ClusterError::NoDimensions);
    }
    let mut i: usize = 0;
    while i < n
        invariant
            i <= n == dims@.len(),
            n > 0,
            k > 0,
            dims@[0] > 0,
            forall|j: int| 0 <= j < i ==> #[trigger] dims@[j] == dims@[0],
        decreases n - i,
    {
        if dims[i] != dims[0] {
            assert(dims@[i as int] != dims@[0]);
            return Err(ClusterError::InconsistentDimensions);
        }
        i = i + 1;
    }
    let k: usize = if k < n {
        k
    } else {
        n
    };
    let stride: usize = n / k;
    let mut out: Vec<usize> = Vec::new();
    let mut j: usize = 0;
    let mut at: usize = 0;
    assert(as_ints(out@) =~= seed_positions(n as nat, k as nat).take(0));
    assert(0 * stride == 0) by (nonlinear_arith);
    while j < k
        invariant
            j <= k <= n,
            k > 0,
            stride == n as int / k as int,
            at == j * stride,
            as_ints(out@) == seed_positions(n as nat, k as nat).take(j as int),
            forall|q: int| 0 <= q < out@.len() ==> #[trigger] out@[q] < n,
        decreases k - j,
    {
        let ghost before = out@;
        proof {
            assert(j * stride + stride <= n) by (nonlinear_arith)
                requires
                    j < k,
                    k > 0,
                    stride == n as int / k as int,
            ;
            assert((j + 1) * stride == j * stride + stride) by (nonlinear_arith);
            assert(stride >= 1) by (nonlinear_arith)
                requires
                    k <= n,
                    k > 0,
                    stride == n as int / k as int,
            ;
        }
        out.push(at);
        assert(as_ints(out@) =~= as_ints(before).push(at as int));
        assert(seed_positions(n as nat, k as nat)[j as int] == at as int);
        at = at + stride;
        j = j + 1;
        assert(as_ints(out@) =~= seed_positions(n as nat, k as nat).take(j as int));
    }
    assert(seed_positions(n as nat, k as nat).take(k as int) =~= seed_positions(
        n as nat,
        k as nat,
    ));
    Ok(out)
}

/// Whether a comparable similarity is greater than another.
pub open spec fn exceeds(a: u32, b: u32) -> bool {
    !is_nan32(a) && !is_nan32(b) && order32(a) > order32(b)
}

/// The place of the greatest similarity, the last of equals, among the first
/// `n`; nothing where none of them can be compared.
pub open spec fn best_among(similarities: Seq<Option<u32>>, n: nat) -> Option<int>
    decreases n,
{
    if n == 0 {
        None
    } else {
        let before = best_among(similarities, (n - 1) as nat);
        match (before, similarities[n - 1]) {
            (b, None) => b,
            (None, Some(_)) => Some(n - 1),
            (Some(b), Some(s)) => if similarities[b] is Some && exceeds(similarities[b]->0, s) {
                Some(b)
            } else {
                Some(n - 1)
            },
        }
    }
}

/// The centroid that an embedding goes to: the most similar one, and the first
/// where none can be compared.
pub open spec fn chosen_centroid(similarities: Seq<Option<u32>>) -> int {
    match best_among(similarities, similarities.len()) {
        Some(c) => c,
        None => 0,
    }
}

pub fn best_centroid(similarities: &Vec<Option<u32>>) -> (r: usize)
    ensures
        r == chosen_centroid(similarities@),
        similarities@.len() > 0 ==> r < similarities@.len(),
{
    let mut best: Option<(usize, u32)> = None;
    let mut i: usize = 0;
    while i < similarities.len()
        invariant
            i <= similarities@.len(),
            match best {
                Some((b, s)) => {
                    &&& b < i
                    &&& best_among(similarities@, i as nat) == Some(b as int)
                    &&& similarities@[b as int] == Some(s)
                },
                None => best_among(similarities@, i as nat) is None,
            },
        decreases similarities@.len() - i,
    {
        if let Some(s) = similarities[i] {
            match best {
                Some((_, t)) => {
                    if !(!nan32(t) && !nan32(s) && key32(t) > key32(s)) {
                        best = Some((i, s));
                    }
                },
                None => {
                    best = Some((i, s));
                },
            }
        }
        i = i + 1;
    }
    match best {
        Some((b, _)) => b,
        None => 0,
    }
}

/// Take over new assignments. Says whether any changed.
pub fn reassign(assignments: &mut Vec<usize>, best: Vec<usize>) -> (r: bool)
    requires
        old(assignments)@.len() == best@.len(),
    ensures
        final(assignments)@ == best@,
        r == (old(assignments)@ != best@),
{
    let mut changed: bool = false;
    let mut i: usize = 0;
    while i < best.len()
        invariant
            i <= best@.len(),
            *assignments == *old(assignments),
            assignments@.len() == best@.len(),
            changed == (exists|j: int| 0 <= j < i && #[trigger] assignments@[j] != best@[j]),
        decreases best@.len() - i,
    {
        if assignments[i] != best[i] {
            changed = true;
        }
        i = i + 1;
    }
    if !changed {
        assert(assignments@ =~= best@);
    }
    *assignments = best;
    changed
}

// ── Rounds ──────────────────────────────────────────────────────────

/// A clustering under way: which centroid each embedding is assigned to, how
/// many rounds are left, and whether the last one changed anything.
#[derive(Debug)]
pub struct Clustering {
    pub assignments: Vec<usize>,
    pub rounds: usize,
    pub settled: bool,
}

/// The centroids that embeddings go to, by the similarities of each to all
/// centroids.
pub open spec fn chosen_centroids(similarities: Seq<Vec<Option<u32>>>) -> Seq<int> {
    similarities.map_values(|s: Vec<Option<u32>>| chosen_centroid(s@))
}

impl Clustering {
    /// All embeddings with the first centroid, and so many rounds to go.
    pub fn new(embeddings: usize, rounds: usize) -> (r: Clustering)
        ensures
            r.assignments@ == Seq::new(embeddings as nat, |i: int| 0usize),
            r.rounds == rounds,
            !r.settled,
    {
        let mut assignments: Vec<usize> = Vec::new();
        let mut i: usize = 0;
        while i < embeddings
            invariant
                i <= embeddings,
                assignments@ == Seq::new(i as nat, |i: int| 0usize),
            decreases embeddings - i,
        {
            assignments.push(0);
            i = i + 1;
            assert(assignments@ =~= Seq::new(i as nat, |i: int| 0usize));
        }
        Clustering { assignments, rounds, settled: false }
    }

    /// Whether another round is due: one is left, and the last one changed
    /// something.
    pub fn goes_on(&self) -> (r: bool)
        ensures
            r == (self.rounds > 0 && !self.settled),
    {
        self.rounds > 0 && !self.settled
    }

    /// One round, by the similarities of each embedding to all centroids: each
    /// goes to the most similar one. Says whether any assignment changed, after
    /// which the centroids move; where none did, the clustering has settled.
    pub fn round(&mut self, similarities: &Vec<Vec<Option<u32>>>) -> (r: bool)
        requires
            old(self).rounds > 0,
            !old(self).settled,
            similarities@.len() == old(self).assignments@.len(),
        ensures
            final(self).assignments@.map_values(|c: usize| c as int) == chosen_centroids(
                similarities@,
            ),
            r == (old(self).assignments@ != final(self).assignments@),
            final(self).settled == !r,
            final(self).rounds == old(self).rounds - 1,
            forall|i: int|
                0 <= i < similarities@.len() && (#[trigger] similarities@[i])@.len() > 0
                    ==> final(self).assignments@[i] < similarities@[i]@.len(),
    {
        let ghost wanted = chosen_centroids(similarities@);
        let mut best: Vec<usize> = Vec::new();
        let mut i: usize = 0;
        while i < similarities.len()
            invariant
                i <= similarities@.len(),
                wanted == chosen_centroids(similarities@),
                best@.map_values(|c: usize| c as int) == wanted.take(i as int),
                forall|j: int|
                    0 <= j < i && (#[trigger] similarities@[j])@.len() > 0 ==> best@[j]
                        < similarities@[j]@.len(),
            decreases similarities@.len() - i,
        {
            let ghost before = best@;
            let c: usize = best_centroid(&similarities[i]);
            best.push(c);
            assert(best@.map_values(|c: usize| c as int) =~= before.map_values(
                |c: usize| c as int,
            ).push(c as int));
            i = i + 1;
            assert(best@.map_values(|c: usize| c as int) =~= wanted.take(i as int));
        }
        assert(wanted.take(similarities@.len() as int) =~= wanted);
        assert(best@.len() == best@.map_values(|c: usize| c as int).len());
        let mut assignments: Vec<usize> = Vec::new();
        std::mem::swap(&mut assignments, &mut self.assignments);
        let changed: bool = reassign(&mut assignments, best);
        self.assignments = assignments;
        self.rounds = self.rounds - 1;
        self.settled = !changed;
        changed
    }
}

// ── Clusters ────────────────────────────────────────────────────────

/// A group of traces that embedded close together.
#[derive(Debug)]
pub struct Cluster {
    pub id: usize,
    /// The member nearest the centroid: the best single trace to read.
    pub exemplar: String,
    pub size: usize,
    pub members: Vec<String>,
    /// Mean similarity of members to the centroid.
    pub cohesion: u32,
}

pub struct ClusterModel {
    pub exemplar: Seq<char>,
    pub members: Seq<Seq<char>>,
    pub cohesion: u32,
}

impl Cluster {
    /// What a cluster is about. Its number and size follow from where it is
    /// reported and from its members.
    pub open spec fn content(&self) -> ClusterModel {
        ClusterModel {
            exemplar: self.exemplar@,
            members: texts(self.members@),
            cohesion: self.cohesion,
        }
    }
}

pub open spec fn some_of(v: Seq<u32>) -> Seq<Option<u32>> {
    v.map_values(|s: u32| Some(s))
}

pub open spec fn members_of(ids: Seq<Seq<char>>, places: Seq<int>) -> Seq<Seq<char>> {
    places.map_values(|i: int| ids[i])
}

/// The clusters in the order of their centroids, without the empty ones. An
/// exemplar is the member with the greatest similarity to the centroid.
pub open spec fn drafts(
    ids: Seq<Seq<char>>,
    assignments: Seq<usize>,
    similarities: Seq<Vec<u32>>,
    cohesion: Seq<u32>,
    k: nat,
) -> Seq<ClusterModel>
    decreases k,
{
    if k == 0 {
        Seq::empty()
    } else {
        let c = k - 1;
        let before = drafts(ids, assignments, similarities, cohesion, c as nat);
        let places = assigned(assignments, c as usize);
        if places.len() == 0 {
            before
        } else {
            before.push(
                ClusterModel {
                    exemplar: ids[places[chosen_centroid(some_of(similarities[c]@))]],
                    members: members_of(ids, places),
                    cohesion: cohesion[c],
                },
            )
        }
    }
}

pub open spec fn sizes_of(v: Seq<ClusterModel>) -> Seq<usize> {
    v.map_values(|c: ClusterModel| c.members.len() as usize)
}

/// The clusters as they are reported: the biggest first.
pub open spec fn reported(v: Seq<ClusterModel>) -> Seq<ClusterModel> {
    in_order(v, ranking(sizes_of(v)))
}

pub open spec fn cluster_views(v: Seq<Cluster>) -> Seq<ClusterModel> {
    v.map_values(|c: Cluster| c.content())
}

fn name_members(ids: &Vec<String>, places: &Vec<usize>) -> (r: Vec<String>)
    requires
        forall|i: int| 0 <= i < places@.len() ==> #[trigger] places@[i] < ids@.len(),
    ensures
        texts(r@) == members_of(texts(ids@), as_ints(places@)),
{
    let ghost wanted = members_of(texts(ids@), as_ints(places@));
    let mut out: Vec<String> = Vec::new();
    let mut i: usize = 0;
    while i < places.len()
        invariant
            i <= places@.len(),
            forall|i: int| 0 <= i < places@.len() ==> #[trigger] places@[i] < ids@.len(),
            wanted == members_of(texts(ids@), as_ints(places@)),
            texts(out@) == wanted.take(i as int),
        decreases places@.len() - i,
    {
        let ghost before = out@;
        let name = ids[places[i]].clone();
        assert(as_ints(places@)[i as int] == places@[i as int] as int);
        assert(name@ == wanted[i as int]);
        out.push(name);
        assert(texts(out@) =~= texts(before).push(name@));
        i = i + 1;
        assert(texts(out@) =~= wanted.take(i as int));
    }
    assert(wanted.take(places@.len() as int) =~= wanted);
    out
}

fn somes(v: &Vec<u32>) -> (r: Vec<Option<u32>>)
    ensures
        r@ == some_of(v@),
{
    let mut out: Vec<Option<u32>> = Vec::new();
    let mut i: usize = 0;
    while i < v.len()
        invariant
            i <= v@.len(),
            out@ == some_of(v@).take(i as int),
        decreases v@.len() - i,
    {
        out.push(Some(v[i]));
        i = i + 1;
        assert(out@ =~= some_of(v@).take(i as int));
    }
    assert(some_of(v@).take(v@.len() as int) =~= some_of(v@));
    out
}

/// Whether each cluster holds what is assigned to its centroid, no two have one
/// centroid, and every centroid that anything is assigned to has its cluster.
pub open spec fn belong_to(
    v: Seq<ClusterModel>,
    centroids: Seq<int>,
    ids: Seq<Seq<char>>,
    assignments: Seq<usize>,
    k: nat,
) -> bool {
    &&& centroids.len() == v.len()
    &&& forall|j: int|
        0 <= j < v.len() ==> {
            &&& 0 <= #[trigger] centroids[j] < k
            &&& v[j].members == members_of(ids, assigned(assignments, centroids[j] as usize))
            &&& v[j].members.len() > 0
        }
    &&& forall|i: int, j: int|
        0 <= i < centroids.len() && 0 <= j < centroids.len() && i != j ==> #[trigger] centroids[i]
            != #[trigger] centroids[j]
    &&& forall|i: int|
        0 <= i < assignments.len() && (#[trigger] assignments[i]) < k ==> centroids.contains(
            assignments[i] as int,
        )
}

spec fn ascend(v: Seq<int>) -> bool {
    forall|i: int, j: int| 0 <= i < j < v.len() ==> #[trigger] v[i] < #[trigger] v[j]
}

proof fn lemma_one_more(
    before: Seq<ClusterModel>,
    after: Seq<ClusterModel>,
    earlier: Seq<int>,
    centroids: Seq<int>,
    ids: Seq<Seq<char>>,
    assignments: Seq<usize>,
    c: nat,
)
    requires
        c < usize::MAX,
        belong_to(before, earlier, ids, assignments, c),
        ascend(earlier),
        after.len() == before.len() + 1,
        after.drop_last() == before,
        after.last().members == members_of(ids, assigned(assignments, c as usize)),
        after.last().members.len() > 0,
        centroids == earlier.push(c as int),
    ensures
        belong_to(after, centroids, ids, assignments, c + 1),
        ascend(centroids),
{
    assert forall|j: int| 0 <= j < after.len() implies {
        &&& 0 <= #[trigger] centroids[j] < c + 1
        &&& after[j].members == members_of(ids, assigned(assignments, centroids[j] as usize))
        &&& after[j].members.len() > 0
    } by {
        if j < before.len() {
            assert(after[j] == before[j]);
            assert(centroids[j] == earlier[j]);
        }
    }
    assert forall|i: int| 0 <= i < assignments.len() && (#[trigger] assignments[i]) < c
        + 1 implies centroids.contains(assignments[i] as int) by {
        if assignments[i] < c {
            let j = choose|j: int| 0 <= j < earlier.len() && earlier[j] == assignments[i] as int;
            assert(centroids[j] == assignments[i] as int);
        } else {
            assert(centroids[earlier.len() as int] == assignments[i] as int);
        }
    }
}

proof fn lemma_none_more(
    v: Seq<ClusterModel>,
    centroids: Seq<int>,
    ids: Seq<Seq<char>>,
    assignments: Seq<usize>,
    c: nat,
)
    requires
        c < usize::MAX,
        belong_to(v, centroids, ids, assignments, c),
        assigned(assignments, c as usize).len() == 0,
    ensures
        belong_to(v, centroids, ids, assignments, c + 1),
{
    crate::grouping::places_are_what_is_assigned(assignments, c as usize);
    assert forall|i: int| 0 <= i < assignments.len() && (#[trigger] assignments[i]) < c
        + 1 implies centroids.contains(assignments[i] as int) by {
        if assignments[i] == c {
            assert(assigned(assignments, c as usize).contains(i));
        }
    }
}

proof fn lemma_reordered(
    v: Seq<ClusterModel>,
    centroids: Seq<int>,
    order: Seq<int>,
    ids: Seq<Seq<char>>,
    assignments: Seq<usize>,
    k: nat,
)
    requires
        belong_to(v, centroids, ids, assignments, k),
        is_ranking(sizes_of(v), order),
    ensures
        belong_to(in_order(v, order), in_order(centroids, order), ids, assignments, k),
{
    let there = in_order(centroids, order);
    assert forall|i: int, j: int| 0 <= i < there.len() && 0 <= j < there.len() && i
        != j implies #[trigger] there[i] != #[trigger] there[j] by {
        assert(there[i] == centroids[order[i]] && there[j] == centroids[order[j]]);
        if i < j {
            assert(crate::ranking::stands_before(sizes_of(v), order[i], order[j]));
        } else {
            assert(crate::ranking::stands_before(sizes_of(v), order[j], order[i]));
        }
    }
    assert forall|i: int| 0 <= i < assignments.len() && (
    #[trigger] assignments[i]) < k implies there.contains(assignments[i] as int) by {
        let j = choose|j: int| 0 <= j < centroids.len() && centroids[j] == assignments[i] as int;
        assert(order.contains(j));
        let p = choose|p: int| 0 <= p < order.len() && order[p] == j;
        assert(there[p] == assignments[i] as int);
    }
    assert forall|j: int| 0 <= j < there.len() implies {
        &&& 0 <= #[trigger] there[j] < k
        &&& in_order(v, order)[j].members == members_of(
            ids,
            assigned(assignments, there[j] as usize),
        )
        &&& in_order(v, order)[j].members.len() > 0
    } by {
        assert(there[j] == centroids[order[j]]);
    }
}

/// Report the clusters that embeddings were assigned to, given, for each
/// centroid, the similarities of its members and their mean.
pub fn report_clusters(
    ids: &Vec<String>,
    assignments: &Vec<usize>,
    similarities: &Vec<Vec<u32>>,
    cohesion: &Vec<u32>,
) -> (r: Vec<Cluster>)
    requires
        ids@.len() == assignments@.len(),
        similarities@.len() == cohesion@.len(),
        forall|c: int|
            0 <= c < similarities@.len() ==> (#[trigger] similarities@[c])@.len() == assigned(
                assignments@,
                c as usize,
            ).len(),
    ensures
        cluster_views(r@) == reported(
            drafts(
                texts(ids@),
                assignments@,
                similarities@,
                cohesion@,
                similarities@.len(),
            ),
        ),
        forall|i: int|
            0 <= i < r@.len() ==> (#[trigger] r@[i]).id == i && r@[i].size
                == r@[i].members@.len(),
        r@.len() <= similarities@.len(),
        forall|i: int, j: int|
            0 <= i < j < r@.len() ==> (#[trigger] r@[i]).size >= (#[trigger] r@[j]).size,
        exists|centroids: Seq<int>| #[trigger]
            belong_to(
                cluster_views(r@),
                centroids,
                texts(ids@),
                assignments@,
                similarities@.len(),
            ),
{
    let ghost all = texts(ids@);
    let ghost mut kept: Seq<int> = Seq::empty();
    let mut found: Vec<Cluster> = Vec::new();
    let mut sizes: Vec<usize> = Vec::new();
    let mut c: usize = 0;
    assert(cluster_views(found@) =~= Seq::<ClusterModel>::empty());
    assert(sizes@ =~= sizes_of(cluster_views(found@)));
    while c < similarities.len()
        invariant
            c <= similarities@.len(),
            all == texts(ids@),
            ids@.len() == assignments@.len(),
            similarities@.len() == cohesion@.len(),
            forall|c: int|
                0 <= c < similarities@.len() ==> (#[trigger] similarities@[c])@.len()
                    == assigned(assignments@, c as usize).len(),
            cluster_views(found@) == drafts(
                all,
                assignments@,
                similarities@,
                cohesion@,
                c as nat,
            ),
            sizes@ == sizes_of(cluster_views(found@)),
            forall|i: int|
                0 <= i < found@.len() ==> (#[trigger] found@[i]).size == found@[i].members@.len(),
            belong_to(cluster_views(found@), kept, all, assignments@, c as nat),
            ascend(kept),
            kept.len() <= c,
        decreases similarities@.len() - c,
    {
        let places = assigned_to(assignments, c);
        proof {
            crate::grouping::places_are_what_is_assigned(assignments@, c);
            assert(as_ints(places@) == assigned(assignments@, c));
            assert forall|i: int| 0 <= i < places@.len() implies #[trigger] places@[i]
                < ids@.len() by {
                assert(as_ints(places@)[i] == places@[i] as int);
                assert(assigned(assignments@, c)[i] < assignments@.len());
            }
        }
        if places.len() > 0 {
            let sims = somes(&similarities[c]);
            let best: usize = best_centroid(&sims);
            assert(similarities@[c as int]@.len() == places@.len());
            let members = name_members(ids, &places);
            let size: usize = members.len();
            let exemplar = ids[places[best]].clone();
            assert(as_ints(places@)[best as int] == places@[best as int] as int);
            let ghost before = found@;
            let ghost draft = ClusterModel {
                exemplar: exemplar@,
                members: texts(members@),
                cohesion: cohesion@[c as int],
            };
            let n: usize = found.len();
            assert(texts(members@).len() == size);
            sizes.push(size);
            found.push(Cluster { id: n, exemplar, size, members, cohesion: cohesion[c] });
            assert(cluster_views(found@) =~= cluster_views(before).push(draft));
            assert(sizes@ =~= sizes_of(cluster_views(found@)));
            proof {
                assert(cluster_views(found@).drop_last() =~= cluster_views(before));
                let earlier = kept;
                kept = kept.push(c as int);
                lemma_one_more(
                    cluster_views(before),
                    cluster_views(found@),
                    earlier,
                    kept,
                    all,
                    assignments@,
                    c as nat,
                );
            }
        } else {
            proof {
                lemma_none_more(cluster_views(found@), kept, all, assignments@, c as nat);
            }
        }
        c = c + 1;
    }
    let order = rank(&sizes);
    let ghost models = cluster_views(found@);
    let ghost wanted = reported(models);
    let mut out: Vec<Cluster> = Vec::new();
    let mut j: usize = 0;
    assert(cluster_views(out@) =~= wanted.take(0));
    while j < order.len()
        invariant
            j <= order@.len(),
            models == cluster_views(found@),
            wanted == in_order(models, as_ints(order@)),
            is_ranking(sizes@, as_ints(order@)),
            sizes@.len() == found@.len(),
            forall|i: int|
                0 <= i < found@.len() ==> (#[trigger] found@[i]).size == found@[i].members@.len(),
            out@.len() == j,
            cluster_views(out@) == wanted.take(j as int),
            forall|i: int|
                0 <= i < out@.len() ==> (#[trigger] out@[i]).id == i && out@[i].size
                    == out@[i].members@.len(),
        decreases order@.len() - j,
    {
        let ghost before = out@;
        assert(as_ints(order@)[j as int] == order@[j as int] as int);
        let f = &found[order[j]];
        let members = copy_texts(&f.members);
        let cluster = Cluster {
            id: j,
            exemplar: f.exemplar.clone(),
            size: f.size,
            members,
            cohesion: f.cohesion,
        };
        assert(texts(members@).len() == members@.len());
        assert(texts(f.members@).len() == f.members@.len());
        assert(cluster.content() == wanted[j as int]);
        out.push(cluster);
        assert(cluster_views(out@) =~= cluster_views(before).push(cluster.content()));
        j = j + 1;
        assert(cluster_views(out@) =~= wanted.take(j as int));
    }
    assert(wanted.take(order@.len() as int) =~= wanted);
    proof {
        lemma_reordered(
            models,
            kept,
            as_ints(order@),
            all,
            assignments@,
            similarities@.len(),
        );
        assert forall|i: int, j: int| 0 <= i < j < out@.len() implies (#[trigger] out@[i]).size >= (
        #[trigger] out@[j]).size by {
            the_biggest_comes_first(models, as_ints(order@), i, j);
            assert(out@[i].content() == cluster_views(out@)[i]);
            assert(out@[j].content() == cluster_views(out@)[j]);
            assert(texts(out@[i].members@).len() == out@[i].members@.len());
            assert(texts(out@[j].members@).len() == out@[j].members@.len());
        }
    }
    out
}

fn copy_texts(v: &Vec<String>) -> (r: Vec<String>)
    ensures
        texts(r@) == texts(v@),
{
    let mut out: Vec<String> = Vec::new();
    let mut i: usize = 0;
    while i < v.len()
        invariant
            i <= v@.len(),
            texts(out@) == texts(v@).take(i as int),
        decreases v@.len() - i,
    {
        let ghost before = out@;
        let s = v[i].clone();
        out.push(s);
        assert(texts(out@) =~= texts(before).push(s@));
        i = i + 1;
        assert(texts(out@) =~= texts(v@).take(i as int));
    }
    assert(texts(v@).take(v@.len() as int) =~= texts(v@));
    out
}

// ── Laws ────────────────────────────────────────────────────────────

/// The biggest cluster is reported first.
pub proof fn the_biggest_comes_first(v: Seq<ClusterModel>, order: Seq<int>, j: int, k: int)
    requires
        is_ranking(sizes_of(v), order),
        0 <= j < k < order.len(),
    ensures
        sizes_of(v)[order[j]] >= sizes_of(v)[order[k]],
{
    assert(crate::ranking::stands_before(sizes_of(v), order[j], order[k]));
}

/// The clusters partition what was assigned: each embedding stands in the
/// cluster of its centroid, and in no other.
pub proof fn clusters_partition_the_ids(
    v: Seq<ClusterModel>,
    centroids: Seq<int>,
    ids: Seq<Seq<char>>,
    assignments: Seq<usize>,
    k: nat,
    i: int,
)
    requires
        belong_to(v, centroids, ids, assignments, k),
        k <= usize::MAX,
        0 <= i < assignments.len(),
        assignments[i] < k,
    ensures
        exists|j: int|
            0 <= j < v.len() && assigned(
                assignments,
                #[trigger] centroids[j] as usize,
            ).contains(i),
        forall|j: int|
            0 <= j < v.len() && assigned(
                assignments,
                #[trigger] centroids[j] as usize,
            ).contains(i) ==> centroids[j] == assignments[i],
{
    let j = choose|j: int| 0 <= j < centroids.len() && centroids[j] == assignments[i] as int;
    crate::grouping::places_are_what_is_assigned(assignments, assignments[i]);
    assert(assigned(assignments, centroids[j] as usize).contains(i));
    assert forall|j: int|
        0 <= j < v.len() && assigned(
            assignments,
            #[trigger] centroids[j] as usize,
        ).contains(i) implies centroids[j] == assignments[i] by {
        crate::grouping::places_are_what_is_assigned(assignments, centroids[j] as usize);
    }
}

/// A trace is never its own neighbour, and no neighbour is below the floor.
pub proof fn neighbours_are_others_above_the_floor(
    query: Seq<char>,
    candidates: Seq<Candidate>,
    floor: u32,
    i: int,
)
    requires
        0 <= i < eligible(query, candidates, floor).len(),
    ensures
        eligible(query, candidates, floor)[i].0 != query,
        reaches(eligible(query, candidates, floor)[i].1, floor),
    decreases candidates.len(),
{
    let before = eligible(query, candidates.drop_last(), floor);
    if i < before.len() {
        neighbours_are_others_above_the_floor(query, candidates.drop_last(), floor, i);
    }
}

/// The candidates that are kept are the others that reach the floor, each with its
/// similarity and in their order.
pub proof fn the_others_that_reach_are_kept(
    query: Seq<char>,
    candidates: Seq<Candidate>,
    floor: u32,
)
    ensures
        eligible(query, candidates, floor) == candidates.filter(
            |c: Candidate|
                c.trace_id@ != query && (c.similarity matches Some(s) && reaches(s, floor)),
        ).map_values(|c: Candidate| (c.trace_id@, c.similarity->0)),
    decreases candidates.len(),
{
    reveal(Seq::filter);
    if candidates.len() > 0 {
        the_others_that_reach_are_kept(query, candidates.drop_last(), floor);
    }
    assert(eligible(query, candidates, floor) =~= candidates.filter(
        |c: Candidate|
            c.trace_id@ != query && (c.similarity matches Some(s) && reaches(s, floor)),
    ).map_values(|c: Candidate| (c.trace_id@, c.similarity->0)));
}

/// Similarities are ordered as the numbers that they are: a positive one by its
/// bits, a negative one against them, and below every positive one.
pub proof fn similarities_are_a_line(a: u32, b: u32)
    requires
        !is_nan32(a),
        !is_nan32(b),
    ensures
        reaches(a, b) || reaches(b, a),
        a < 0x8000_0000 && b < 0x8000_0000 ==> (reaches(a, b) <==> a >= b),
        a >= 0x8000_0000 && b >= 0x8000_0000 ==> (reaches(a, b) <==> a <= b),
        a < 0x8000_0000 && b >= 0x8000_0000 ==> reaches(a, b),
        reaches(a, b) <==> !exceeds(b, a),
{
}

/// The nearest come first, no more of them than were asked for, and none that is
/// nearer is left out for one that is shown.
pub proof fn the_nearest_come_first(
    query: Seq<char>,
    candidates: Seq<Candidate>,
    limit: nat,
    floor: u32,
    j: int,
    k: int,
)
    ensures
        ({
            let r = nearest_of(query, candidates, limit, floor);
            let kept = eligible(query, candidates, floor);
            &&& r.len() == if limit < kept.len() {
                limit
            } else {
                kept.len()
            }
            &&& 0 <= j < k < r.len() ==> order32(r[j].1) >= order32(r[k].1)
            &&& 0 <= j < r.len() ==> kept.contains(r[j])
            &&& 0 <= j < r.len() && 0 <= k < kept.len() && !r.contains(kept[k]) ==> order32(r[j].1)
                >= order32(kept[k].1)
        }),
{
    let kept = eligible(query, candidates, floor);
    let keys = similarity_keys(kept);
    let order = ranking(keys);
    crate::ranking::rankings_exist(keys);
    let ranked = in_order(kept, order);
    let r = nearest_of(query, candidates, limit, floor);
    if 0 <= j < r.len() {
        assert(r[j] == kept[order[j]]);
        assert(0 <= order[j] < kept.len());
        assert(keys[order[j]] == order32(kept[order[j]].1));
        if 0 <= k < kept.len() && !r.contains(kept[k]) {
            assert(order.contains(k));
            let n = choose|n: int| 0 <= n < order.len() && order[n] == k;
            assert(ranked[n] == kept[k]);
            if n < r.len() {
                assert(r[n] == kept[k]);
            }
            assert(crate::ranking::stands_before(keys, order[j], order[n]));
            assert(keys[k] == order32(kept[k].1));
        }
        if j < k < r.len() {
            assert(crate::ranking::stands_before(keys, order[j], order[k]));
            assert(0 <= order[k] < kept.len());
            assert(keys[order[k]] == order32(kept[order[k]].1));
            assert(r[k] == kept[order[k]]);
        }
    }
}

/// The centroid that is chosen is one of those compared with, and none is more
/// similar; where nothing was compared, it is the first.
pub proof fn the_most_similar_is_chosen(similarities: Seq<Option<u32>>, k: int)
    requires
        forall|i: int|
            0 <= i < similarities.len() ==> (#[trigger] similarities[i] matches Some(s)
                ==> !is_nan32(s)),
    ensures
        (forall|i: int| 0 <= i < similarities.len() ==> #[trigger] similarities[i] is None)
            ==> chosen_centroid(similarities) == 0,
        0 <= k < similarities.len() && similarities[k] is Some ==> {
            let c = chosen_centroid(similarities);
            &&& 0 <= c < similarities.len()
            &&& similarities[c] is Some
            &&& order32(similarities[c]->0) >= order32(similarities[k]->0)
            &&& order32(similarities[c]->0) == order32(similarities[k]->0) ==> k <= c
        },
{
    best_is_best(similarities, similarities.len(), k);
}

proof fn best_is_best(similarities: Seq<Option<u32>>, n: nat, k: int)
    requires
        n <= similarities.len(),
        forall|i: int|
            0 <= i < similarities.len() ==> (#[trigger] similarities[i] matches Some(s)
                ==> !is_nan32(s)),
    ensures
        best_among(similarities, n) matches Some(b) ==> 0 <= b < n && similarities[b] is Some,
        0 <= k < n && similarities[k] is Some ==> (best_among(similarities, n) matches Some(b)
            && order32(similarities[b]->0) >= order32(similarities[k]->0) && (order32(
            similarities[b]->0,
        ) == order32(similarities[k]->0) ==> k <= b)),
    decreases n,
{
    if n > 0 {
        best_is_best(similarities, (n - 1) as nat, k);
        assert(similarities[n - 1] matches Some(s) ==> !is_nan32(s));
        if let Some(b) = best_among(similarities, (n - 1) as nat) {
            assert(similarities[b] matches Some(s) ==> !is_nan32(s));
        }
        if 0 <= k < n {
            assert(similarities[k] matches Some(s) ==> !is_nan32(s));
        }
    }
}

/// Seeds are spread evenly from the first on, and no two are the same.
pub proof fn seeds_are_spread(n: nat, k: nat, i: int)
    requires
        0 < k <= n,
        0 <= i < k,
    ensures
        seed_positions(n, k).len() == k,
        seed_positions(n, k)[0] == 0,
        0 <= seed_positions(n, k)[i] < n,
        i > 0 ==> seed_positions(n, k)[i] - seed_positions(n, k)[i - 1] == n / k && n / k >= 1,
{
    let step = n as int / k as int;
    assert(step >= 1 && step * k <= n) by {
        vstd::arithmetic::div_mod::lemma_fundamental_div_mod(n as int, k as int);
        vstd::arithmetic::div_mod::lemma_mod_bound(n as int, k as int);
        vstd::arithmetic::div_mod::lemma_div_is_ordered(k as int, n as int, k as int);
        vstd::arithmetic::div_mod::lemma_div_by_self(k as int);
        assert(k * step == step * k) by (nonlinear_arith);
    }
    assert(0 <= i * step && i * step < n) by (nonlinear_arith)
        requires
            step >= 1,
            step * k <= n,
            0 <= i < k,
    ;
    if i > 0 {
        assert(i * step - (i - 1) * step == step) by (nonlinear_arith);
    }
    assert(0 * step == 0);
}

/// The exemplar of a cluster is one of its members, and none of them is more
/// similar to its centroid.
pub proof fn exemplars_are_the_most_similar(
    ids: Seq<Seq<char>>,
    places: Seq<int>,
    similarities: Seq<u32>,
    k: int,
)
    requires
        places.len() == similarities.len(),
        0 <= k < places.len(),
        forall|i: int| 0 <= i < similarities.len() ==> !is_nan32(#[trigger] similarities[i]),
    ensures
        ({
            let c = chosen_centroid(some_of(similarities));
            &&& 0 <= c < places.len()
            &&& members_of(ids, places).contains(ids[places[c]])
            &&& order32(similarities[c]) >= order32(similarities[k])
        }),
{
    let all = some_of(similarities);
    assert forall|i: int| 0 <= i < all.len() implies (#[trigger] all[i] matches Some(s)
        ==> !is_nan32(s)) by {
        assert(!is_nan32(similarities[i]));
    }
    the_most_similar_is_chosen(all, k);
    let c = chosen_centroid(all);
    assert(members_of(ids, places)[c] == ids[places[c]]);
}

} // verus!
