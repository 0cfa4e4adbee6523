//! Labels: texts under names, kept in the order of the names.

use crate::text::{less, same, text_less, texts};
use vstd::prelude::*;

verus! {

#[derive(Debug)]
pub struct Labels {
    entries: Vec<(String, String)>,
}

/// Whether the names of a sequence of pairs strictly ascend.
pub open spec fn ascending<V>(pairs: Seq<(Seq<char>, V)>) -> bool {
    forall|i: int, j: int|
        0 <= i < j < pairs.len() ==> text_less((#[trigger] pairs[i]).0, (#[trigger] pairs[j]).0)
}

/// What a sequence of pairs holds under a name.
pub open spec fn lookup(pairs: Seq<(Seq<char>, Seq<char>)>, name: Seq<char>) -> Option<Seq<char>>
    decreases pairs.len(),
{
    if pairs.len() == 0 {
        None
    } else if pairs.last().0 == name {
        Some(pairs.last().1)
    } else {
        lookup(pairs.drop_last(), name)
    }
}

/// The pairs as a map. A later pair outdoes an earlier one of its name.
pub open spec fn as_map(pairs: Seq<(Seq<char>, Seq<char>)>) -> Map<Seq<char>, Seq<char>>
    decreases pairs.len(),
{
    if pairs.len() == 0 {
        Map::empty()
    } else {
        as_map(pairs.drop_last()).insert(pairs.last().0, pairs.last().1)
    }
}

/// A name is in the map exactly when some pair carries it.
pub proof fn as_map_dom(pairs: Seq<(Seq<char>, Seq<char>)>, name: Seq<char>)
    ensures
        as_map(pairs).dom().contains(name) <==> exists|i: int|
            0 <= i < pairs.len() && (#[trigger] pairs[i]).0 == name,
    decreases pairs.len(),
{
    if pairs.len() > 0 {
        let init = pairs.drop_last();
        as_map_dom(init, name);
        if exists|i: int| 0 <= i < pairs.len() && (#[trigger] pairs[i]).0 == name {
            let i = choose|i: int| 0 <= i < pairs.len() && (#[trigger] pairs[i]).0 == name;
            if i < pairs.len() - 1 {
                assert(init[i].0 == name);
            }
        }
        if as_map(init).dom().contains(name) {
            let i = choose|i: int| 0 <= i < init.len() && (#[trigger] init[i]).0 == name;
            assert(pairs[i].0 == name);
        }
        if pairs.last().0 == name {
            assert(pairs[pairs.len() - 1].0 == name);
        }
    }
}

/// With ascending names each pair is what the map holds under its name.
pub proof fn as_map_ascending(pairs: Seq<(Seq<char>, Seq<char>)>, i: int)
    requires
        ascending(pairs),
        0 <= i < pairs.len(),
    ensures
        as_map(pairs).dom().contains(pairs[i].0),
        as_map(pairs)[pairs[i].0] == pairs[i].1,
    decreases pairs.len(),
{
    if i < pairs.len() - 1 {
        let init = pairs.drop_last();
        assert(ascending(init));
        as_map_ascending(init, i);
        assert(init[i] == pairs[i]);
        assert(text_less(pairs[i].0, pairs[pairs.len() - 1].0));
        crate::text::text_less_irreflexive(pairs[i].0);
    }
}

/// Ascending pairs are determined by the map that they are: the order in
/// which labels were given makes no difference.
pub proof fn ascending_unique(a: Seq<(Seq<char>, Seq<char>)>, b: Seq<(Seq<char>, Seq<char>)>)
    requires
        ascending(a),
        ascending(b),
        as_map(a) == as_map(b),
    ensures
        a == b,
    decreases a.len(),
{
    if a.len() == 0 {
        if b.len() > 0 {
            as_map_ascending(b, 0);
        }
        assert(a =~= b);
    } else if b.len() == 0 {
        as_map_ascending(a, 0);
    } else {
        // The greatest names agree.
        let x = a.last().0;
        let y = b.last().0;
        as_map_ascending(a, a.len() - 1);
        as_map_ascending(b, b.len() - 1);
        as_map_dom(b, x);
        as_map_dom(a, y);
        let i = choose|i: int| 0 <= i < b.len() && (#[trigger] b[i]).0 == x;
        let j = choose|j: int| 0 <= j < a.len() && (#[trigger] a[j]).0 == y;
        if i < b.len() - 1 && j < a.len() - 1 {
            assert(text_less(b[i].0, b[b.len() - 1].0));
            assert(text_less(a[j].0, a[a.len() - 1].0));
            crate::text::text_less_transitive(x, y, x);
            crate::text::text_less_irreflexive(x);
        }
        assert(x == y);
        assert(a.last() == b.last());
        let ia = a.drop_last();
        let ib = b.drop_last();
        assert(ascending(ia));
        assert(ascending(ib));
        assert(as_map(ia) =~= as_map(ib)) by {
            not_in_init(a);
            not_in_init(b);
            assert(as_map(ia) =~= as_map(a).remove(x));
            assert(as_map(ib) =~= as_map(b).remove(x));
        }
        ascending_unique(ia, ib);
        assert(a =~= ia.push(a.last()));
        assert(b =~= ib.push(b.last()));
    }
}

proof fn not_in_init(a: Seq<(Seq<char>, Seq<char>)>)
    requires
        ascending(a),
        a.len() > 0,
    ensures
        !as_map(a.drop_last()).dom().contains(a.last().0),
{
    let init = a.drop_last();
    as_map_dom(init, a.last().0);
    if as_map(init).dom().contains(a.last().0) {
        let i = choose|i: int| 0 <= i < init.len() && (#[trigger] init[i]).0 == a.last().0;
        assert(text_less(a[i].0, a[a.len() - 1].0));
        crate::text::text_less_irreflexive(a.last().0);
    }
}

/// The pairs of a map in the order of their names.
pub open spec fn sorted_pairs(m: Map<Seq<char>, Seq<char>>) -> Seq<(Seq<char>, Seq<char>)> {
    choose|pairs: Seq<(Seq<char>, Seq<char>)>| ascending(pairs) && as_map(pairs) == m
}

pub proof fn sorted_pairs_unique(pairs: Seq<(Seq<char>, Seq<char>)>)
    requires
        ascending(pairs),
    ensures
        sorted_pairs(as_map(pairs)) == pairs,
{
    ascending_unique(sorted_pairs(as_map(pairs)), pairs);
}

/// The place of a name among ascending ones: where it stands, or where it would
/// have to be put in.
pub proof fn insertion_point<V>(pairs: Seq<(Seq<char>, V)>, name: Seq<char>) -> (at: int)
    requires
        ascending(pairs),
    ensures
        0 <= at <= pairs.len(),
        forall|i: int| 0 <= i < at ==> text_less((#[trigger] pairs[i]).0, name),
        at < pairs.len() && pairs[at].0 != name ==> forall|i: int|
            at <= i < pairs.len() ==> text_less(name, (#[trigger] pairs[i]).0),
    decreases pairs.len(),
{
    if pairs.len() == 0 {
        0
    } else {
        let last = pairs.last().0;
        if text_less(last, name) {
            assert forall|i: int| 0 <= i < pairs.len() implies text_less(
                (#[trigger] pairs[i]).0,
                name,
            ) by {
                if i < pairs.len() - 1 {
                    assert(text_less(pairs[i].0, pairs[pairs.len() - 1].0));
                    crate::text::text_less_transitive(pairs[i].0, last, name);
                }
            }
            pairs.len() as int
        } else {
            let init = pairs.drop_last();
            assert(ascending(init));
            let at = insertion_point(init, name);
            crate::text::text_less_total(last, name);
            assert forall|i: int| 0 <= i < at implies text_less((#[trigger] pairs[i]).0, name) by {
                assert(init[i] == pairs[i]);
            }
            if at < pairs.len() && pairs[at].0 != name {
                assert forall|i: int| at <= i < pairs.len() implies text_less(
                    name,
                    (#[trigger] pairs[i]).0,
                ) by {
                    if i < pairs.len() - 1 {
                        assert(init[i] == pairs[i]);
                        assert(init[at] == pairs[at]);
                    } else if last == name {
                        if at < pairs.len() - 1 {
                            assert(init[at] == pairs[at]);
                            assert(text_less(name, init[at].0));
                            assert(text_less(pairs[at].0, pairs[pairs.len() - 1].0));
                            crate::text::text_less_transitive(name, pairs[at].0, name);
                            crate::text::text_less_irreflexive(name);
                        }
                    }
                }
            }
            at
        }
    }
}

/// One more name finds its place among ascending pairs.
pub proof fn one_more_pair(
    before: Seq<(Seq<char>, Seq<char>)>,
    name: Seq<char>,
    value: Seq<char>,
) -> (at: int)
    requires
        ascending(before),
        !as_map(before).dom().contains(name),
    ensures
        0 <= at <= before.len(),
        ascending(before.insert(at, (name, value))),
        as_map(before.insert(at, (name, value))) == as_map(before).insert(name, value),
{
    let at = insertion_point(before, name);
    assert(at < before.len() ==> before[at].0 != name) by {
        if at < before.len() && before[at].0 == name {
            as_map_ascending(before, at);
        }
    }
    let after = before.insert(at, (name, value));
    assert forall|i: int, j: int| 0 <= i < j < after.len() implies text_less(
        (#[trigger] after[i]).0,
        (#[trigger] after[j]).0,
    ) by {
        if i != at && j != at {
            let x = if i < at { i } else { i - 1 };
            let y = if j < at { j } else { j - 1 };
            assert(text_less(before[x].0, before[y].0));
        } else if i == at {
            assert(text_less(name, before[j - 1].0));
        } else {
            assert(text_less(before[i].0, name));
        }
    }
    assert(after[at] == (name, value));
    assert forall|i: int| 0 <= i < before.len() implies exists|k: int|
        0 <= k < after.len() && #[trigger] after[k] == #[trigger] before[i] by {
        let k = if i < at { i } else { i + 1 };
        assert(after[k] == before[i]);
    }
    assert forall|k: int| 0 <= k < after.len() && (#[trigger] after[k]).0 != name implies exists|
        i: int,
    | 0 <= i < before.len() && #[trigger] before[i] == after[k] by {
        let i = if k < at { k } else { k - 1 };
        assert(before[i] == after[k]);
    }
    lemma_same_map(before, after, name, value);
    at
}

/// Every finite map can be written as pairs in the order of their names.
pub proof fn finite_maps_can_be_sorted(m: Map<Seq<char>, Seq<char>>)
    requires
        m.dom().finite(),
    ensures
        ascending(sorted_pairs(m)),
        as_map(sorted_pairs(m)) == m,
    decreases m.dom().len(),
{
    if m.dom().len() == 0 {
        let none = Seq::<(Seq<char>, Seq<char>)>::empty();
        assert(m =~= as_map(none));
        assert(ascending(none) && as_map(none) == m);
    } else {
        let name = m.dom().choose();
        let less = m.remove(name);
        finite_maps_can_be_sorted(less);
        let before = sorted_pairs(less);
        let at = one_more_pair(before, name, m[name]);
        let after = before.insert(at, (name, m[name]));
        assert(less.insert(name, m[name]) =~= m);
        assert(ascending(after) && as_map(after) == m);
    }
}

proof fn as_map_finite(pairs: Seq<(Seq<char>, Seq<char>)>)
    ensures
        as_map(pairs).dom().finite(),
    decreases pairs.len(),
{
    if pairs.len() > 0 {
        as_map_finite(pairs.drop_last());
    }
}

/// Labels are finitely many.
pub proof fn labels_are_finite(labels: Labels)
    ensures
        labels@.dom().finite(),
{
    as_map_finite(labels.pairs());
}

spec fn views(entries: Seq<(String, String)>) -> Seq<(Seq<char>, Seq<char>)> {
    entries.map_values(|e: (String, String)| (e.0@, e.1@))
}

impl Labels {
    #[verifier::type_invariant]
    spec fn wf(self) -> bool {
        ascending(views(self.entries@))
    }

    /// The names and values, in the order of the names.
    pub closed spec fn pairs(self) -> Seq<(Seq<char>, Seq<char>)> {
        views(self.entries@)
    }

    pub fn new() -> (r: Labels)
        ensures
            r@ == Map::<Seq<char>, Seq<char>>::empty(),
            r.pairs() == Seq::<(Seq<char>, Seq<char>)>::empty(),
    {
        let entries: Vec<(String, String)> = Vec::new();
        assert(views(entries@) =~= Seq::<(Seq<char>, Seq<char>)>::empty());
        Labels { entries }
    }

    pub fn len(&self) -> (r: usize)
        ensures
            r == self.pairs().len(),
            ascending(self.pairs()),
            self@ == as_map(self.pairs()),
            self.pairs() == sorted_pairs(self@),
    {
        proof {
            use_type_invariant(self);
            sorted_pairs_unique(self.pairs());
        }
        self.entries.len()
    }

    /// The name at a position in the order of the names.
    pub fn name_at(&self, i: usize) -> (r: &String)
        requires
            i < self.pairs().len(),
        ensures
            r@ == self.pairs()[i as int].0,
    {
        &self.entries[i].0
    }

    /// The value at a position in the order of the names.
    pub fn value_at(&self, i: usize) -> (r: &String)
        requires
            i < self.pairs().len(),
        ensures
            r@ == self.pairs()[i as int].1,
    {
        &self.entries[i].1
    }

    /// The position of a name, or where it would stand.
    fn search(&self, name: &str) -> (r: (usize, bool))
        ensures
            ascending(self.pairs()),
            r.0 <= self.pairs().len(),
            r.1 ==> r.0 < self.pairs().len() && self.pairs()[r.0 as int].0 == name@,
            forall|i: int| 0 <= i < r.0 ==> text_less(#[trigger] self.pairs()[i].0, name@),
            !r.1 ==> forall|i: int|
                r.0 <= i < self.pairs().len() ==> text_less(name@, #[trigger] self.pairs()[i].0),
    {
        proof {
            use_type_invariant(self);
        }
        let mut lo: usize = 0;
        let mut hi: usize = self.entries.len();
        while lo < hi
            invariant
                lo <= hi <= self.entries@.len(),
                self.pairs() == views(self.entries@),
                ascending(self.pairs()),
                forall|i: int| 0 <= i < lo ==> text_less(#[trigger] self.pairs()[i].0, name@),
                forall|i: int|
                    hi <= i < self.pairs().len() ==> text_less(
                        name@,
                        #[trigger] self.pairs()[i].0,
                    ),
            decreases hi - lo,
        {
            let mid: usize = lo + (hi - lo) / 2;
            let ghost here = self.pairs()[mid as int].0;
            if less(self.entries[mid].0.as_str(), name) {
                proof {
                    assert forall|i: int| 0 <= i < mid + 1 implies text_less(
                        #[trigger] self.pairs()[i].0,
                        name@,
                    ) by {
                        if i < mid {
                            crate::text::text_less_transitive(self.pairs()[i].0, here, name@);
                        }
                    }
                }
                lo = mid + 1;
            } else if same(self.entries[mid].0.as_str(), name) {
                return (mid, true);
            } else {
                proof {
                    crate::text::text_less_total(here, name@);
                    assert forall|i: int| mid <= i < self.pairs().len() implies text_less(
                        name@,
                        #[trigger] self.pairs()[i].0,
                    ) by {
                        if i > mid {
                            crate::text::text_less_transitive(name@, here, self.pairs()[i].0);
                        }
                    }
                }
                hi = mid;
            }
        }
        (lo, false)
    }

    /// The names, in order.
    pub fn names(&self) -> (r: Vec<String>)
        ensures
            texts(r@) == sorted_pairs(self@).map_values(|p: (Seq<char>, Seq<char>)| p.0),
    {
        let n: usize = self.len();
        let ghost pairs = self.pairs();
        let ghost wanted = pairs.map_values(|p: (Seq<char>, Seq<char>)| p.0);
        let mut out: Vec<String> = Vec::new();
        let mut i: usize = 0;
        while i < n
            invariant
                i <= n,
                n == pairs.len(),
                pairs == self.pairs(),
                wanted == pairs.map_values(|p: (Seq<char>, Seq<char>)| p.0),
                texts(out@) == wanted.take(i as int),
            decreases n - i,
        {
            let ghost before = out@;
            let name = self.name_at(i).clone();
            assert(name@ == wanted[i as int]);
            out.push(name);
            assert(texts(out@) =~= texts(before).push(name@));
            i = i + 1;
            assert(texts(out@) =~= wanted.take(i as int));
        }
        assert(wanted.take(n as int) =~= wanted);
        out
    }

    pub fn get(&self, name: &str) -> (r: Option<&String>)
        ensures
            match r {
                Some(v) => self@.dom().contains(name@) && self@[name@] == v@,
                None => !self@.dom().contains(name@),
            },
    {
        let (at, found) = self.search(name);
        if found {
            proof {
                as_map_ascending(self.pairs(), at as int);
            }
            Some(&self.entries[at].1)
        } else {
            proof {
                as_map_dom(self.pairs(), name@);
                if self@.dom().contains(name@) {
                    let i = choose|i: int|
                        0 <= i < self.pairs().len() && (#[trigger] self.pairs()[i]).0 == name@;
                    crate::text::text_less_irreflexive(name@);
                }
            }
            None
        }
    }

    pub fn contains(&self, name: &str) -> (r: bool)
        ensures
            r == self@.dom().contains(name@),
    {
        self.get(name).is_some()
    }

    /// Takes a name out, with its value.
    pub fn remove(&mut self, name: &str) -> (r: Option<String>)
        ensures
            final(self)@ == old(self)@.remove(name@),
            match r {
                Some(v) => old(self)@.dom().contains(name@) && old(self)@[name@] == v@,
                None => !old(self)@.dom().contains(name@),
            },
    {
        let (at, found) = self.search(name);
        let ghost before = self.pairs();
        if !found {
            proof {
                as_map_dom(before, name@);
                if self@.dom().contains(name@) {
                    let i = choose|i: int|
                        0 <= i < before.len() && (#[trigger] before[i]).0 == name@;
                    crate::text::text_less_irreflexive(name@);
                }
                assert(self@ =~= self@.remove(name@));
            }
            return None;
        }
        proof {
            as_map_ascending(before, at as int);
        }
        let mut entries: Vec<(String, String)> = Vec::new();
        assert(views(entries@) =~= Seq::<(Seq<char>, Seq<char>)>::empty());
        std::mem::swap(&mut entries, &mut self.entries);
        let (_, value) = entries.remove(at);
        proof {
            let after = views(entries@);
            assert(after =~= before.remove(at as int));
            lemma_removed(before, after, at as int);
        }
        self.entries = entries;
        Some(value)
    }

    /// Sets a name to a value.
    pub fn insert(&mut self, name: String, value: String)
        ensures
            final(self)@ == old(self)@.insert(name@, value@),
    {
        let (at, found) = self.search(name.as_str());
        let ghost before = self.pairs();
        let ghost added = (name@, value@);
        let mut entries: Vec<(String, String)> = Vec::new();
        assert(views(entries@) =~= Seq::<(Seq<char>, Seq<char>)>::empty());
        std::mem::swap(&mut entries, &mut self.entries);
        assert(views(entries@) == before);
        if found {
            entries.set(at, (name, value));
            let ghost after = views(entries@);
            assert(after =~= before.update(at as int, added));
            assert(after[at as int] == added);
            proof {
                assert forall|i: int| 0 <= i < before.len() && (#[trigger] before[i]).0 != added.0
                    implies exists|k: int| 0 <= k < after.len() && #[trigger] after[k] == before[i] by {
                    assert(after[i] == before[i]);
                }
                assert forall|k: int| 0 <= k < after.len() && (#[trigger] after[k]).0 != added.0
                    implies exists|i: int| 0 <= i < before.len() && #[trigger] before[i] == after[k] by {
                    assert(before[k] == after[k]);
                }
                assert(ascending(after)) by {
                    assert forall|i: int, j: int| 0 <= i < j < after.len() implies text_less(
                        (#[trigger] after[i]).0,
                        (#[trigger] after[j]).0,
                    ) by {
                        assert(text_less(before[i].0, before[j].0));
                    }
                }
                lemma_same_map(before, after, added.0, added.1);
            }
        } else {
            entries.insert(at, (name, value));
            let ghost after = views(entries@);
            assert(after =~= before.insert(at as int, added));
            assert(after[at as int] == added);
            proof {
                assert forall|i: int| 0 <= i < before.len() && (#[trigger] before[i]).0 != added.0
                    implies exists|k: int| 0 <= k < after.len() && #[trigger] after[k] == before[i] by {
                    assert(after[if i < at { i } else { i + 1 }] == before[i]);
                }
                assert forall|k: int| 0 <= k < after.len() && (#[trigger] after[k]).0 != added.0
                    implies exists|i: int| 0 <= i < before.len() && #[trigger] before[i] == after[k] by {
                    assert(before[if k < at { k } else { k - 1 }] == after[k]);
                }
                assert(ascending(after)) by {
                    assert forall|i: int, j: int| 0 <= i < j < after.len() implies text_less(
                        (#[trigger] after[i]).0,
                        (#[trigger] after[j]).0,
                    ) by {
                        if i < at && j > at {
                            assert(text_less(before[i].0, before[j - 1].0));
                        } else if i < at && j < at {
                            assert(text_less(before[i].0, before[j].0));
                        } else if i > at {
                            assert(text_less(before[i - 1].0, before[j - 1].0));
                        } else if i == at {
                            assert(text_less(added.0, before[j - 1].0));
                        } else {
                            assert(text_less(before[i].0, added.0));
                        }
                    }
                }
                lemma_same_map(before, after, added.0, added.1);
            }
        }
        self.entries = entries;
    }
}

/// Two ascending sequences that hold the same pairs but for one name, which
/// the second one holds with the given value.
proof fn lemma_same_map(
    before: Seq<(Seq<char>, Seq<char>)>,
    after: Seq<(Seq<char>, Seq<char>)>,
    name: Seq<char>,
    value: Seq<char>,
)
    requires
        ascending(before),
        ascending(after),
        exists|k: int| 0 <= k < after.len() && #[trigger] after[k] == (name, value),
        forall|i: int|
            0 <= i < before.len() && (#[trigger] before[i]).0 != name ==> exists|k: int|
                0 <= k < after.len() && #[trigger] after[k] == before[i],
        forall|k: int|
            0 <= k < after.len() && (#[trigger] after[k]).0 != name ==> exists|i: int|
                0 <= i < before.len() && #[trigger] before[i] == after[k],
    ensures
        as_map(after) == as_map(before).insert(name, value),
{
    let target = as_map(before).insert(name, value);
    let k0 = choose|k: int| 0 <= k < after.len() && #[trigger] after[k] == (name, value);
    as_map_ascending(after, k0);
    assert forall|n: Seq<char>| #[trigger] as_map(after).dom().contains(n) == target.dom().contains(
        n,
    ) by {
        as_map_dom(after, n);
        as_map_dom(before, n);
        if n != name {
            if as_map(after).dom().contains(n) {
                let k = choose|k: int| 0 <= k < after.len() && (#[trigger] after[k]).0 == n;
                let i = choose|i: int| 0 <= i < before.len() && #[trigger] before[i] == after[k];
                assert(before[i].0 == n);
            }
            if as_map(before).dom().contains(n) {
                let i = choose|i: int| 0 <= i < before.len() && (#[trigger] before[i]).0 == n;
                let k = choose|k: int| 0 <= k < after.len() && #[trigger] after[k] == before[i];
                assert(after[k].0 == n);
            }
        }
    }
    assert forall|n: Seq<char>| #[trigger] as_map(after).dom().contains(n) implies as_map(after)[n]
        == target[n] by {
        if n != name {
            as_map_dom(after, n);
            let k = choose|k: int| 0 <= k < after.len() && (#[trigger] after[k]).0 == n;
            let i = choose|i: int| 0 <= i < before.len() && #[trigger] before[i] == after[k];
            as_map_ascending(after, k);
            as_map_ascending(before, i);
        }
    }
    assert(as_map(after) =~= target);
}

/// Taking one pair out of an ascending sequence takes its name out of the map.
proof fn lemma_removed(
    before: Seq<(Seq<char>, Seq<char>)>,
    after: Seq<(Seq<char>, Seq<char>)>,
    at: int,
)
    requires
        ascending(before),
        0 <= at < before.len(),
        after == before.remove(at),
    ensures
        ascending(after),
        as_map(after) == as_map(before).remove(before[at].0),
{
    let name = before[at].0;
    assert forall|i: int, j: int| 0 <= i < j < after.len() implies text_less(
        (#[trigger] after[i]).0,
        (#[trigger] after[j]).0,
    ) by {
        let x = if i < at { i } else { i + 1 };
        let y = if j < at { j } else { j + 1 };
        assert(text_less(before[x].0, before[y].0));
    }
    let target = as_map(before).remove(name);
    crate::text::text_less_irreflexive(name);
    assert forall|n: Seq<char>| #[trigger] as_map(after).dom().contains(n) == target.dom().contains(
        n,
    ) by {
        as_map_dom(after, n);
        as_map_dom(before, n);
        if as_map(after).dom().contains(n) {
            let k = choose|k: int| 0 <= k < after.len() && (#[trigger] after[k]).0 == n;
            let x = if k < at { k } else { k + 1 };
            assert(before[x].0 == n);
            if n == name {
                if x < at {
                    assert(text_less(before[x].0, before[at].0));
                } else {
                    assert(text_less(before[at].0, before[x].0));
                }
            }
        }
        if target.dom().contains(n) {
            let i = choose|i: int| 0 <= i < before.len() && (#[trigger] before[i]).0 == n;
            let k = if i < at { i } else { i - 1 };
            assert(after[k].0 == n);
        }
    }
    assert forall|n: Seq<char>| #[trigger] as_map(after).dom().contains(n) implies as_map(after)[n]
        == target[n] by {
        as_map_dom(after, n);
        let k = choose|k: int| 0 <= k < after.len() && (#[trigger] after[k]).0 == n;
        let x = if k < at { k } else { k + 1 };
        as_map_ascending(after, k);
        as_map_ascending(before, x);
    }
    assert(as_map(after) =~= target);
}

impl View for Labels {
    type V = Map<Seq<char>, Seq<char>>;

    closed spec fn view(&self) -> Map<Seq<char>, Seq<char>> {
        as_map(self.pairs())
    }
}

impl Clone for Labels {
    fn clone(&self) -> (r: Labels)
        ensures
            r@ == self@,
            r.pairs() == self.pairs(),
    {
        proof {
            use_type_invariant(self);
        }
        let mut entries: Vec<(String, String)> = Vec::new();
        let mut i: usize = 0;
        while i < self.entries.len()
            invariant
                i <= self.entries@.len(),
                views(entries@) == views(self.entries@).take(i as int),
            decreases self.entries@.len() - i,
        {
            let name = self.entries[i].0.clone();
            let value = self.entries[i].1.clone();
            let ghost before = entries@;
            entries.push((name, value));
            assert(views(entries@) =~= views(before).push((name@, value@)));
            i = i + 1;
            assert(views(entries@) =~= views(self.entries@).take(i as int));
        }
        assert(views(entries@) =~= views(self.entries@));
        Labels { entries }
    }
}

// ── Texts as a set ──────────────────────────────────────────────────

/// Some texts as a set: each maps to nothing.
pub open spec fn text_set(parts: Seq<Seq<char>>) -> Map<Seq<char>, Seq<char>>
    decreases parts.len(),
{
    if parts.len() == 0 {
        Map::empty()
    } else {
        text_set(parts.drop_last()).insert(parts.last(), Seq::empty())
    }
}

/// The different texts among some, in order.
pub open spec fn sorted_distinct(parts: Seq<Seq<char>>) -> Seq<Seq<char>> {
    sorted_pairs(text_set(parts)).map_values(|p: (Seq<char>, Seq<char>)| p.0)
}

/// The different texts among some, in order.
pub fn distinct_texts(v: &Vec<String>) -> (r: Vec<String>)
    ensures
        texts(r@) == sorted_distinct(texts(v@)),
{
    let ghost all = texts(v@);
    let mut set = Labels::new();
    let mut i: usize = 0;
    assert(all.take(0) =~= Seq::<Seq<char>>::empty());
    while i < v.len()
        invariant
            i <= v@.len(),
            all == texts(v@),
            set@ == text_set(all.take(i as int)),
        decreases v@.len() - i,
    {
        let none = String::new();
        proof {
            assert(none@ =~= Seq::<char>::empty());
            assert(all.take(i as int + 1).drop_last() =~= all.take(i as int));
            assert(all.take(i as int + 1).last() == v@[i as int]@);
        }
        set.insert(v[i].clone(), none);
        i = i + 1;
    }
    assert(all.take(v@.len() as int) =~= all);
    set.names()
}

/// What a set of texts holds does not depend on the order in which they came,
/// nor on how often.
pub proof fn a_text_set_holds_its_texts(parts: Seq<Seq<char>>, t: Seq<char>)
    ensures
        text_set(parts).dom().contains(t) <==> parts.contains(t),
        text_set(parts).dom().contains(t) ==> text_set(parts)[t] == Seq::<char>::empty(),
    decreases parts.len(),
{
    if parts.len() > 0 {
        a_text_set_holds_its_texts(parts.drop_last(), t);
        let init = parts.drop_last();
        if init.contains(t) {
            let i = choose|i: int| 0 <= i < init.len() && init[i] == t;
            assert(parts[i] == t);
        }
        if parts.contains(t) && parts.last() != t {
            let i = choose|i: int| 0 <= i < parts.len() && parts[i] == t;
            assert(init[i] == t);
        }
        assert(parts[parts.len() - 1] == parts.last());
    }
}

proof fn text_sets_are_finite(parts: Seq<Seq<char>>)
    ensures
        text_set(parts).dom().finite(),
    decreases parts.len(),
{
    if parts.len() > 0 {
        text_sets_are_finite(parts.drop_last());
    }
}

/// One more text among some stands at some place among the different ones, and
/// leaves the others in their order.
pub proof fn one_more_text(parts: Seq<Seq<char>>, more: Seq<Seq<char>>, t: Seq<char>) -> (at: int)
    requires
        !parts.contains(t),
        forall|u: Seq<char>| #[trigger] more.contains(u) <==> parts.contains(u) || u == t,
    ensures
        0 <= at <= sorted_distinct(parts).len(),
        sorted_distinct(more) == sorted_distinct(parts).insert(at, t),
{
    let m = text_set(parts);
    let none = Seq::<char>::empty();
    text_sets_are_finite(parts);
    finite_maps_can_be_sorted(m);
    a_text_set_holds_its_texts(parts, t);
    let before = sorted_pairs(m);
    let at = one_more_pair(before, t, none);
    let after = before.insert(at, (t, none));
    assert forall|u: Seq<char>| text_set(more).dom().contains(u) <==> m.insert(
        t,
        none,
    ).dom().contains(u) by {
        a_text_set_holds_its_texts(parts, u);
        a_text_set_holds_its_texts(more, u);
    }
    assert forall|u: Seq<char>| text_set(more).dom().contains(u) implies text_set(more)[u]
        == m.insert(t, none)[u] by {
        a_text_set_holds_its_texts(parts, u);
        a_text_set_holds_its_texts(more, u);
    }
    assert(text_set(more) =~= m.insert(t, none));
    sorted_pairs_unique(after);
    assert(sorted_distinct(more) =~= sorted_distinct(parts).insert(at, t));
    at
}

/// The different texts among some depend on which there are alone.
pub proof fn the_same_texts(a: Seq<Seq<char>>, b: Seq<Seq<char>>)
    requires
        forall|t: Seq<char>| #[trigger] a.contains(t) <==> b.contains(t),
    ensures
        sorted_distinct(a) == sorted_distinct(b),
{
    assert forall|t: Seq<char>| text_set(a).dom().contains(t) <==> text_set(b).dom().contains(
        t,
    ) by {
        a_text_set_holds_its_texts(a, t);
        a_text_set_holds_its_texts(b, t);
    }
    assert forall|t: Seq<char>| text_set(a).dom().contains(t) implies text_set(a)[t] == text_set(
        b,
    )[t] by {
        a_text_set_holds_its_texts(a, t);
        a_text_set_holds_its_texts(b, t);
    }
    assert(text_set(a) =~= text_set(b));
}

/// Where there is a text, there is one among the different ones.
pub proof fn texts_have_a_first(parts: Seq<Seq<char>>)
    requires
        parts.len() > 0,
    ensures
        sorted_distinct(parts).len() > 0,
{
    text_sets_are_finite(parts);
    finite_maps_can_be_sorted(text_set(parts));
    a_text_set_holds_its_texts(parts, parts[0]);
    assert(parts.contains(parts[0]));
    as_map_dom(sorted_pairs(text_set(parts)), parts[0]);
}

} // verus!
