//! Orders of importance.

use crate::text::{less, text_less, text_less_irreflexive, text_less_total, text_less_transitive};
use vstd::prelude::*;

verus! {

/// What can be ranked.
pub trait Ranked: Sized {
    /// Whether a value ranks before another.
    spec fn above(&self, other: &Self) -> bool;

    /// No two values rank before each other; and whatever ranks before a value
    /// ranks before a third, or the third ranks before the value.
    proof fn above_is_weak(a: &Self, b: &Self, c: &Self)
        ensures
            a.above(b) ==> !b.above(a),
            a.above(c) ==> a.above(b) || b.above(c),
    ;

    fn is_above(&self, other: &Self) -> (r: bool)
        ensures
            r == self.above(other),
    ;
}

/// Greater numbers first.
impl Ranked for i64 {
    open spec fn above(&self, other: &i64) -> bool {
        *self > *other
    }

    proof fn above_is_weak(a: &i64, b: &i64, c: &i64) {
    }

    fn is_above(&self, other: &i64) -> (r: bool) {
        *self > *other
    }
}

/// Greater counts first.
impl Ranked for usize {
    open spec fn above(&self, other: &usize) -> bool {
        *self > *other
    }

    proof fn above_is_weak(a: &usize, b: &usize, c: &usize) {
    }

    fn is_above(&self, other: &usize) -> (r: bool) {
        *self > *other
    }
}

/// Later texts first.
impl Ranked for String {
    open spec fn above(&self, other: &String) -> bool {
        text_less(other@, self@)
    }

    proof fn above_is_weak(a: &String, b: &String, c: &String) {
        if text_less(b@, a@) && text_less(a@, b@) {
            text_less_transitive(a@, b@, a@);
            text_less_irreflexive(a@);
        }
        if text_less(c@, a@) {
            text_less_total(c@, b@);
            text_less_total(b@, a@);
            if text_less(b@, c@) {
                text_less_transitive(b@, c@, a@);
            }
        }
    }

    fn is_above(&self, other: &String) -> (r: bool) {
        less(other.as_str(), self.as_str())
    }
}

/// Whether `order` holds the positions of `keys`, each once, what ranks before
/// something standing before it, and equals in the order in which they came.
pub open spec fn is_ranking<K: Ranked>(keys: Seq<K>, order: Seq<int>) -> bool {
    &&& order.len() == keys.len()
    &&& forall|j: int| 0 <= j < order.len() ==> 0 <= #[trigger] order[j] < keys.len()
    &&& forall|i: int| 0 <= i < keys.len() ==> #[trigger] order.contains(i)
    &&& forall|j: int, k: int|
        0 <= j < k < order.len() ==> stands_before(keys, #[trigger] order[j], #[trigger] order[k])
}

/// Whether the item at one position is to stand before the item at another.
pub open spec fn stands_before<K: Ranked>(keys: Seq<K>, i: int, j: int) -> bool {
    keys[i].above(&keys[j]) || (!keys[j].above(&keys[i]) && i < j)
}

/// The ranking of some items. It exists, and there is only one.
pub open spec fn ranking<K: Ranked>(keys: Seq<K>) -> Seq<int> {
    choose|order: Seq<int>| is_ranking(keys, order)
}

/// Two rankings of the same items are the same.
pub proof fn ranking_unique<K: Ranked>(keys: Seq<K>, a: Seq<int>, b: Seq<int>)
    requires
        is_ranking(keys, a),
        is_ranking(keys, b),
    ensures
        a == b,
{
    same_front(keys, a, b, a.len() as int);
    assert(a =~= b);
}

/// Whatever can be ranked has a ranking.
pub proof fn rankings_exist<K: Ranked>(keys: Seq<K>)
    ensures
        is_ranking(keys, ranking(keys)),
    decreases keys.len(),
{
    if keys.len() == 0 {
        assert(is_ranking(keys, Seq::<int>::empty()));
    } else {
        let i = keys.len() - 1;
        let fewer = keys.drop_last();
        rankings_exist(fewer);
        let before = ranking(fewer);
        let p = place_below(keys, before, before.len() as int);
        stands_at_its_place(keys, before, before.len() as int);
        let order = before.insert(p, i);
        assert forall|j: int| 0 <= j < order.len() implies 0 <= #[trigger] order[j]
            < keys.len() by {
            if j < p {
                assert(order[j] == before[j]);
            } else if j > p {
                assert(order[j] == before[j - 1]);
            }
        }
        assert forall|m: int| 0 <= m < keys.len() implies #[trigger] order.contains(m) by {
            if m < i {
                assert(before.contains(m));
                let k = choose|k: int| 0 <= k < before.len() && before[k] == m;
                assert(order[if k < p { k } else { k + 1 }] == m);
            } else {
                assert(order[p] == m);
            }
        }
        assert forall|j: int, k: int| 0 <= j < k < order.len() implies stands_before(
            keys,
            #[trigger] order[j],
            #[trigger] order[k],
        ) by {
            if j != p && k != p {
                let a = before[if j < p { j } else { j - 1 }];
                let b = before[if k < p { k } else { k - 1 }];
                assert(order[j] == a && order[k] == b);
                assert(stands_before(fewer, a, b));
                assert(fewer[a] == keys[a] && fewer[b] == keys[b]);
            } else if k == p {
                assert(order[j] == before[j]);
            } else {
                assert(order[k] == before[k - 1]);
            }
        }
        assert(is_ranking(keys, order));
    }
}

/// Where the last item goes among the first `n` of an order of the others:
/// behind all that it does not rank before.
spec fn place_below<K: Ranked>(keys: Seq<K>, order: Seq<int>, n: int) -> int
    decreases n,
{
    if n > 0 && keys.last().above(&keys[order[n - 1]]) {
        place_below(keys, order, n - 1)
    } else {
        n
    }
}

proof fn stands_at_its_place<K: Ranked>(keys: Seq<K>, order: Seq<int>, n: int)
    requires
        keys.len() > 0,
        is_ranking(keys.drop_last(), order),
        0 <= n <= order.len(),
        forall|j: int|
            n <= j < order.len() ==> stands_before(keys, keys.len() - 1, #[trigger] order[j]),
    ensures
        ({
            let i = keys.len() - 1;
            let p = place_below(keys, order, n);
            &&& 0 <= p <= order.len()
            &&& forall|j: int| 0 <= j < p ==> stands_before(keys, #[trigger] order[j], i)
            &&& forall|j: int| p <= j < order.len() ==> stands_before(keys, i, #[trigger] order[j])
        }),
    decreases n,
{
    let i = keys.len() - 1;
    if n > 0 && keys.last().above(&keys[order[n - 1]]) {
        stands_at_its_place(keys, order, n - 1);
    } else if n > 0 {
        let q = order[n - 1];
        assert forall|j: int| 0 <= j < n implies stands_before(keys, #[trigger] order[j], i) by {
            let m = order[j];
            if keys[i].above(&keys[m]) {
                K::above_is_weak(&keys[i], &keys[q], &keys[m]);
                if j < n - 1 {
                    assert(stands_before(keys.drop_last(), m, q));
                    assert(keys.drop_last()[m] == keys[m] && keys.drop_last()[q] == keys[q]);
                    K::above_is_weak(&keys[m], &keys[i], &keys[q]);
                }
            }
        }
    }
}

proof fn same_front<K: Ranked>(keys: Seq<K>, a: Seq<int>, b: Seq<int>, n: int)
    requires
        is_ranking(keys, a),
        is_ranking(keys, b),
        0 <= n <= a.len(),
    ensures
        forall|j: int| 0 <= j < n ==> #[trigger] a[j] == b[j],
    decreases n,
{
    if n > 0 {
        same_front(keys, a, b, n - 1);
        let j = n - 1;
        if a[j] != b[j] {
            assert(b.contains(a[j]));
            assert(a.contains(b[j]));
            let k = choose|k: int| 0 <= k < b.len() && b[k] == a[j];
            let m = choose|m: int| 0 <= m < a.len() && a[m] == b[j];
            K::above_is_weak(&keys[a[j]], &keys[b[j]], &keys[a[j]]);
            K::above_is_weak(&keys[b[j]], &keys[a[j]], &keys[b[j]]);
            if k < j {
                assert(a[k] == b[k]);
                assert(stands_before(keys, a[k], a[j]));
                K::above_is_weak(&keys[a[j]], &keys[a[j]], &keys[a[j]]);
            }
            if m < j {
                assert(a[m] == b[m]);
                assert(stands_before(keys, b[m], b[j]));
                K::above_is_weak(&keys[b[j]], &keys[b[j]], &keys[b[j]]);
            }
            assert(stands_before(keys, b[j], b[k]));
            assert(stands_before(keys, a[j], a[m]));
        }
    }
}

pub open spec fn as_ints(v: Seq<usize>) -> Seq<int> {
    v.map_values(|i: usize| i as int)
}

/// Rank some items.
pub fn rank<K: Ranked>(keys: &Vec<K>) -> (r: Vec<usize>)
    ensures
        is_ranking(keys@, as_ints(r@)),
        as_ints(r@) == ranking(keys@),
{
    let mut out: Vec<usize> = Vec::new();
    let mut i: usize = 0;
    while i < keys.len()
        invariant
            i <= keys@.len(),
            out@.len() == i,
            forall|j: int| 0 <= j < i ==> #[trigger] out@[j] < i,
            forall|j: usize| 0 <= j < i ==> #[trigger] out@.contains(j),
            forall|j: int, k: int|
                0 <= j < k < i ==> stands_before(
                    keys@,
                    #[trigger] out@[j] as int,
                    #[trigger] out@[k] as int,
                ),
        decreases keys@.len() - i,
    {
        let mut p: usize = i;
        while p > 0 && keys[i].is_above(&keys[out[p - 1]])
            invariant
                p <= i < keys@.len(),
                out@.len() == i,
                forall|j: int| 0 <= j < i ==> #[trigger] out@[j] < i,
                forall|j: int|
                    p <= j < i ==> keys@[i as int].above(&keys@[#[trigger] out@[j] as int]),
            decreases p,
        {
            p = p - 1;
        }
        let ghost before = out@;
        proof {
            assert forall|j: int| 0 <= j < p implies stands_before(
                keys@,
                #[trigger] before[j] as int,
                i as int,
            ) by {
                let q = before[p - 1] as int;
                assert(!keys@[i as int].above(&keys@[q]));
                if keys@[i as int].above(&keys@[before[j] as int]) {
                    K::above_is_weak(&keys@[i as int], &keys@[q], &keys@[before[j] as int]);
                    if j < p - 1 {
                        assert(stands_before(keys@, before[j] as int, q));
                        if keys@[before[j] as int].above(&keys@[q]) {
                            K::above_is_weak(
                                &keys@[before[j] as int],
                                &keys@[i as int],
                                &keys@[q],
                            );
                            K::above_is_weak(
                                &keys@[q],
                                &keys@[i as int],
                                &keys@[before[j] as int],
                            );
                        }
                    }
                }
            }
        }
        out.insert(p, i);
        proof {
            assert(out@ == before.insert(p as int, i));
            assert forall|j: int, k: int| 0 <= j < k < i + 1 implies stands_before(
                keys@,
                #[trigger] out@[j] as int,
                #[trigger] out@[k] as int,
            ) by {
                if k < p {
                    assert(out@[j] == before[j] && out@[k] == before[k]);
                } else if k == p {
                    assert(out@[j] == before[j]);
                } else if j < p {
                    assert(out@[j] == before[j] && out@[k] == before[k - 1]);
                } else if j == p {
                    assert(out@[k] == before[k - 1]);
                } else {
                    assert(out@[j] == before[j - 1] && out@[k] == before[k - 1]);
                }
            }
            assert forall|j: usize| 0 <= j < i + 1 implies #[trigger] out@.contains(j) by {
                if j < i {
                    assert(before.contains(j));
                    let k = choose|k: int| 0 <= k < before.len() && before[k] == j;
                    if k < p {
                        assert(out@[k] == j);
                    } else {
                        assert(out@[k + 1] == j);
                    }
                } else {
                    assert(out@[p as int] == j);
                }
            }
            assert forall|j: int| 0 <= j < i + 1 implies #[trigger] out@[j] < i + 1 by {
                if j < p {
                    assert(out@[j] == before[j]);
                } else if j > p {
                    assert(out@[j] == before[j - 1]);
                }
            }
        }
        i = i + 1;
    }
    proof {
        let order = as_ints(out@);
        assert forall|j: int, k: int| 0 <= j < k < order.len() implies stands_before(
            keys@,
            #[trigger] order[j],
            #[trigger] order[k],
        ) by {
            assert(order[j] == out@[j] as int && order[k] == out@[k] as int);
        }
        assert forall|j: int| 0 <= j < keys@.len() implies #[trigger] order.contains(j) by {
            assert(out@.contains(j as usize));
            let k = choose|k: int| 0 <= k < out@.len() && out@[k] == j as usize;
            assert(order[k] == j);
        }
        assert(is_ranking(keys@, order));
        ranking_unique(keys@, order, ranking(keys@));
    }
    out
}

} // verus!
