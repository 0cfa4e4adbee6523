//! Grouping items by a text key.

use crate::labels::{ascending, insertion_point};
use crate::text::{chars, less, same, text, text_less, texts};
use vstd::prelude::*;

verus! {

// ── Keys ────────────────────────────────────────────────────────────

/// A text with an end that can be told from what it holds: a comma, while each
/// comma and backslash of the text stands behind a backslash.
pub open spec fn coded_text(t: Seq<char>) -> Seq<char>
    decreases t.len(),
{
    if t.len() == 0 {
        seq![',']
    } else if t[0] == ',' || t[0] == '\\' {
        seq!['\\', t[0]] + coded_text(t.drop_first())
    } else {
        seq![t[0]] + coded_text(t.drop_first())
    }
}

/// Texts as one key, which tells them from all other texts.
pub open spec fn coded(parts: Seq<Seq<char>>) -> Seq<char>
    decreases parts.len(),
{
    if parts.len() == 0 {
        Seq::empty()
    } else {
        coded(parts.drop_last()) + coded_text(parts.last())
    }
}

/// Two texts whose codes begin one text are the same, and so is what follows.
proof fn codes_end(a: Seq<char>, b: Seq<char>, x: Seq<char>, y: Seq<char>)
    requires
        coded_text(a) + x == coded_text(b) + y,
    ensures
        a == b,
        x == y,
    decreases a.len(),
{
    let s = coded_text(a) + x;
    let t = coded_text(b) + y;
    assert(s[0] == t[0]);
    if a.len() == 0 || b.len() == 0 {
        if a.len() > 0 {
            assert(s[0] == coded_text(a)[0]);
        }
        if b.len() > 0 {
            assert(t[0] == coded_text(b)[0]);
        }
        assert(a =~= b);
        assert(x =~= s.skip(1));
        assert(y =~= t.skip(1));
    } else {
        let ra = coded_text(a.drop_first());
        let rb = coded_text(b.drop_first());
        if a[0] == ',' || a[0] == '\\' {
            assert(s[1] == a[0]);
            assert(b[0] == ',' || b[0] == '\\');
            assert(t[1] == b[0]);
            assert(ra + x =~= s.skip(2));
            assert(rb + y =~= t.skip(2));
        } else {
            assert(ra + x =~= s.skip(1));
            assert(rb + y =~= t.skip(1));
        }
        codes_end(a.drop_first(), b.drop_first(), x, y);
        assert(a =~= seq![a[0]] + a.drop_first());
        assert(b =~= seq![b[0]] + b.drop_first());
    }
}

/// The code of texts, from the first one on.
proof fn coded_first(parts: Seq<Seq<char>>)
    requires
        parts.len() > 0,
    ensures
        coded(parts) == coded_text(parts[0]) + coded(parts.drop_first()),
    decreases parts.len(),
{
    let init = parts.drop_last();
    if init.len() == 0 {
        assert(coded(init) =~= Seq::<char>::empty());
        assert(coded(parts.drop_first()) =~= Seq::<char>::empty());
        assert(coded(parts) =~= coded_text(parts[0]) + coded(parts.drop_first()));
    } else {
        coded_first(init);
        assert(parts.drop_first().drop_last() =~= init.drop_first());
        assert(coded(parts) =~= coded_text(parts[0]) + coded(parts.drop_first()));
    }
}

/// Different texts have different keys.
pub proof fn keys_tell_texts_apart(a: Seq<Seq<char>>, b: Seq<Seq<char>>)
    ensures
        coded(a) == coded(b) <==> a == b,
    decreases a.len(),
{
    if coded(a) == coded(b) {
        if a.len() > 0 {
            coded_first(a);
        }
        if b.len() > 0 {
            coded_first(b);
        }
        if a.len() == 0 || b.len() == 0 {
            assert(a =~= b);
        } else {
            codes_end(a[0], b[0], coded(a.drop_first()), coded(b.drop_first()));
            keys_tell_texts_apart(a.drop_first(), b.drop_first());
            assert(a =~= seq![a[0]] + a.drop_first());
            assert(b =~= seq![b[0]] + b.drop_first());
        }
    }
}

/// Put the code of a text behind a text.
fn push_code(out: &mut Vec<char>, part: &str)
    ensures
        final(out)@ == old(out)@ + coded_text(part@),
{
    let v = chars(part);
    let ghost before = out@;
    let mut i: usize = 0;
    assert(v@.skip(0) =~= v@);
    while i < v.len()
        invariant
            i <= v@.len(),
            out@ + coded_text(v@.skip(i as int)) == before + coded_text(v@),
        decreases v@.len() - i,
    {
        let ghost rest = v@.skip(i as int);
        assert(rest.drop_first() =~= v@.skip(i as int + 1));
        let c: char = v[i];
        let ghost so_far = out@;
        if c == ',' || c == '\\' {
            out.push('\\');
        }
        out.push(c);
        assert(out@ + coded_text(rest.drop_first()) =~= so_far + coded_text(rest));
        i = i + 1;
    }
    assert(v@.skip(i as int) =~= Seq::<char>::empty());
    out.push(',');
    assert(out@ =~= before + coded_text(v@));
}

/// Texts as one key.
pub fn code(parts: &Vec<String>) -> (r: String)
    ensures
        r@ == coded(texts(parts@)),
{
    let ghost all = texts(parts@);
    let mut out: Vec<char> = Vec::new();
    let mut i: usize = 0;
    assert(coded(all.take(0)) =~= Seq::<char>::empty());
    while i < parts.len()
        invariant
            i <= parts@.len(),
            all == texts(parts@),
            out@ == coded(all.take(i as int)),
        decreases parts@.len() - i,
    {
        assert(all.take(i as int + 1).drop_last() =~= all.take(i as int));
        push_code(&mut out, parts[i].as_str());
        i = i + 1;
    }
    assert(all.take(parts@.len() as int) =~= all);
    let n: usize = out.len();
    let r = text(&out, 0, n);
    assert(r@ =~= out@);
    r
}

// ── Groups ──────────────────────────────────────────────────────────

/// The positions of the items that share a key.
#[derive(Debug)]
pub struct Group {
    pub key: String,
    pub members: Vec<usize>,
}

impl View for Group {
    type V = (Seq<char>, Seq<int>);

    open spec fn view(&self) -> (Seq<char>, Seq<int>) {
        (self.key@, self.members@.map_values(|i: usize| i as int))
    }
}

/// The positions at which a key stands, in order.
pub open spec fn positions(keys: Seq<Seq<char>>, key: Seq<char>) -> Seq<int>
    decreases keys.len(),
{
    if keys.len() == 0 {
        Seq::empty()
    } else if keys.last() == key {
        positions(keys.drop_last(), key).push(keys.len() - 1)
    } else {
        positions(keys.drop_last(), key)
    }
}

/// Whether `groups` holds one group for each key that occurs, in the order of
/// the keys, with the positions at which its key stands.
pub open spec fn is_grouping(keys: Seq<Seq<char>>, groups: Seq<(Seq<char>, Seq<int>)>) -> bool {
    &&& ascending(groups)
    &&& forall|g: int|
        0 <= g < groups.len() ==> (#[trigger] groups[g]).1 == positions(keys, groups[g].0)
    &&& forall|g: int| 0 <= g < groups.len() ==> keys.contains((#[trigger] groups[g]).0)
    &&& forall|i: int|
        0 <= i < keys.len() ==> exists|g: int|
            0 <= g < groups.len() && (#[trigger] groups[g]).0 == #[trigger] keys[i]
}

pub open spec fn group_views(groups: Seq<Group>) -> Seq<(Seq<char>, Seq<int>)> {
    groups.map_values(|g: Group| g@)
}

/// The positions of a key ascend, lie in the sequence, and hold that key; and
/// every place that holds the key is among them.
proof fn positions_sound(keys: Seq<Seq<char>>, key: Seq<char>)
    ensures
        forall|k: int|
            0 <= k < positions(keys, key).len() ==> {
                &&& 0 <= #[trigger] positions(keys, key)[k] < keys.len()
                &&& keys[positions(keys, key)[k]] == key
            },
        forall|j: int, k: int|
            0 <= j < k < positions(keys, key).len() ==> (#[trigger] positions(keys, key)[j]) < (
            #[trigger] positions(keys, key)[k]),
        forall|i: int|
            0 <= i < keys.len() && #[trigger] keys[i] == key ==> positions(keys, key).contains(i),
    decreases keys.len(),
{
    if keys.len() > 0 {
        let init = keys.drop_last();
        positions_sound(init, key);
        let p = positions(init, key);
        assert forall|i: int| 0 <= i < keys.len() && #[trigger] keys[i] == key implies positions(
            keys,
            key,
        ).contains(i) by {
            if i < keys.len() - 1 {
                assert(init[i] == key);
                let k = choose|k: int| 0 <= k < p.len() && p[k] == i;
                assert(positions(keys, key)[k] == i);
            } else {
                assert(positions(keys, key)[positions(keys, key).len() - 1] == i);
            }
        }
    }
}

/// Two positions are in one group exactly when they hold the same key.
pub proof fn together_where_keys_agree(keys: Seq<Seq<char>>, i: int, j: int)
    requires
        0 <= i < keys.len(),
        0 <= j < keys.len(),
    ensures
        (exists|g: int|
            0 <= g < grouping(keys).len() && (#[trigger] grouping(keys)[g]).1.contains(i)
                && grouping(keys)[g].1.contains(j)) <==> keys[i] == keys[j],
{
    grouping_exists(keys);
    let groups = grouping(keys);
    if exists|g: int|
        0 <= g < groups.len() && (#[trigger] groups[g]).1.contains(i) && groups[g].1.contains(j) {
        let g = choose|g: int|
            0 <= g < groups.len() && (#[trigger] groups[g]).1.contains(i) && groups[g].1.contains(
                j,
            );
        positions_sound(keys, groups[g].0);
    }
    if keys[i] == keys[j] {
        let g = choose|g: int| 0 <= g < groups.len() && (#[trigger] groups[g]).0 == keys[i];
        positions_sound(keys, keys[i]);
        assert(groups[g].1.contains(i) && groups[g].1.contains(j));
    }
}

/// Two groupings of the same keys are the same.
proof fn grouping_unique(
    keys: Seq<Seq<char>>,
    a: Seq<(Seq<char>, Seq<int>)>,
    b: Seq<(Seq<char>, Seq<int>)>,
)
    requires
        is_grouping(keys, a),
        is_grouping(keys, b),
    ensures
        a == b,
{
    same_keys(keys, a, b, 0);
    assert(a =~= b);
}

proof fn same_keys(
    keys: Seq<Seq<char>>,
    a: Seq<(Seq<char>, Seq<int>)>,
    b: Seq<(Seq<char>, Seq<int>)>,
    n: int,
)
    requires
        is_grouping(keys, a),
        is_grouping(keys, b),
        0 <= n <= a.len(),
        n <= b.len(),
        forall|i: int| 0 <= i < n ==> a[i] == b[i],
    ensures
        a.len() == b.len(),
        forall|i: int| 0 <= i < a.len() ==> a[i] == b[i],
    decreases a.len() - n,
{
    if n < a.len() && n < b.len() {
        let x = a[n].0;
        let y = b[n].0;
        crate::text::text_less_total(x, y);
        if text_less(x, y) {
            key_has_group(keys, b, x);
            let g = choose|g: int| 0 <= g < b.len() && (#[trigger] b[g]).0 == x;
            key_below(a, b, n, g);
        } else if text_less(y, x) {
            key_has_group(keys, a, y);
            let g = choose|g: int| 0 <= g < a.len() && (#[trigger] a[g]).0 == y;
            key_below(b, a, n, g);
        }
        assert(a[n] == b[n]);
        same_keys(keys, a, b, n + 1);
    } else if n < a.len() {
        key_has_group(keys, b, a[n].0);
        let g = choose|g: int| 0 <= g < b.len() && (#[trigger] b[g]).0 == a[n].0;
        assert(text_less(a[g].0, a[n].0));
        crate::text::text_less_irreflexive(a[n].0);
    } else if n < b.len() {
        key_has_group(keys, a, b[n].0);
        let g = choose|g: int| 0 <= g < a.len() && (#[trigger] a[g]).0 == b[n].0;
        assert(text_less(b[g].0, b[n].0));
        crate::text::text_less_irreflexive(b[n].0);
    }
}

proof fn key_has_group(keys: Seq<Seq<char>>, b: Seq<(Seq<char>, Seq<int>)>, key: Seq<char>)
    requires
        is_grouping(keys, b),
        keys.contains(key),
    ensures
        exists|g: int| 0 <= g < b.len() && (#[trigger] b[g]).0 == key,
{
    let i = choose|i: int| 0 <= i < keys.len() && keys[i] == key;
    assert(keys[i] == key);
}

/// A key below `b[n]` stands nowhere in `b` when everything before `n` agrees
/// with `a`, where it stands at `n`.
proof fn key_below(
    a: Seq<(Seq<char>, Seq<int>)>,
    b: Seq<(Seq<char>, Seq<int>)>,
    n: int,
    g: int,
)
    requires
        ascending(a),
        ascending(b),
        0 <= n < a.len(),
        n < b.len(),
        forall|i: int| 0 <= i < n ==> a[i] == b[i],
        0 <= g < b.len(),
        text_less(a[n].0, b[n].0),
    ensures
        b[g].0 != a[n].0,
{
    crate::text::text_less_irreflexive(a[n].0);
    if g < n {
        assert(text_less(a[g].0, a[n].0));
    } else if g > n {
        assert(text_less(b[n].0, b[g].0));
        if b[g].0 == a[n].0 {
            crate::text::text_less_transitive(a[n].0, b[n].0, a[n].0);
        }
    }
}

/// The grouping of keys. It exists, and there is only one.
pub open spec fn grouping(keys: Seq<Seq<char>>) -> Seq<(Seq<char>, Seq<int>)> {
    choose|groups: Seq<(Seq<char>, Seq<int>)>| is_grouping(keys, groups)
}

/// Every sequence of keys has a grouping.
pub proof fn grouping_exists(keys: Seq<Seq<char>>)
    ensures
        is_grouping(keys, grouping(keys)),
    decreases keys.len(),
{
    if keys.len() == 0 {
        assert(is_grouping(keys, Seq::<(Seq<char>, Seq<int>)>::empty()));
    } else {
        let init = keys.drop_last();
        let key = keys.last();
        grouping_exists(init);
        let groups = grouping(init);
        let at = insertion_point(groups, key);
        if at < groups.len() && groups[at].0 == key {
            let more = groups.update(at, (key, groups[at].1.push(init.len() as int)));
            lemma_extend_found(init, keys, groups, more, at);
            assert(is_grouping(keys, more));
        } else {
            let more = groups.insert(at, (key, seq![init.len() as int]));
            lemma_extend_new(init, keys, groups, more, at);
            assert(is_grouping(keys, more));
        }
    }
}

/// Groups positions by the key that stands there.
pub fn group_by(keys: &Vec<String>) -> (r: Vec<Group>)
    ensures
        group_views(r@) == grouping(texts(keys@)),
        is_grouping(texts(keys@), group_views(r@)),
        forall|g: int, k: int|
            0 <= g < r@.len() && 0 <= k < r@[g].members@.len() ==> #[trigger] r@[g].members@[k]
                < keys@.len(),
        forall|g: int| 0 <= g < r@.len() ==> (#[trigger] r@[g]).members@.len() > 0,
{
    let mut groups: Vec<Group> = Vec::new();
    let mut n: usize = 0;
    while n < keys.len()
        invariant
            n <= keys@.len(),
            is_grouping(texts(keys@).take(n as int), group_views(groups@)),
        decreases keys@.len() - n,
    {
        let ghost before = texts(keys@).take(n as int);
        let ghost after = texts(keys@).take(n as int + 1);
        let ghost key = keys@[n as int]@;
        let ghost old_views = group_views(groups@);
        assert(after.drop_last() =~= before);
        assert(after.last() == key);
        let (at, found) = find_group(&groups, keys[n].as_str());
        if found {
            let mut group = groups.remove(at);
            group.members.push(n);
            groups.insert(at, group);
            let ghost new_views = group_views(groups@);
            proof {
                assert(group.members@.map_values(|i: usize| i as int) =~= old_views[at as int].1.push(
                    n as int,
                ));
                assert(new_views =~= old_views.update(
                    at as int,
                    (key, old_views[at as int].1.push(n as int)),
                ));
                lemma_extend_found(before, after, old_views, new_views, at as int);
            }
        } else {
            let mut members: Vec<usize> = Vec::new();
            members.push(n);
            let group = Group { key: keys[n].clone(), members };
            groups.insert(at, group);
            let ghost new_views = group_views(groups@);
            proof {
                assert(members@.map_values(|i: usize| i as int) =~= seq![n as int]);
                assert(new_views =~= old_views.insert(at as int, (key, seq![n as int])));
                lemma_extend_new(before, after, old_views, new_views, at as int);
            }
        }
        n = n + 1;
    }
    proof {
        assert(texts(keys@).take(keys@.len() as int) =~= texts(keys@));
        let all = texts(keys@);
        let views = group_views(groups@);
        grouping_exists(all);
        grouping_unique(all, views, grouping(all));
        assert forall|g: int| 0 <= g < groups@.len() implies (#[trigger] groups@[g]).members@.len()
            > 0 by {
            assert(views[g] == groups@[g]@);
            positions_sound(all, views[g].0);
            let i = choose|i: int| 0 <= i < all.len() && all[i] == views[g].0;
            assert(all[i] == views[g].0);
            assert(views[g].1.contains(i));
        }
        assert forall|g: int, k: int|
            0 <= g < groups@.len() && 0 <= k < groups@[g].members@.len() implies #[trigger] groups@[g].members@[k]
            < keys@.len() by {
            assert(views[g] == groups@[g]@);
            positions_sound(all, views[g].0);
            assert(views[g].1[k] == groups@[g].members@[k]);
        }
    }
    groups
}

/// The position of the group with a key, or where it would stand.
fn find_group(groups: &Vec<Group>, key: &str) -> (r: (usize, bool))
    requires
        ascending(group_views(groups@)),
    ensures
        r.0 <= groups@.len(),
        r.1 ==> r.0 < groups@.len() && groups@[r.0 as int].key@ == key@,
        !r.1 ==> forall|i: int|
            0 <= i < r.0 ==> text_less((#[trigger] group_views(groups@)[i]).0, key@),
        !r.1 ==> forall|i: int|
            r.0 <= i < groups@.len() ==> text_less(key@, (#[trigger] group_views(groups@)[i]).0),
{
    let mut lo: usize = 0;
    let mut hi: usize = groups.len();
    let ghost views = group_views(groups@);
    while lo < hi
        invariant
            lo <= hi <= groups@.len(),
            views == group_views(groups@),
            ascending(views),
            forall|i: int| 0 <= i < lo ==> text_less((#[trigger] views[i]).0, key@),
            forall|i: int| hi <= i < views.len() ==> text_less(key@, (#[trigger] views[i]).0),
        decreases hi - lo,
    {
        let mid: usize = lo + (hi - lo) / 2;
        let ghost here = views[mid as int].0;
        if less(groups[mid].key.as_str(), key) {
            proof {
                assert forall|i: int| 0 <= i < mid + 1 implies text_less(
                    (#[trigger] views[i]).0,
                    key@,
                ) by {
                    if i < mid {
                        crate::text::text_less_transitive(views[i].0, here, key@);
                    }
                }
            }
            lo = mid + 1;
        } else if same(groups[mid].key.as_str(), key) {
            return (mid, true);
        } else {
            proof {
                crate::text::text_less_total(here, key@);
                assert forall|i: int| mid <= i < views.len() implies text_less(
                    key@,
                    (#[trigger] views[i]).0,
                ) by {
                    if i > mid {
                        crate::text::text_less_transitive(key@, here, views[i].0);
                    }
                }
            }
            hi = mid;
        }
    }
    (lo, false)
}

proof fn lemma_extend_found(
    before: Seq<Seq<char>>,
    after: Seq<Seq<char>>,
    old_views: Seq<(Seq<char>, Seq<int>)>,
    new_views: Seq<(Seq<char>, Seq<int>)>,
    at: int,
)
    requires
        is_grouping(before, old_views),
        after.len() > 0,
        after.drop_last() == before,
        0 <= at < old_views.len(),
        old_views[at].0 == after.last(),
        new_views == old_views.update(at, (after.last(), old_views[at].1.push(before.len() as int))),
    ensures
        is_grouping(after, new_views),
{
    assert forall|i: int, j: int| 0 <= i < j < new_views.len() implies text_less(
        (#[trigger] new_views[i]).0,
        (#[trigger] new_views[j]).0,
    ) by {
        assert(text_less(old_views[i].0, old_views[j].0));
    }
    assert forall|g: int| 0 <= g < new_views.len() implies (#[trigger] new_views[g]).1 == positions(
        after,
        new_views[g].0,
    ) && after.contains(new_views[g].0) by {
        assert(old_views[g].1 == positions(before, old_views[g].0));
        if g != at && old_views[g].0 == after.last() {
            if g < at {
                assert(text_less(old_views[g].0, old_views[at].0));
            } else {
                assert(text_less(old_views[at].0, old_views[g].0));
            }
            crate::text::text_less_irreflexive(after.last());
        }
        assert(before.contains(old_views[g].0));
        let i = choose|i: int| 0 <= i < before.len() && before[i] == old_views[g].0;
        assert(after[i] == old_views[g].0);
    }
    assert forall|i: int| 0 <= i < after.len() implies exists|g: int|
        0 <= g < new_views.len() && (#[trigger] new_views[g]).0 == #[trigger] after[i] by {
        if i < before.len() {
            assert(before[i] == after[i]);
            let g = choose|g: int| 0 <= g < old_views.len() && (#[trigger] old_views[g]).0 == before[i];
            assert(new_views[g].0 == after[i]);
        } else {
            assert(new_views[at].0 == after[i]);
        }
    }
}

proof fn lemma_extend_new(
    before: Seq<Seq<char>>,
    after: Seq<Seq<char>>,
    old_views: Seq<(Seq<char>, Seq<int>)>,
    new_views: Seq<(Seq<char>, Seq<int>)>,
    at: int,
)
    requires
        is_grouping(before, old_views),
        after.len() > 0,
        after.drop_last() == before,
        0 <= at <= old_views.len(),
        forall|i: int| 0 <= i < at ==> text_less((#[trigger] old_views[i]).0, after.last()),
        forall|i: int|
            at <= i < old_views.len() ==> text_less(after.last(), (#[trigger] old_views[i]).0),
        new_views == old_views.insert(at, (after.last(), seq![before.len() as int])),
    ensures
        is_grouping(after, new_views),
{
    let key = after.last();
    crate::text::text_less_irreflexive(key);
    assert forall|i: int, j: int| 0 <= i < j < new_views.len() implies text_less(
        (#[trigger] new_views[i]).0,
        (#[trigger] new_views[j]).0,
    ) by {
        let oi = if i < at { i } else { i - 1 };
        let oj = if j < at { j } else { j - 1 };
        if i != at && j != at {
            assert(text_less(old_views[oi].0, old_views[oj].0));
        } else if i == at {
            assert(text_less(key, old_views[oj].0));
        } else {
            assert(text_less(old_views[oi].0, key));
        }
    }
    // No earlier item has the key.
    assert(!before.contains(key)) by {
        if before.contains(key) {
            let i = choose|i: int| 0 <= i < before.len() && before[i] == key;
            assert(before[i] == key);
            let g = choose|g: int| 0 <= g < old_views.len() && (#[trigger] old_views[g]).0 == before[i];
            assert(g < at || g >= at);
        }
    }
    positions_sound(before, key);
    assert(positions(before, key) =~= Seq::<int>::empty()) by {
        if positions(before, key).len() > 0 {
            assert(before[positions(before, key)[0]] == key);
        }
    }
    assert(positions(after, key) =~= seq![before.len() as int]);
    assert forall|g: int| 0 <= g < new_views.len() implies (#[trigger] new_views[g]).1 == positions(
        after,
        new_views[g].0,
    ) && after.contains(new_views[g].0) by {
        if g == at {
            assert(after[after.len() - 1] == key);
        } else {
            let o = if g < at { g } else { g - 1 };
            assert(new_views[g] == old_views[o]);
            assert(old_views[o].0 != key);
            assert(before.contains(old_views[o].0));
            let i = choose|i: int| 0 <= i < before.len() && before[i] == old_views[o].0;
            assert(after[i] == old_views[o].0);
        }
    }
    assert forall|i: int| 0 <= i < after.len() implies exists|g: int|
        0 <= g < new_views.len() && (#[trigger] new_views[g]).0 == #[trigger] after[i] by {
        if i < before.len() {
            assert(before[i] == after[i]);
            let g = choose|g: int| 0 <= g < old_views.len() && (#[trigger] old_views[g]).0 == before[i];
            assert(new_views[if g < at { g } else { g + 1 }].0 == after[i]);
        } else {
            assert(new_views[at].0 == after[i]);
        }
    }
}

// ── Two keys ────────────────────────────────────────────────────────

/// The items at some positions.
pub open spec fn picked<T>(items: Seq<T>, places: Seq<int>) -> Seq<T> {
    places.map_values(|i: int| items[i])
}

/// The groups of the second key within a group of the first.
pub open spec fn regrouped(seconds: Seq<Seq<char>>, members: Seq<int>) -> Seq<
    (Seq<char>, Seq<int>),
> {
    grouping(picked(seconds, members)).map_values(
        |h: (Seq<char>, Seq<int>)| (h.0, picked(members, h.1)),
    )
}

/// A grouping by one key, and within each group by another.
pub open spec fn grouping2(firsts: Seq<Seq<char>>, seconds: Seq<Seq<char>>) -> Seq<
    (Seq<char>, Seq<(Seq<char>, Seq<int>)>),
> {
    grouping(firsts).map_values(|g: (Seq<char>, Seq<int>)| (g.0, regrouped(seconds, g.1)))
}

/// The groups of a second key that share the first.
#[derive(Debug)]
pub struct DoubleGroup {
    pub key: String,
    pub groups: Vec<Group>,
}

impl View for DoubleGroup {
    type V = (Seq<char>, Seq<(Seq<char>, Seq<int>)>);

    open spec fn view(&self) -> (Seq<char>, Seq<(Seq<char>, Seq<int>)>) {
        (self.key@, group_views(self.groups@))
    }
}

pub open spec fn double_views(v: Seq<DoubleGroup>) -> Seq<
    (Seq<char>, Seq<(Seq<char>, Seq<int>)>),
> {
    v.map_values(|g: DoubleGroup| g@)
}

pub open spec fn members_below(groups: Seq<Group>, n: nat) -> bool {
    forall|g: int, k: int|
        0 <= g < groups.len() && 0 <= k < groups[g].members@.len()
            ==> #[trigger] groups[g].members@[k] < n
}

fn pick_texts(items: &Vec<String>, places: &Vec<usize>) -> (r: Vec<String>)
    requires
        forall|k: int| 0 <= k < places@.len() ==> #[trigger] places@[k] < items@.len(),
    ensures
        texts(r@) == picked(texts(items@), places@.map_values(|i: usize| i as int)),
{
    let ghost wanted = picked(texts(items@), places@.map_values(|i: usize| i as int));
    let mut out: Vec<String> = Vec::new();
    let mut i: usize = 0;
    while i < places.len()
        invariant
            i <= places@.len(),
            forall|k: int| 0 <= k < places@.len() ==> #[trigger] places@[k] < items@.len(),
            wanted == picked(texts(items@), places@.map_values(|i: usize| i as int)),
            texts(out@) == wanted.take(i as int),
        decreases places@.len() - i,
    {
        let ghost before = out@;
        let s = items[places[i]].clone();
        assert(s@ == wanted[i as int]);
        out.push(s);
        assert(texts(out@) =~= texts(before).push(s@));
        i = i + 1;
        assert(texts(out@) =~= wanted.take(i as int));
    }
    assert(wanted.take(places@.len() as int) =~= wanted);
    out
}

fn pick_places(members: &Vec<usize>, places: &Vec<usize>) -> (r: Vec<usize>)
    requires
        forall|k: int| 0 <= k < places@.len() ==> #[trigger] places@[k] < members@.len(),
    ensures
        r@.len() == places@.len(),
        forall|k: int| 0 <= k < r@.len() ==> #[trigger] r@[k] == members@[places@[k] as int],
{
    let mut out: Vec<usize> = Vec::new();
    let mut i: usize = 0;
    while i < places.len()
        invariant
            i <= places@.len(),
            forall|k: int| 0 <= k < places@.len() ==> #[trigger] places@[k] < members@.len(),
            out@.len() == i,
            forall|k: int| 0 <= k < i ==> #[trigger] out@[k] == members@[places@[k] as int],
        decreases places@.len() - i,
    {
        out.push(members[places[i]]);
        i = i + 1;
    }
    out
}

/// Groups the members of a group by a second key.
pub fn regroup(seconds: &Vec<String>, members: &Vec<usize>) -> (r: Vec<Group>)
    requires
        forall|k: int| 0 <= k < members@.len() ==> #[trigger] members@[k] < seconds@.len(),
    ensures
        group_views(r@) == regrouped(texts(seconds@), members@.map_values(|i: usize| i as int)),
        members_below(r@, seconds@.len()),
        forall|g: int| 0 <= g < r@.len() ==> (#[trigger] r@[g]).members@.len() > 0,
{
    let ghost ints = members@.map_values(|i: usize| i as int);
    let keys = pick_texts(seconds, members);
    assert(texts(keys@).len() == keys@.len());
    let inner = group_by(&keys);
    let ghost wanted = regrouped(texts(seconds@), ints);
    let mut out: Vec<Group> = Vec::new();
    let mut g: usize = 0;
    assert(group_views(out@) =~= wanted.take(0));
    while g < inner.len()
        invariant
            g <= inner@.len(),
            ints == members@.map_values(|i: usize| i as int),
            wanted == regrouped(texts(seconds@), ints),
            group_views(inner@) == grouping(picked(texts(seconds@), ints)),
            forall|k: int| 0 <= k < members@.len() ==> #[trigger] members@[k] < seconds@.len(),
            forall|g: int, k: int|
                0 <= g < inner@.len() && 0 <= k < inner@[g].members@.len()
                    ==> #[trigger] inner@[g].members@[k] < members@.len(),
            forall|g: int| 0 <= g < inner@.len() ==> (#[trigger] inner@[g]).members@.len() > 0,
            group_views(out@) == wanted.take(g as int),
            members_below(out@, seconds@.len()),
            forall|g: int| 0 <= g < out@.len() ==> (#[trigger] out@[g]).members@.len() > 0,
        decreases inner@.len() - g,
    {
        let ghost before = out@;
        let h = &inner[g];
        assert(group_views(inner@)[g as int] == h@);
        let places = pick_places(members, &h.members);
        let made = Group { key: h.key.clone(), members: places };
        proof {
            assert(made@.1 =~= picked(ints, h@.1));
            assert(made@ == wanted[g as int]);
        }
        out.push(made);
        assert(group_views(out@) =~= group_views(before).push(made@));
        g = g + 1;
        assert(group_views(out@) =~= wanted.take(g as int));
        assert(members_below(out@, seconds@.len())) by {
            assert forall|a: int, k: int|
                0 <= a < out@.len() && 0 <= k < out@[a].members@.len() implies
                    #[trigger] out@[a].members@[k] < seconds@.len() by {
                if a < before.len() {
                    assert(out@[a] == before[a]);
                }
            }
        }
    }
    assert(wanted.take(inner@.len() as int) =~= wanted);
    out
}

/// Groups items by one key, and within each group by another.
pub fn group_by2(firsts: &Vec<String>, seconds: &Vec<String>) -> (r: Vec<DoubleGroup>)
    requires
        firsts@.len() == seconds@.len(),
    ensures
        double_views(r@) == grouping2(texts(firsts@), texts(seconds@)),
        forall|g: int|
            0 <= g < r@.len() ==> members_below((#[trigger] r@[g]).groups@, firsts@.len()),
        forall|g: int, h: int|
            0 <= g < r@.len() && 0 <= h < r@[g].groups@.len() ==> (
            #[trigger] r@[g].groups@[h]).members@.len() > 0,
{
    let outer = group_by(firsts);
    let ghost wanted = grouping2(texts(firsts@), texts(seconds@));
    let mut out: Vec<DoubleGroup> = Vec::new();
    let mut g: usize = 0;
    assert(double_views(out@) =~= wanted.take(0));
    while g < outer.len()
        invariant
            g <= outer@.len(),
            firsts@.len() == seconds@.len(),
            wanted == grouping2(texts(firsts@), texts(seconds@)),
            group_views(outer@) == grouping(texts(firsts@)),
            forall|g: int, k: int|
                0 <= g < outer@.len() && 0 <= k < outer@[g].members@.len()
                    ==> #[trigger] outer@[g].members@[k] < firsts@.len(),
            double_views(out@) == wanted.take(g as int),
            forall|g: int|
                0 <= g < out@.len() ==> members_below((#[trigger] out@[g]).groups@, firsts@.len()),
            forall|g: int, h: int|
                0 <= g < out@.len() && 0 <= h < out@[g].groups@.len() ==> (
                #[trigger] out@[g].groups@[h]).members@.len() > 0,
        decreases outer@.len() - g,
    {
        let ghost before = out@;
        let h = &outer[g];
        assert(group_views(outer@)[g as int] == h@);
        let made = DoubleGroup { key: h.key.clone(), groups: regroup(seconds, &h.members) };
        assert(made@ == wanted[g as int]);
        out.push(made);
        assert(double_views(out@) =~= double_views(before).push(made@));
        g = g + 1;
        assert(double_views(out@) =~= wanted.take(g as int));
    }
    assert(wanted.take(outer@.len() as int) =~= wanted);
    out
}

// ── Numbered places ─────────────────────────────────────────────────

/// The positions that are assigned to a place, in order.
pub open spec fn assigned(places: Seq<usize>, place: usize) -> Seq<int>
    decreases places.len(),
{
    if places.len() == 0 {
        Seq::empty()
    } else if places.last() == place {
        assigned(places.drop_last(), place).push(places.len() - 1)
    } else {
        assigned(places.drop_last(), place)
    }
}

/// The positions that are assigned to a place.
pub fn assigned_to(places: &Vec<usize>, place: usize) -> (r: Vec<usize>)
    ensures
        r@.map_values(|i: usize| i as int) == assigned(places@, place),
{
    let mut out: Vec<usize> = Vec::new();
    let mut i: usize = 0;
    assert(places@.take(0) =~= Seq::<usize>::empty());
    assert(out@.map_values(|i: usize| i as int) =~= Seq::<int>::empty());
    while i < places.len()
        invariant
            i <= places@.len(),
            out@.map_values(|i: usize| i as int) == assigned(places@.take(i as int), place),
        decreases places@.len() - i,
    {
        assert(places@.take(i as int + 1).drop_last() =~= places@.take(i as int));
        assert(places@.take(i as int + 1).last() == places@[i as int]);
        if places[i] == place {
            let ghost before = out@;
            out.push(i);
            assert(out@.map_values(|i: usize| i as int) =~= before.map_values(
                |i: usize| i as int,
            ).push(i as int));
        }
        i = i + 1;
    }
    assert(places@.take(places@.len() as int) =~= places@);
    out
}

/// The positions of a place ascend, are assigned to it, and are all that are.
pub proof fn places_are_what_is_assigned(places: Seq<usize>, place: usize)
    ensures
        forall|k: int|
            0 <= k < assigned(places, place).len() ==> {
                &&& 0 <= #[trigger] assigned(places, place)[k] < places.len()
                &&& places[assigned(places, place)[k]] == place
            },
        forall|j: int, k: int|
            0 <= j < k < assigned(places, place).len() ==> (#[trigger] assigned(places, place)[j])
                < (#[trigger] assigned(places, place)[k]),
        forall|i: int|
            0 <= i < places.len() && #[trigger] places[i] == place ==> assigned(
                places,
                place,
            ).contains(i),
    decreases places.len(),
{
    if places.len() > 0 {
        let init = places.drop_last();
        places_are_what_is_assigned(init, place);
        let p = assigned(init, place);
        assert forall|i: int| 0 <= i < places.len() && #[trigger] places[i] == place implies assigned(
            places,
            place,
        ).contains(i) by {
            if i < places.len() - 1 {
                assert(init[i] == place);
                let k = choose|k: int| 0 <= k < p.len() && p[k] == i;
                assert(assigned(places, place)[k] == i);
            } else {
                assert(assigned(places, place)[assigned(places, place).len() - 1] == i);
            }
        }
    }
}

/// A group holds the places of its key, each of them once and in order; the
/// groups come in the order of their keys, and each key has one.
pub proof fn groups_gather_their_key(keys: Seq<Seq<char>>, g: int, h: int, i: int)
    requires
        0 <= g < grouping(keys).len(),
        0 <= h < grouping(keys).len(),
    ensures
        grouping(keys)[g].1.len() > 0,
        grouping(keys)[g].1.contains(i) <==> 0 <= i < keys.len() && keys[i] == grouping(keys)[g].0,
        forall|j: int, k: int|
            0 <= j < k < grouping(keys)[g].1.len() ==> (#[trigger] grouping(keys)[g].1[j]) < (
            #[trigger] grouping(keys)[g].1[k]),
        g < h ==> text_less(grouping(keys)[g].0, grouping(keys)[h].0),
        0 <= i < keys.len() ==> exists|n: int|
            0 <= n < grouping(keys).len() && (#[trigger] grouping(keys)[n]).0 == keys[i],
{
    grouping_exists(keys);
    let group = grouping(keys)[g];
    positions_sound(keys, group.0);
    let at = choose|at: int| 0 <= at < keys.len() && keys[at] == group.0;
    assert(positions(keys, group.0).contains(at));
    if group.1.contains(i) {
        let k = choose|k: int| 0 <= k < group.1.len() && group.1[k] == i;
        assert(positions(keys, group.0)[k] == i);
    }
    if g < h {
        assert(ascending(grouping(keys)));
    }
    if 0 <= i < keys.len() {
        let key = keys[i];
        let n = choose|n: int| 0 <= n < grouping(keys).len() && (#[trigger] grouping(keys)[n]).0 == key;
        assert(grouping(keys)[n].0 == key);
    }
}

/// Grouped by two keys, an item stands in the group of its first key and there in
/// that of its second, and in no other.
pub proof fn items_stand_under_both_keys(
    firsts: Seq<Seq<char>>,
    seconds: Seq<Seq<char>>,
    a: int,
    b: int,
    i: int,
)
    requires
        firsts.len() == seconds.len(),
        0 <= a < grouping2(firsts, seconds).len(),
        0 <= b < grouping2(firsts, seconds)[a].1.len(),
    ensures
        grouping2(firsts, seconds)[a].1[b].1.contains(i) <==> 0 <= i < firsts.len() && firsts[i]
            == grouping2(firsts, seconds)[a].0 && seconds[i] == grouping2(firsts, seconds)[a].1[b].0,
        grouping2(firsts, seconds)[a].1[b].1.len() > 0,
        forall|j: int, k: int|
            0 <= j < k < grouping2(firsts, seconds)[a].1[b].1.len() ==> (#[trigger] grouping2(
                firsts,
                seconds,
            )[a].1[b].1[j]) < (#[trigger] grouping2(firsts, seconds)[a].1[b].1[k]),
{
    let members = grouping(firsts)[a].1;
    let inner = picked(seconds, members);
    let places = grouping(inner)[b].1;
    groups_gather_their_key(firsts, a, a, i);
    let shown = grouping2(firsts, seconds)[a].1[b].1;
    assert(shown == picked(members, places));
    groups_gather_their_key(inner, b, b, 0);
    if shown.contains(i) {
        let k = choose|k: int| 0 <= k < shown.len() && shown[k] == i;
        groups_gather_their_key(inner, b, b, places[k]);
        assert(places.contains(places[k]));
        assert(members[places[k]] == i);
        assert(members.contains(i));
    }
    if 0 <= i < firsts.len() && firsts[i] == grouping2(firsts, seconds)[a].0 && seconds[i]
        == grouping2(firsts, seconds)[a].1[b].0 {
        assert(members.contains(i));
        let m = choose|m: int| 0 <= m < members.len() && members[m] == i;
        assert(inner[m] == seconds[i]);
        groups_gather_their_key(inner, b, b, m);
        let k = choose|k: int| 0 <= k < places.len() && places[k] == m;
        assert(shown[k] == i);
    }
    assert forall|j: int, k: int| 0 <= j < k < shown.len() implies (#[trigger] shown[j]) < (
    #[trigger] shown[k]) by {
        groups_gather_their_key(inner, b, b, places[j]);
        groups_gather_their_key(inner, b, b, places[k]);
        assert(places.contains(places[j]) && places.contains(places[k]));
        assert(places[j] < places[k]);
        assert(members[places[j]] < members[places[k]]);
    }
}

/// Grouped by two keys, every item has its group.
pub proof fn every_item_has_a_group(firsts: Seq<Seq<char>>, seconds: Seq<Seq<char>>, i: int) -> (at: (
    int,
    int,
))
    requires
        firsts.len() == seconds.len(),
        0 <= i < firsts.len(),
    ensures
        0 <= at.0 < grouping2(firsts, seconds).len(),
        0 <= at.1 < grouping2(firsts, seconds)[at.0].1.len(),
        grouping2(firsts, seconds)[at.0].0 == firsts[i],
        grouping2(firsts, seconds)[at.0].1[at.1].0 == seconds[i],
        grouping2(firsts, seconds)[at.0].1[at.1].1.contains(i),
{
    grouping_exists(firsts);
    let a = choose|a: int| 0 <= a < grouping(firsts).len() && (#[trigger] grouping(firsts)[a]).0 == firsts[i];
    let members = grouping(firsts)[a].1;
    groups_gather_their_key(firsts, a, a, i);
    let m = choose|m: int| 0 <= m < members.len() && members[m] == i;
    let inner = picked(seconds, members);
    grouping_exists(inner);
    assert(inner[m] == seconds[i]);
    let b = choose|b: int| 0 <= b < grouping(inner).len() && (#[trigger] grouping(inner)[b]).0 == inner[m];
    assert(grouping2(firsts, seconds)[a].1[b].0 == seconds[i]);
    items_stand_under_both_keys(firsts, seconds, a, b, i);
    (a, b)
}

} // verus!
