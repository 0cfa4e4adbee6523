//! Values under names.

use crate::text::same;
use vstd::prelude::*;

verus! {

/// Values under names, in the order in which they were last set.
#[derive(Debug)]
pub struct TextMap<V> {
    entries: Vec<(String, V)>,
}

/// The last position at which a name stands, negative where it does not.
spec fn place_of<V>(entries: Seq<(String, V)>, name: Seq<char>) -> int
    decreases entries.len(),
{
    if entries.len() == 0 {
        -1
    } else if entries.last().0@ == name {
        entries.len() - 1
    } else {
        place_of(entries.drop_last(), name)
    }
}

proof fn place_is_in_range<V>(entries: Seq<(String, V)>, name: Seq<char>)
    ensures
        -1 <= place_of(entries, name) < entries.len(),
    decreases entries.len(),
{
    if entries.len() > 0 {
        place_is_in_range(entries.drop_last(), name);
    }
}

spec fn contents<V>(entries: Seq<(String, V)>) -> Map<Seq<char>, V> {
    Map::new(
        |n: Seq<char>| place_of(entries, n) >= 0,
        |n: Seq<char>| entries[place_of(entries, n)].1,
    )
}

proof fn contents_after_push<V>(entries: Seq<(String, V)>, entry: (String, V))
    ensures
        contents(entries.push(entry)) == contents(entries).insert(entry.0@, entry.1),
{
    let after = entries.push(entry);
    assert(after.drop_last() =~= entries);
    assert forall|n: Seq<char>| n != entry.0@ implies place_of(after, n) == place_of(
        entries,
        n,
    ) by {}
    assert forall|n: Seq<char>| -1 <= #[trigger] place_of(entries, n) < entries.len() by {
        place_is_in_range(entries, n);
    }
    assert(contents(after) =~= contents(entries).insert(entry.0@, entry.1));
}

impl<V> View for TextMap<V> {
    type V = Map<Seq<char>, V>;

    closed spec fn view(&self) -> Map<Seq<char>, V> {
        contents(self.entries@)
    }
}

impl<V> TextMap<V> {
    pub fn new() -> (r: TextMap<V>)
        ensures
            r@ == Map::<Seq<char>, V>::empty(),
    {
        let r = TextMap { entries: Vec::new() };
        assert(contents(r.entries@) =~= Map::<Seq<char>, V>::empty());
        r
    }

    pub fn get(&self, name: &str) -> (r: Option<&V>)
        ensures
            match r {
                Some(v) => self@.dom().contains(name@) && self@[name@] == *v,
                None => !self@.dom().contains(name@),
            },
    {
        let mut n: usize = self.entries.len();
        assert(self.entries@.take(n as int) =~= self.entries@);
        while n > 0
            invariant
                n <= self.entries@.len(),
                place_of(self.entries@, name@) == place_of(self.entries@.take(n as int), name@),
            decreases n,
        {
            assert(self.entries@.take(n as int).drop_last() =~= self.entries@.take(n as int - 1));
            if same(self.entries[n - 1].0.as_str(), name) {
                return Some(&self.entries[n - 1].1);
            }
            n = n - 1;
        }
        None
    }

    /// Takes a name out, with its value.
    pub fn remove(&mut self, name: &str) -> (r: Option<V>)
        ensures
            final(self)@ == old(self)@.remove(name@),
            match r {
                Some(v) => old(self)@.dom().contains(name@) && old(self)@[name@] == v,
                None => !old(self)@.dom().contains(name@),
            },
    {
        let ghost all = self.entries@;
        let mut left: Vec<(String, V)> = Vec::new();
        std::mem::swap(&mut left, &mut self.entries);
        let mut kept: Vec<(String, V)> = Vec::new();
        let mut found: Option<V> = None;
        assert(contents(kept@) =~= contents(all.take(0)).remove(name@));
        for entry in it: left
            invariant
                it.seq() == all,
                contents(kept@) == contents(all.take(it.index())).remove(name@),
                match found {
                    Some(v) => {
                        &&& contents(all.take(it.index())).dom().contains(name@)
                        &&& contents(all.take(it.index()))[name@] == v
                    },
                    None => !contents(all.take(it.index())).dom().contains(name@),
                },
        {
            proof {
                contents_after_push(all.take(it.index()), entry);
                assert(all.take(it.index()).push(entry) =~= all.take(it.index() + 1));
                contents_after_push(kept@, entry);
            }
            let ghost before = contents(all.take(it.index()));
            if same(entry.0.as_str(), name) {
                let (_, v) = entry;
                found = Some(v);
                assert(before.insert(name@, v).remove(name@) =~= before.remove(name@));
            } else {
                kept.push(entry);
                assert(before.remove(name@).insert(entry.0@, entry.1) =~= before.insert(
                    entry.0@,
                    entry.1,
                ).remove(name@));
            }
        }
        assert(all.take(all.len() as int) =~= all);
        self.entries = kept;
        found
    }

    /// Sets a name to a value.
    pub fn insert(&mut self, name: String, value: V)
        ensures
            final(self)@ == old(self)@.insert(name@, value),
    {
        self.remove(name.as_str());
        let ghost entries = self.entries@;
        let ghost n = name@;
        proof {
            contents_after_push(entries, (name, value));
            assert(old(self)@.remove(n).insert(n, value) =~= old(self)@.insert(n, value));
        }
        self.entries.push((name, value));
    }
}

} // verus!
