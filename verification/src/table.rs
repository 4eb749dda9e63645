//! A hash table from strings to values that can also be walked in order.

use vstd::hash_map::StringHashMap;
use vstd::prelude::*;

verus! {

/// A map from strings to values. The entries stand in a vector; an index
/// finds the place of each key.
pub struct Table<V> {
    entries: Vec<(String, V)>,
    index: StringHashMap<usize>,
}

impl<V> View for Table<V> {
    type V = Map<Seq<char>, V>;

    closed spec fn view(&self) -> Map<Seq<char>, V> {
        Map::new(
            |k: Seq<char>| self.index@.contains_key(k),
            |k: Seq<char>| self.entries@[self.index@[k] as int].1,
        )
    }
}

impl<V> Table<V> {
    /// Every entry is indexed at its place, and the index holds nothing else.
    pub closed spec fn wf(&self) -> bool {
        &&& forall|i: int|
            0 <= i < self.entries@.len() ==> self.index@.contains_key(#[trigger] self.entries@[i].0@)
                && self.index@[self.entries@[i].0@] == i
        &&& forall|k: Seq<char>| #[trigger]
            self.index@.contains_key(k) ==> self.index@[k] < self.entries@.len()
                && self.entries@[self.index@[k] as int].0@ == k
    }

    /// The keys in the order in which the table is walked.
    pub closed spec fn order(&self) -> Seq<Seq<char>> {
        self.entries@.map_values(|e: (String, V)| e.0@)
    }

    /// Walking the table meets every key once and nothing else.
    pub proof fn lemma_order(&self)
        requires
            self.wf(),
        ensures
            self.order().no_duplicates(),
            forall|i: int| 0 <= i < self.order().len() ==> self@.contains_key(#[trigger] self.order()[i]),
            forall|k: Seq<char>| #[trigger] self@.contains_key(k) ==> self.order().contains(k),
            self@.dom() == self.order().to_set(),
            self@.dom().finite(),
            self@.dom().len() == self.order().len(),
    {
        let o = self.order();
        assert forall|i: int| 0 <= i < o.len() implies self@.contains_key(#[trigger] o[i]) by {
            assert(o[i] == self.entries@[i].0@);
        }
        assert forall|i: int, j: int| 0 <= i < o.len() && 0 <= j < o.len() && i != j implies o[i] != o[j] by {
            assert(o[i] == self.entries@[i].0@);
            assert(o[j] == self.entries@[j].0@);
        }
        assert forall|k: Seq<char>| #[trigger] self@.contains_key(k) implies o.contains(k) by {
            assert(o[self.index@[k] as int] == k);
        }
        assert(self@.dom() =~= o.to_set());
        o.unique_seq_to_set();
        vstd::seq_lib::seq_to_set_is_finite(o);
    }

    /// An empty table.
    pub fn new() -> (r: Table<V>)
        ensures
            r.wf(),
            r@ == Map::<Seq<char>, V>::empty(),
    {
        let r = Table { entries: Vec::new(), index: StringHashMap::new() };
        assert(r@ =~= Map::<Seq<char>, V>::empty());
        r
    }

    /// The number of keys.
    pub fn len(&self) -> (r: usize)
        requires
            self.wf(),
        ensures
            self@.dom().finite(),
            r == self@.dom().len(),
            r == self.order().len(),
    {
        proof {
            self.lemma_order();
        }
        self.entries.len()
    }

    /// The value of a key.
    pub fn get(&self, key: &str) -> (r: Option<&V>)
        requires
            self.wf(),
        ensures
            r is Some <==> self@.contains_key(key@),
            r matches Some(v) ==> *v == self@[key@],
    {
        match self.index.get(key) {
            Some(i) => {
                let i: usize = *i;
                Some(&self.entries[i].1)
            },
            None => None,
        }
    }

    /// Whether a key is there.
    pub fn contains(&self, key: &str) -> (r: bool)
        ensures
            r == self@.contains_key(key@),
    {
        self.index.contains_key(key)
    }

    /// The key at a place in the walking order.
    pub fn key_at(&self, i: usize) -> (r: &String)
        requires
            self.wf(),
            i < self.order().len(),
        ensures
            r@ == self.order()[i as int],
    {
        &self.entries[i].0
    }

    /// The value at a place in the walking order.
    pub fn value_at(&self, i: usize) -> (r: &V)
        requires
            self.wf(),
            i < self.order().len(),
        ensures
            *r == self@[self.order()[i as int]],
    {
        assert(self.order()[i as int] == self.entries@[i as int].0@);
        &self.entries[i].1
    }

    /// Gives a key a value, in place of the one that it had.
    pub fn insert(&mut self, key: String, value: V)
        requires
            old(self).wf(),
        ensures
            final(self).wf(),
            final(self)@ == old(self)@.insert(key@, value),
    {
        let ghost k = key@;
        let found: Option<usize> = match self.index.get(key.as_str()) {
            Some(i) => Some(*i),
            None => None,
        };
        match found {
            Some(i) => {
                let ghost before = self.entries@;
                self.entries.set(i, (key, value));
                assert(forall|j: int| 0 <= j < before.len() ==> self.entries@[j].0@ == #[trigger] before[j].0@);
                assert(self@ =~= old(self)@.insert(k, value));
            },
            None => {
                let i: usize = self.entries.len();
                let name = key.clone();
                let ghost before = self.entries@;
                self.entries.push((key, value));
                self.index.insert(name, i);
                assert forall|j: int| 0 <= j < self.entries@.len() implies self.index@.contains_key(
                    #[trigger] self.entries@[j].0@,
                ) && self.index@[self.entries@[j].0@] == j by {
                    if j < before.len() {
                        assert(self.entries@[j] == before[j]);
                        assert(old(self).index@.contains_key(before[j].0@));
                    }
                }
                assert(self.wf());
                assert(self@ =~= old(self)@.insert(k, value));
            },
        }
    }

    /// Takes a key out of the table and returns the value that it had.
    pub fn remove(&mut self, key: &str) -> (r: Option<V>)
        requires
            old(self).wf(),
        ensures
            final(self).wf(),
            final(self)@ == old(self)@.remove(key@),
            r is Some <==> old(self)@.contains_key(key@),
            r matches Some(v) ==> v == old(self)@[key@],
    {
        let found: Option<usize> = match self.index.get(key) {
            Some(i) => Some(*i),
            None => None,
        };
        match found {
            None => {
                assert(self@ =~= old(self)@.remove(key@));
                None
            },
            Some(i) => {
                let ghost before = self.entries@;
                let last: usize = self.entries.len() - 1;
                let moved: String = self.entries[last].0.clone();
                assert(before[i as int].0@ == key@);
                let (_, value) = self.entries.swap_remove(i);
                if i != last {
                    self.index.insert(moved, i);
                }
                self.index.remove(key);
                let ghost now = self.entries@;
                assert(forall|j: int| 0 <= j < now.len() ==> #[trigger] now[j] == (if j == i { before[last as int] } else { before[j] }));
                assert forall|j: int| 0 <= j < now.len() implies self.index@.contains_key(
                    #[trigger] now[j].0@,
                ) && self.index@[now[j].0@] == j by {
                    let from = if j == i as int { last as int } else { j };
                    assert(now[j] == before[from]);
                    assert(old(self).index@.contains_key(before[from].0@));
                    assert(old(self).index@[before[from].0@] == from);
                    assert(old(self).index@[before[i as int].0@] == i);
                    assert(old(self).index@.contains_key(before[last as int].0@));
                }
                assert forall|k: Seq<char>| #[trigger] self.index@.contains_key(k) implies self.index@[k]
                    < now.len() && now[self.index@[k] as int].0@ == k by {
                    assert(old(self).index@.contains_key(before[last as int].0@));
                    assert(k != key@);
                    if i != last && k == before[last as int].0@ {
                        assert(self.index@[k] == i);
                    } else {
                        assert(old(self).index@.contains_key(k));
                        assert(self.index@[k] == old(self).index@[k]);
                    }
                }
                assert(self.wf());
                assert(self@ =~= old(self)@.remove(key@)) by {
                    assert(old(self).index@.contains_key(before[last as int].0@));
                }
                Some(value)
            },
        }
    }
}

impl Clone for Table<String> {
    fn clone(&self) -> (r: Table<String>)
        ensures
            self.wf() ==> r.wf() && r@ == self@ && r.order() == self.order(),
    {
        let mut entries: Vec<(String, String)> = Vec::new();
        let mut index: StringHashMap<usize> = StringHashMap::new();
        for i in 0..self.entries.len()
            invariant
                entries@.len() == i,
                forall|j: int| 0 <= j < i ==> #[trigger] entries@[j] == self.entries@[j],
                forall|j: int|
                    0 <= j < i ==> index@.contains_key(#[trigger] self.entries@[j].0@) && (self.wf()
                        ==> index@[self.entries@[j].0@] == j),
                forall|k: Seq<char>| #[trigger]
                    index@.contains_key(k) ==> index@[k] < i && self.entries@[index@[k] as int].0@
                        == k,
        {
            let key = self.entries[i].0.clone();
            let value = self.entries[i].1.clone();
            index.insert(key.clone(), i);
            entries.push((key, value));
            assert(entries@[i as int] == self.entries@[i as int]);
        }
        assert(entries@ =~= self.entries@);
        let r = Table { entries, index };
        proof {
            if self.wf() {
                assert forall|k: Seq<char>| self.index@.contains_key(k) implies
                    #[trigger] r.index@.contains_key(k) && r.index@[k] == self.index@[k] by {
                    assert(self.entries@[self.index@[k] as int].0@ == k);
                }
                assert forall|k: Seq<char>| #[trigger] r.index@.contains_key(k) implies
                    self.index@.contains_key(k) by {
                    assert(self.entries@[r.index@[k] as int].0@ == k);
                }
                assert(r@ =~= self@);
            }
        }
        r
    }
}

} // verus!
