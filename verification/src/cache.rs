//! A cache of fixed capacity that drops what was used least recently.

use crate::text::same_text;
use vstd::prelude::*;

verus! {

/// A key of a cache: keys with the same view are the same key.
pub trait CacheKey: View + Sized {
    /// Whether two keys are the same.
    fn same_key(&self, other: &Self) -> (r: bool)
        ensures
            r == (self@ == other@),
    ;

    /// Another copy of the key.
    fn copy_key(&self) -> (r: Self)
        ensures
            r@ == self@,
    ;
}

impl CacheKey for String {
    fn same_key(&self, other: &String) -> (r: bool) {
        same_text(self, other)
    }

    fn copy_key(&self) -> (r: String) {
        self.clone()
    }
}

impl<'a> CacheKey for &'a str {
    fn same_key(&self, other: &&'a str) -> (r: bool) {
        same_text(self, other)
    }

    fn copy_key(&self) -> (r: &'a str) {
        *self
    }
}

impl CacheKey for i32 {
    fn same_key(&self, other: &i32) -> (r: bool) {
        *self == *other
    }

    fn copy_key(&self) -> (r: i32) {
        *self
    }
}

impl CacheKey for u64 {
    fn same_key(&self, other: &u64) -> (r: bool) {
        *self == *other
    }

    fn copy_key(&self) -> (r: u64) {
        *self
    }
}

impl CacheKey for usize {
    fn same_key(&self, other: &usize) -> (r: bool) {
        *self == *other
    }

    fn copy_key(&self) -> (r: usize) {
        *self
    }
}

// ── The order of use ────────────────────────────────────────────────────

/// The position of a key, or the length where it is not there.
pub open spec fn position<A, V>(s: Seq<(A, V)>, key: A) -> int
    decreases s.len(),
{
    if s.len() == 0 || s[0].0 == key {
        0
    } else {
        1 + position(s.skip(1), key)
    }
}

/// Whether a key is there.
pub open spec fn has_key<A, V>(s: Seq<(A, V)>, key: A) -> bool {
    position(s, key) < s.len()
}

/// The entries without that of `key`, in the same order.
pub open spec fn without<A, V>(s: Seq<(A, V)>, key: A) -> Seq<(A, V)> {
    if has_key(s, key) {
        s.remove(position(s, key))
    } else {
        s
    }
}

/// The entries with `key` set and used last: it stands first, and the entry
/// used least recently is dropped where there are more than `capacity`.
pub open spec fn with_entry<A, V>(s: Seq<(A, V)>, key: A, value: V, capacity: nat) -> Seq<(A, V)> {
    let t = seq![(key, value)] + without(s, key);
    if t.len() > capacity {
        t.drop_last()
    } else {
        t
    }
}

/// The entries after `key` was used: its entry stands first.
pub open spec fn used<A, V>(s: Seq<(A, V)>, key: A) -> Seq<(A, V)> {
    if has_key(s, key) {
        seq![s[position(s, key)]] + without(s, key)
    } else {
        s
    }
}

/// No key occurs twice.
pub open spec fn distinct_keys<A, V>(s: Seq<(A, V)>) -> bool {
    forall|i: int, j: int| 0 <= i < j < s.len() ==> (#[trigger] s[i]).0 != (#[trigger] s[j]).0
}

/// A key is found where nothing before it is the same.
pub proof fn lemma_position<A, V>(s: Seq<(A, V)>, key: A)
    ensures
        0 <= position(s, key) <= s.len(),
        has_key(s, key) ==> s[position(s, key)].0 == key,
        forall|i: int| 0 <= i < position(s, key) ==> (#[trigger] s[i]).0 != key,
    decreases s.len(),
{
    if s.len() > 0 && s[0].0 != key {
        lemma_position(s.skip(1), key);
        let p = position(s.skip(1), key);
        assert forall|i: int| 0 <= i < p + 1 implies (#[trigger] s[i]).0 != key by {
            if i > 0 {
                assert(s.skip(1)[i - 1] == s[i]);
            }
        }
    }
}

proof fn lemma_position_is<A, V>(s: Seq<(A, V)>, key: A, p: int)
    requires
        0 <= p <= s.len(),
        p < s.len() ==> s[p].0 == key,
        forall|i: int| 0 <= i < p ==> (#[trigger] s[i]).0 != key,
    ensures
        position(s, key) == p,
{
    lemma_position(s, key);
    let q = position(s, key);
    if q < p {
        assert(s[q].0 != key);
    } else if p < q {
        assert(s[p].0 != key);
    }
}

proof fn lemma_without<A, V>(s: Seq<(A, V)>, key: A)
    requires
        distinct_keys(s),
    ensures
        distinct_keys(without(s, key)),
        !has_key(without(s, key), key),
        forall|i: int| 0 <= i < without(s, key).len() ==> (#[trigger] without(s, key)[i]).0 != key,
{
    lemma_position(s, key);
    let p = position(s, key);
    let t = without(s, key);
    if has_key(s, key) {
        assert forall|i: int| 0 <= i < t.len() implies (#[trigger] t[i]).0 != key by {
            if i < p {
                assert(t[i] == s[i]);
            } else {
                assert(t[i] == s[i + 1]);
                assert(s[p].0 != s[i + 1].0);
            }
        }
        assert forall|i: int, j: int| 0 <= i < j < t.len() implies (#[trigger] t[i]).0 != (#[trigger] t[j]).0 by {
            let a = if i < p { i } else { i + 1 };
            let b = if j < p { j } else { j + 1 };
            assert(t[i] == s[a] && t[j] == s[b]);
            assert(s[a].0 != s[b].0);
        }
    } else {
        assert(p == s.len());
    }
    lemma_position_is(t, key, t.len() as int);
}

// ── The cache ───────────────────────────────────────────────────────────

/// A fixed-capacity LRU (Least Recently Used) cache.
///
/// Evicts the least recently used entry when capacity is exceeded. The entries
/// stand in the order of their use, the most recently used first.
pub struct LruCache<K, V> {
    max_size: usize,
    entries: Vec<(K, V)>,
}

impl<K: CacheKey, V> View for LruCache<K, V> {
    type V = Seq<(<K as View>::V, V)>;

    closed spec fn view(&self) -> Seq<(<K as View>::V, V)> {
        self.entries@.map_values(|e: (K, V)| (e.0@, e.1))
    }
}

impl<K: CacheKey, V: Clone> LruCache<K, V> {
    /// The largest number of entries.
    pub closed spec fn limit(&self) -> nat {
        self.max_size as nat
    }

    /// There is room for an entry, no more entries than room, and no key twice.
    pub open spec fn wf(&self) -> bool {
        &&& self.limit() > 0
        &&& self@.len() <= self.limit()
        &&& distinct_keys(self@)
    }

    /// Create a new LRU cache with the given maximum capacity.
    pub fn new(max_size: usize) -> (r: LruCache<K, V>)
        requires
            max_size > 0,
        ensures
            r.wf(),
            r@ == Seq::<(<K as View>::V, V)>::empty(),
            r.limit() == max_size,
    {
        let r = LruCache { max_size, entries: Vec::new() };
        assert(r@ =~= Seq::<(<K as View>::V, V)>::empty());
        r
    }

    fn find(&self, key: &K) -> (r: Option<usize>)
        ensures
            r is Some <==> has_key(self@, key@),
            r matches Some(i) ==> i == position(self@, key@) && i < self@.len(),
    {
        let mut i: usize = 0;
        while i < self.entries.len()
            invariant
                i <= self.entries@.len(),
                forall|j: int| 0 <= j < i ==> (#[trigger] self@[j]).0 != key@,
            decreases self.entries@.len() - i,
        {
            if self.entries[i].0.same_key(key) {
                assert(self@[i as int].0 == key@);
                proof {
                    lemma_position_is(self@, key@, i as int);
                }
                return Some(i);
            }
            assert(self@[i as int].0 == self.entries@[i as int].0@);
            i += 1;
        }
        proof {
            lemma_position_is(self@, key@, i as int);
        }
        None
    }

    fn take(&mut self, key: &K) -> (r: Option<(K, V)>)
        requires
            old(self).wf(),
        ensures
            final(self).wf(),
            final(self).limit() == old(self).limit(),
            final(self)@ == without(old(self)@, key@),
            r is Some <==> has_key(old(self)@, key@),
            r matches Some(e) ==> (e.0@, e.1) == old(self)@[position(old(self)@, key@)],
    {
        proof {
            lemma_without(self@, key@);
        }
        match self.find(key) {
            Some(i) => {
                let e = self.entries.remove(i);
                assert(self@ =~= old(self)@.remove(i as int));
                Some(e)
            },
            None => None,
        }
    }

    fn put_first(&mut self, entry: (K, V))
        requires
            old(self).limit() > 0,
            distinct_keys(old(self)@),
            !has_key(old(self)@, entry.0@),
        ensures
            final(self)@ == seq![(entry.0@, entry.1)] + old(self)@,
            final(self).limit() == old(self).limit(),
            distinct_keys(final(self)@),
    {
        let ghost key = entry.0@;
        let ghost value = entry.1;
        let ghost before = self@;
        self.entries.insert(0, entry);
        assert(self@ =~= seq![(key, value)] + before);
        proof {
            lemma_position(before, key);
            assert forall|i: int, j: int| 0 <= i < j < self@.len() implies (#[trigger] self@[i]).0 != (
            #[trigger] self@[j]).0 by {
                assert(self@[j] == before[j - 1]);
                if i > 0 {
                    assert(self@[i] == before[i - 1]);
                }
            }
        }
    }

    /// Insert a key-value pair.  If the key already exists its value is updated
    /// and the entry is promoted to most-recently-used.  If the cache
    /// exceeds capacity after insertion the least recently used entry is
    /// evicted.
    pub fn insert(&mut self, key: K, value: V)
        requires
            old(self).wf(),
        ensures
            final(self).wf(),
            final(self).limit() == old(self).limit(),
            final(self)@ == with_entry(old(self)@, key@, value, old(self).limit()),
    {
        let _ = self.insert_with_eviction(key, value);
    }

    /// Insert a key-value pair and return the evicted value (if any).
    ///
    /// If the cache was at capacity and an entry was evicted, its value is
    /// returned.  If the key already existed (update path) or no eviction
    /// was needed, `None` is returned.
    pub fn insert_with_eviction(&mut self, key: K, value: V) -> (r: Option<V>)
        requires
            old(self).wf(),
        ensures
            final(self).wf(),
            final(self).limit() == old(self).limit(),
            final(self)@ == with_entry(old(self)@, key@, value, old(self).limit()),
            r is Some <==> !has_key(old(self)@, key@) && old(self)@.len() == old(self).limit(),
            r matches Some(v) ==> v == old(self)@.last().1,
            final(self)@.len() > 0,
            final(self)@[0] == (key@, value),
            final(self)@.skip(1) == ({
                let others = old(self)@.filter(|e: (<K as View>::V, V)| e.0 != key@);
                if others.len() < old(self).limit() { others } else { others.drop_last() }
            }),
    {
        proof {
            law_insert_moves_only_that_key(self@, key@, value, self.limit());
        }
        proof {
            lemma_without(self@, key@);
            lemma_position(self@, key@);
        }
        let ghost t = seq![(key@, value)] + without(self@, key@);
        let _ = self.take(&key);
        self.put_first((key, value));
        assert(self@ == t);
        if self.entries.len() > self.max_size {
            let dropped = self.entries.pop();
            assert(self@ =~= t.drop_last());
            assert(t.last() == old(self)@.last());
            match dropped {
                Some(e) => Some(e.1),
                None => None,
            }
        } else {
            None
        }
    }

    /// Fetch a value by key.  Returns a clone of the value, or `None` if not
    /// found.  Marks the key as most recently used on hit.
    pub fn fetch(&mut self, key: &K) -> (r: Option<V>)
        requires
            old(self).wf(),
        ensures
            final(self).wf(),
            final(self).limit() == old(self).limit(),
            final(self)@ == used(old(self)@, key@),
            r is Some <==> has_key(old(self)@, key@),
            r matches Some(v) ==> cloned(old(self)@[position(old(self)@, key@)].1, v),
            final(self)@.len() == old(self)@.len(),
            final(self)@.filter(|e: (<K as View>::V, V)| e.0 != key@) == old(self)@.filter(
                |e: (<K as View>::V, V)| e.0 != key@,
            ),
            has_key(old(self)@, key@) ==> final(self)@[0].0 == key@,
            forall|i: int|
                0 <= i < old(self)@.len() && (#[trigger] old(self)@[i]).0 == key@ ==> (r matches Some(v)
                    && cloned(old(self)@[i].1, v)),
    {
        proof {
            lemma_position(self@, key@);
            assert forall|i: int| 0 <= i < self@.len() && (#[trigger] self@[i]).0 == key@ implies i
                == position(self@, key@) by {
                lemma_distinct_position(self@, key@, i);
            }
            law_use_moves_only_that_key(self@, key@);
        }
        match self.find(key) {
            Some(i) => {
                let value = self.entries[i].1.clone();
                self.touch(key);
                Some(value)
            },
            None => None,
        }
    }

    /// Check whether a key exists in the cache **without** touching it.
    pub fn contains(&self, key: &K) -> (r: bool)
        ensures
            r == has_key(self@, key@),
    {
        match self.find(key) {
            Some(_) => true,
            None => false,
        }
    }

    /// Remove a key from the cache.  Returns the removed value if it existed.
    pub fn remove(&mut self, key: &K) -> (r: Option<V>)
        requires
            old(self).wf(),
        ensures
            final(self).wf(),
            final(self).limit() == old(self).limit(),
            final(self)@ == without(old(self)@, key@),
            r is Some <==> has_key(old(self)@, key@),
            r matches Some(v) ==> v == old(self)@[position(old(self)@, key@)].1,
    {
        match self.take(key) {
            Some(e) => Some(e.1),
            None => None,
        }
    }

    /// Touch a key (mark as most recently used) without fetching.
    ///
    /// Does nothing if the key is not present.
    pub fn touch(&mut self, key: &K)
        requires
            old(self).wf(),
        ensures
            final(self).wf(),
            final(self).limit() == old(self).limit(),
            final(self)@ == used(old(self)@, key@),
            final(self)@.len() == old(self)@.len(),
            final(self)@.filter(|e: (<K as View>::V, V)| e.0 != key@) == old(self)@.filter(
                |e: (<K as View>::V, V)| e.0 != key@,
            ),
            has_key(old(self)@, key@) ==> final(self)@[0].0 == key@,
    {
        proof {
            law_use_moves_only_that_key(self@, key@);
            lemma_without(self@, key@);
            lemma_position(self@, key@);
        }
        match self.take(key) {
            Some(e) => {
                self.put_first(e);
            },
            None => {},
        }
    }

    /// Return the current number of entries.
    pub fn len(&self) -> (r: usize)
        ensures
            r == self@.len(),
    {
        self.entries.len()
    }

    /// Return `true` if the cache is empty.
    pub fn is_empty(&self) -> (r: bool)
        ensures
            r == (self@.len() == 0),
    {
        self.entries.len() == 0
    }

    /// Return the maximum capacity.
    pub fn capacity(&self) -> (r: usize)
        ensures
            r == self.limit(),
    {
        self.max_size
    }

    /// Clear all entries.
    pub fn clear(&mut self)
        requires
            old(self).wf(),
        ensures
            final(self).wf(),
            final(self).limit() == old(self).limit(),
            final(self)@.len() == 0,
    {
        self.entries.clear();
    }

    /// Return all keys in LRU order (most recently used first).
    pub fn keys_lru(&self) -> (r: Vec<K>)
        ensures
            r@.len() == self@.len(),
            forall|i: int| 0 <= i < r@.len() ==> (#[trigger] r@[i])@ == self@[i].0,
    {
        let mut out: Vec<K> = Vec::new();
        for i in 0..self.entries.len()
            invariant
                out@.len() == i,
                forall|j: int| 0 <= j < i ==> (#[trigger] out@[j])@ == self@[j].0,
        {
            out.push(self.entries[i].0.copy_key());
        }
        out
    }
}

// ── Laws ────────────────────────────────────────────────────────────────

/// An inserted key stands first with its value, whatever is dropped.
pub proof fn law_inserted_is_most_recent<A, V>(s: Seq<(A, V)>, key: A, value: V, capacity: nat)
    requires
        capacity > 0,
    ensures
        with_entry(s, key, value, capacity).len() > 0,
        with_entry(s, key, value, capacity)[0] == (key, value),
        has_key(with_entry(s, key, value, capacity), key),
{
    let t = with_entry(s, key, value, capacity);
    lemma_position_is(t, key, 0);
}

/// Inserting into a full cache drops the key that was used least recently, and
/// no other.
pub proof fn law_evicts_least_recent<A, V>(s: Seq<(A, V)>, key: A, value: V, capacity: nat)
    requires
        capacity > 0,
        s.len() == capacity,
        distinct_keys(s),
        !has_key(s, key),
    ensures
        with_entry(s, key, value, capacity) == seq![(key, value)] + s.drop_last(),
        !has_key(with_entry(s, key, value, capacity), s.last().0),
        with_entry(s, key, value, capacity).len() == capacity,
{
    let t = with_entry(s, key, value, capacity);
    let k = s.last().0;
    assert(t =~= seq![(key, value)] + s.drop_last());
    lemma_position(s, key);
    assert forall|i: int| 0 <= i < t.len() implies (#[trigger] t[i]).0 != k by {
        if i > 0 {
            assert(t[i] == s[i - 1]);
        } else {
            assert(s[s.len() - 1].0 != key);
        }
    }
    lemma_position_is(t, k, t.len() as int);
}

/// Setting a key that is there drops nothing.
pub proof fn law_update_evicts_nothing<A, V>(s: Seq<(A, V)>, key: A, value: V, capacity: nat)
    requires
        s.len() <= capacity,
        has_key(s, key),
    ensures
        with_entry(s, key, value, capacity).len() == s.len(),
{
    lemma_position(s, key);
}

/// Using a key keeps every entry and puts that of the key first.
pub proof fn law_use_keeps_entries<A, V>(s: Seq<(A, V)>, key: A, e: (A, V))
    ensures
        used(s, key).len() == s.len(),
        used(s, key).contains(e) == s.contains(e),
        has_key(s, key) ==> used(s, key)[0].0 == key,
{
    lemma_position(s, key);
    let p = position(s, key);
    let t = used(s, key);
    if has_key(s, key) {
        if s.contains(e) {
            let i = choose|i: int| 0 <= i < s.len() && s[i] == e;
            if i == p {
                assert(t[0] == e);
            } else if i < p {
                assert(t[i + 1] == e);
            } else {
                assert(t[i] == e);
            }
        }
        if t.contains(e) {
            let i = choose|i: int| 0 <= i < t.len() && t[i] == e;
            if i == 0 {
                assert(s[p] == e);
            } else if i - 1 < p {
                assert(s[i - 1] == e);
            } else {
                assert(s[i] == e);
            }
        }
    }
}

/// A key that was used is not the one that the next insertion drops, unless
/// there is room for one entry only.
pub proof fn law_used_key_survives<A, V>(s: Seq<(A, V)>, key: A, other: A, value: V, capacity: nat)
    requires
        capacity > 1,
        has_key(s, key),
        key != other,
    ensures
        has_key(with_entry(used(s, key), other, value, capacity), key),
{
    let u = used(s, key);
    lemma_position(s, key);
    lemma_position(u, other);
    let w = without(u, other);
    assert(u[0].0 == key);
    assert(w[0] == u[0]);
    let t = with_entry(u, other, value, capacity);
    assert(t[1] == w[0]);
    lemma_position_is(t, key, 1);
}

proof fn lemma_filter_all<T>(s: Seq<T>, p: spec_fn(T) -> bool)
    requires
        forall|i: int| 0 <= i < s.len() ==> p(#[trigger] s[i]),
    ensures
        s.filter(p) == s,
    decreases s.len(),
{
    reveal(Seq::filter);
    if s.len() > 0 {
        let before = s.drop_last();
        assert forall|i: int| 0 <= i < before.len() implies p(#[trigger] before[i]) by {
            assert(before[i] == s[i]);
        }
        lemma_filter_all(before, p);
        assert(p(s[s.len() - 1]));
        assert(before.push(s.last()) =~= s);
    }
}

proof fn lemma_filter_without<A, V>(s: Seq<(A, V)>, key: A)
    requires
        distinct_keys(s),
    ensures
        s.filter(|e: (A, V)| e.0 != key) == without(s, key),
    decreases s.len(),
{
    reveal(Seq::filter);
    let p = |e: (A, V)| e.0 != key;
    lemma_without(s, key);
    lemma_position(s, key);
    if s.len() > 0 {
        let before = s.drop_last();
        let last = s.last();
        assert(distinct_keys(before)) by {
            assert forall|i: int, j: int| 0 <= i < j < before.len() implies (#[trigger] before[i]).0 != (
            #[trigger] before[j]).0 by {
                assert(s[i].0 != s[j].0);
            }
        }
        lemma_filter_without(before, key);
        lemma_position(before, key);
        if last.0 == key {
            assert forall|i: int| 0 <= i < before.len() implies (#[trigger] before[i]).0 != key by {
                assert(s[i].0 != s[s.len() - 1].0);
            }
            lemma_position_is(before, key, before.len() as int);
            lemma_position_is(s, key, s.len() - 1);
            assert(without(s, key) =~= before);
        } else if has_key(s, key) {
            let q = position(s, key);
            assert(s[q].0 == key);
            assert forall|i: int| 0 <= i < q implies (#[trigger] before[i]).0 != key by {
                assert(s[i].0 != key);
            }
            lemma_position_is(before, key, q);
            assert(without(s, key) =~= without(before, key).push(last));
        } else {
            assert forall|i: int| 0 <= i < before.len() implies (#[trigger] before[i]).0 != key by {
                assert(s[i].0 != key);
            }
            lemma_position_is(before, key, before.len() as int);
            assert(without(s, key) =~= without(before, key).push(last));
        }
    }
}

proof fn lemma_distinct_position<A, V>(s: Seq<(A, V)>, key: A, i: int)
    requires
        distinct_keys(s),
        0 <= i < s.len(),
        s[i].0 == key,
    ensures
        position(s, key) == i,
{
    assert forall|j: int| 0 <= j < i implies (#[trigger] s[j]).0 != key by {
        assert(s[j].0 != s[i].0);
    }
    lemma_position_is(s, key, i);
}

/// Using a key moves its entry to the front and no other one: the entries of all
/// other keys stand in the same order as before. A key that is not there moves
/// nothing.
pub proof fn law_use_moves_only_that_key<A, V>(s: Seq<(A, V)>, key: A)
    requires
        distinct_keys(s),
    ensures
        used(s, key).len() == s.len(),
        used(s, key).filter(|e: (A, V)| e.0 != key) == s.filter(|e: (A, V)| e.0 != key),
        has_key(s, key) ==> used(s, key)[0].0 == key && s.contains(used(s, key)[0]),
        (forall|i: int| 0 <= i < s.len() ==> (#[trigger] s[i]).0 != key) ==> used(s, key) == s,
{
    lemma_position(s, key);
    lemma_without(s, key);
    lemma_filter_without(s, key);
    let p = |e: (A, V)| e.0 != key;
    if has_key(s, key) {
        let first = seq![s[position(s, key)]];
        let rest = without(s, key);
        Seq::filter_distributes_over_add(first, rest, p);
        lemma_filter_all(rest, p);
        assert(first.filter(p) =~= Seq::empty()) by {
            reveal(Seq::filter);
            assert(first.drop_last() =~= Seq::empty());
            assert(!p(first.last()));
        }
        assert(Seq::<(A, V)>::empty() + rest =~= rest);
        assert(s[position(s, key)] == used(s, key)[0]);
    }
}

/// Any two other keys stand in the same order of use after a key was used as
/// before.
pub proof fn law_use_keeps_order<A, V>(s: Seq<(A, V)>, key: A, i: int, j: int)
    requires
        distinct_keys(s),
        0 <= i < j < s.len(),
        s[i].0 != key,
        s[j].0 != key,
    ensures
        exists|a: int, b: int|
            0 <= a < b < used(s, key).len() && #[trigger] used(s, key)[a] == s[i]
                && #[trigger] used(s, key)[b] == s[j],
{
    lemma_position(s, key);
    let p = position(s, key);
    let t = used(s, key);
    if has_key(s, key) {
        let a = if i < p { i + 1 } else { i };
        let b = if j < p { j + 1 } else { j };
        assert(t[a] == s[i] && t[b] == s[j]);
    } else {
        assert(t[i] == s[i] && t[j] == s[j]);
    }
}

/// An insertion puts its entry to the front; behind it the entries of all other
/// keys stand in the same order as before, and only where there is no room for all
/// of them the last one is missing.
pub proof fn law_insert_moves_only_that_key<A, V>(s: Seq<(A, V)>, key: A, value: V, capacity: nat)
    requires
        distinct_keys(s),
        s.len() <= capacity,
        capacity > 0,
    ensures
        ({
            let t = with_entry(s, key, value, capacity);
            let others = s.filter(|e: (A, V)| e.0 != key);
            &&& t.len() > 0
            &&& t[0] == (key, value)
            &&& others.len() < capacity ==> t.skip(1) == others
            &&& others.len() == capacity ==> t.skip(1) == others.drop_last()
            &&& others.len() <= capacity
        }),
{
    lemma_filter_without(s, key);
    lemma_position(s, key);
    let t = with_entry(s, key, value, capacity);
    let others = without(s, key);
    if others.len() < capacity {
        assert(t.skip(1) =~= others);
    } else {
        assert(t.skip(1) =~= others.drop_last());
    }
}

/// Removing a key takes its entry out and leaves the others in their order.
pub proof fn law_remove_takes_only_that_key<A, V>(s: Seq<(A, V)>, key: A)
    requires
        distinct_keys(s),
    ensures
        without(s, key) == s.filter(|e: (A, V)| e.0 != key),
        has_key(s, key) <==> exists|i: int| 0 <= i < s.len() && (#[trigger] s[i]).0 == key,
{
    lemma_filter_without(s, key);
    lemma_position(s, key);
    if has_key(s, key) {
        assert(s[position(s, key)].0 == key);
    }
}

} // verus!
