//! A bounded cache that evicts the least recently used entry.
use vstd::prelude::*;
use crate::syntax_types::CacheKey;

verus! {

/// One cached value with the tick of its last use.
pub struct LruEntry<K, V> {
    pub key: K,
    pub value: V,
    pub last_used: u64,
}

/// A cache of at most `capacity` entries. Each insert or lookup takes a new
/// tick; when a new key arrives at a full cache, the entry whose last use has
/// the smallest tick is evicted.
pub struct LruCache<K, V> {
    entries: Vec<LruEntry<K, V>>,
    capacity: usize,
    tick: u64,
}

/// Whether some entry holds key `k`.
pub open spec fn seq_has<K, V>(s: Seq<LruEntry<K, V>>, k: K) -> bool {
    exists|i: int| 0 <= i < s.len() && (#[trigger] s[i]).key == k
}

/// The position of an entry holding key `k`.
pub open spec fn seq_index_of<K, V>(s: Seq<LruEntry<K, V>>, k: K) -> int {
    choose|i: int| 0 <= i < s.len() && (#[trigger] s[i]).key == k
}

/// Each key with its value.
pub open spec fn seq_map<K, V>(s: Seq<LruEntry<K, V>>) -> Map<K, V> {
    Map::new(|k: K| seq_has(s, k), |k: K| s[seq_index_of(s, k)].value)
}

/// Each key with the tick of its last use.
pub open spec fn seq_recency<K, V>(s: Seq<LruEntry<K, V>>) -> Map<K, u64> {
    Map::new(|k: K| seq_has(s, k), |k: K| s[seq_index_of(s, k)].last_used)
}

/// No key occurs twice.
pub open spec fn keys_distinct<K, V>(s: Seq<LruEntry<K, V>>) -> bool {
    forall|i: int, j: int| 0 <= i < s.len() && 0 <= j < s.len() && i != j ==> (#[trigger] s[i]).key != (#[trigger] s[j]).key
}

proof fn lemma_seq_index<K, V>(s: Seq<LruEntry<K, V>>, i: int)
    requires
        keys_distinct(s),
        0 <= i < s.len(),
    ensures
        seq_has(s, s[i].key),
        seq_index_of(s, s[i].key) == i,
        seq_map(s)[s[i].key] == s[i].value,
        seq_recency(s)[s[i].key] == s[i].last_used,
        seq_map(s).dom().contains(s[i].key),
{
    let k = s[i].key;
    assert(seq_has(s, k));
    let j = seq_index_of(s, k);
    assert(s[j].key == k);
}

proof fn lemma_seq_set<K, V>(s: Seq<LruEntry<K, V>>, i: int, e: LruEntry<K, V>)
    requires
        keys_distinct(s),
        0 <= i < s.len(),
        e.key == s[i].key,
    ensures
        keys_distinct(s.update(i, e)),
        seq_map(s.update(i, e)) == seq_map(s).insert(e.key, e.value),
        seq_recency(s.update(i, e)) == seq_recency(s).insert(e.key, e.last_used),
{
    let t = s.update(i, e);
    assert(keys_distinct(t)) by {
        assert forall|a: int, b: int| 0 <= a < t.len() && 0 <= b < t.len() && a != b implies (#[trigger] t[a]).key != (#[trigger] t[b]).key by {
            assert(s[a].key != s[b].key);
        }
    }
    assert forall|k: K| seq_has(t, k) <==> seq_has(s, k) || k == e.key by {
        if seq_has(t, k) {
            let a = seq_index_of(t, k);
            if a != i { assert(s[a].key == k); }
        }
        if seq_has(s, k) {
            let a = seq_index_of(s, k);
            assert(t[a].key == k);
        }
        if k == e.key { assert(t[i].key == k); }
    }
    assert forall|k: K| seq_has(t, k) && k != e.key implies seq_map(t)[k] == seq_map(s)[k] && seq_recency(t)[k] == seq_recency(s)[k] by {
        let a = seq_index_of(s, k);
        lemma_seq_index(s, a);
        assert(a != i);
        assert(t[a] == s[a]);
        lemma_seq_index(t, a);
    }
    lemma_seq_index(t, i);
    assert(seq_map(t) =~= seq_map(s).insert(e.key, e.value));
    assert(seq_recency(t) =~= seq_recency(s).insert(e.key, e.last_used));
}

proof fn lemma_seq_push<K, V>(s: Seq<LruEntry<K, V>>, e: LruEntry<K, V>)
    requires
        keys_distinct(s),
        !seq_has(s, e.key),
    ensures
        keys_distinct(s.push(e)),
        seq_map(s.push(e)) == seq_map(s).insert(e.key, e.value),
        seq_recency(s.push(e)) == seq_recency(s).insert(e.key, e.last_used),
{
    let t = s.push(e);
    let n = s.len() as int;
    assert(keys_distinct(t)) by {
        assert forall|a: int, b: int| 0 <= a < t.len() && 0 <= b < t.len() && a != b implies (#[trigger] t[a]).key != (#[trigger] t[b]).key by {
            if a < n && b < n {
                assert(s[a].key != s[b].key);
            } else if a == n {
                assert(t[b] == s[b]);
            } else {
                assert(t[a] == s[a]);
            }
        }
    }
    assert forall|k: K| seq_has(t, k) <==> seq_has(s, k) || k == e.key by {
        if seq_has(t, k) {
            let a = seq_index_of(t, k);
            if a != n { assert(s[a].key == k); }
        }
        if seq_has(s, k) {
            let a = seq_index_of(s, k);
            assert(t[a].key == k);
        }
        if k == e.key { assert(t[n].key == k); }
    }
    assert forall|k: K| seq_has(t, k) && k != e.key implies seq_map(t)[k] == seq_map(s)[k] && seq_recency(t)[k] == seq_recency(s)[k] by {
        let a = seq_index_of(s, k);
        lemma_seq_index(s, a);
        assert(t[a] == s[a]);
        lemma_seq_index(t, a);
    }
    lemma_seq_index(t, n);
    assert(seq_map(t) =~= seq_map(s).insert(e.key, e.value));
    assert(seq_recency(t) =~= seq_recency(s).insert(e.key, e.last_used));
}

proof fn lemma_seq_remove<K, V>(s: Seq<LruEntry<K, V>>, i: int)
    requires
        keys_distinct(s),
        0 <= i < s.len(),
    ensures
        keys_distinct(s.remove(i)),
        !seq_has(s.remove(i), s[i].key),
        seq_map(s.remove(i)) == seq_map(s).remove(s[i].key),
        seq_recency(s.remove(i)) == seq_recency(s).remove(s[i].key),
{
    let t = s.remove(i);
    let gone = s[i].key;
    assert forall|a: int| 0 <= a < t.len() implies #[trigger] t[a] == (if a < i { s[a] } else { s[a + 1] }) by {}
    assert(keys_distinct(t)) by {
        assert forall|a: int, b: int| 0 <= a < t.len() && 0 <= b < t.len() && a != b implies (#[trigger] t[a]).key != (#[trigger] t[b]).key by {
            let sa = if a < i { a } else { a + 1 };
            let sb = if b < i { b } else { b + 1 };
            assert(s[sa].key != s[sb].key);
        }
    }
    assert forall|k: K| seq_has(t, k) <==> seq_has(s, k) && k != gone by {
        if seq_has(t, k) {
            let a = seq_index_of(t, k);
            let sa = if a < i { a } else { a + 1 };
            assert(s[sa].key == k);
            assert(s[sa].key != s[i].key);
        }
        if seq_has(s, k) && k != gone {
            let a = seq_index_of(s, k);
            assert(a != i);
            let ta = if a < i { a } else { a - 1 };
            assert(t[ta].key == k);
        }
    }
    assert forall|k: K| seq_has(t, k) implies seq_map(t)[k] == seq_map(s)[k] && seq_recency(t)[k] == seq_recency(s)[k] by {
        let a = seq_index_of(t, k);
        lemma_seq_index(t, a);
        let sa = if a < i { a } else { a + 1 };
        lemma_seq_index(s, sa);
    }
    assert(seq_map(t) =~= seq_map(s).remove(gone));
    assert(seq_recency(t) =~= seq_recency(s).remove(gone));
}

/// `tick + 1`, wrapping at `u64::MAX`.
pub open spec fn next_tick_value(tick: u64) -> u64 {
    if tick == u64::MAX { 0 } else { (tick + 1) as u64 }
}

/// Storing `value` under `key` took cache `o` to `f`: a cache of capacity
/// zero stays as it was; otherwise the tick advances, the key holds the
/// value and was used at the new tick, and a new key arriving at a full
/// cache first evicts a least recently used entry.
pub open spec fn insert_step<K: CacheKey, V>(o: LruCache<K, V>, f: LruCache<K, V>, key: K, value: V) -> bool {
    &&& f.capacity() == o.capacity()
    &&& o.capacity() == 0 ==> f.entries() == o.entries() && f.tick() == o.tick()
    &&& o.capacity() > 0 ==> f.tick() == next_tick_value(o.tick())
    &&& o.capacity() > 0 && (o.has(key) || o.entries().len() < o.capacity())
        ==> f.view_map() == o.view_map().insert(key, value) && f.recency() == o.recency().insert(key, f.tick())
    &&& o.capacity() > 0 && !o.has(key) && o.entries().len() >= o.capacity()
        ==> exists|victim: K| #![trigger o.recency()[victim]]
            o.has(victim)
            && (forall|j: K| o.has(j) ==> o.recency()[victim] <= #[trigger] o.recency()[j])
            && f.view_map() == o.view_map().remove(victim).insert(key, value)
            && f.recency() == o.recency().remove(victim).insert(key, f.tick())
    &&& o.capacity() > 0 ==> f.has(key) && f.view_map()[key] == value
    &&& o.capacity() > 0 ==> forall|k: K| k != key && #[trigger] f.view_map().dom().contains(k)
        ==> o.view_map().dom().contains(k) && f.view_map()[k] == o.view_map()[k]
}

/// Looking up `key` took cache `o` to `f`: the tick advances, the contents
/// stay, and a cached key was used at the new tick.
pub open spec fn get_step<K: CacheKey, V>(o: LruCache<K, V>, f: LruCache<K, V>, key: K) -> bool {
    &&& f.capacity() == o.capacity()
    &&& f.tick() == next_tick_value(o.tick())
    &&& f.view_map() == o.view_map()
    &&& o.has(key) ==> f.recency() == o.recency().insert(key, f.tick())
    &&& !o.has(key) ==> f.recency() == o.recency()
}

impl<K: CacheKey, V> LruCache<K, V> {
    /// The stored entries, in storage order.
    pub closed spec fn entries(&self) -> Seq<LruEntry<K, V>> {
        self.entries@
    }

    /// The most entries the cache holds.
    pub closed spec fn capacity(&self) -> nat {
        self.capacity as nat
    }

    /// The tick of the last operation.
    pub closed spec fn tick(&self) -> u64 {
        self.tick
    }

    /// Whether `k` is cached.
    pub open spec fn has(&self, k: K) -> bool {
        seq_has(self.entries(), k)
    }

    /// The position of key `k` among the entries.
    pub open spec fn index_of(&self, k: K) -> int {
        seq_index_of(self.entries(), k)
    }

    /// The cached contents: each key with its value.
    pub open spec fn view_map(&self) -> Map<K, V> {
        seq_map(self.entries())
    }

    /// The tick at which each cached key was last used.
    pub open spec fn recency(&self) -> Map<K, u64> {
        seq_recency(self.entries())
    }

    /// Keys are distinct and the cache holds no more than its capacity.
    pub open spec fn wf(&self) -> bool {
        &&& keys_distinct(self.entries())
        &&& self.entries().len() <= self.capacity()
    }

    proof fn lemma_index(&self, i: int)
        requires
            self.wf(),
            0 <= i < self.entries().len(),
        ensures
            self.has(self.entries()[i].key),
            self.index_of(self.entries()[i].key) == i,
            self.view_map()[self.entries()[i].key] == self.entries()[i].value,
            self.recency()[self.entries()[i].key] == self.entries()[i].last_used,
    {
        lemma_seq_index(self.entries(), i);
    }

    /// An empty cache holding at most `capacity` entries.
    pub fn new(capacity: usize) -> (r: Self)
        ensures
            r.wf(),
            r.capacity() == capacity,
            r.view_map() == Map::<K, V>::empty(),
            r.tick() == 0,
    {
        let r = LruCache { entries: Vec::new(), capacity, tick: 0 };
        assert(r.view_map() =~= Map::<K, V>::empty());
        r
    }

    /// Removes every entry.
    pub fn clear(&mut self)
        requires
            old(self).wf(),
        ensures
            final(self).wf(),
            final(self).view_map() == Map::<K, V>::empty(),
            final(self).capacity() == old(self).capacity(),
            final(self).tick() == old(self).tick(),
    {
        self.entries.clear();
        assert(self.view_map() =~= Map::<K, V>::empty());
    }

    /// The number of cached entries.
    pub fn len(&self) -> (r: usize)
        requires
            self.wf(),
        ensures
            r == self.view_map().len(),
            r == self.entries().len(),
    {
        proof {
            self.lemma_dom_len();
        }
        self.entries.len()
    }

    proof fn lemma_dom_len(&self)
        requires
            self.wf(),
        ensures
            self.view_map().dom().finite(),
            self.view_map().len() == self.entries().len(),
    {
        let keys = self.entries().map_values(|e: LruEntry<K, V>| e.key);
        assert forall|i: int, j: int| 0 <= i < keys.len() && 0 <= j < keys.len() && i != j implies keys[i] != keys[j] by {
            assert(self.entries()[i].key != self.entries()[j].key);
        }
        assert(keys.no_duplicates());
        keys.unique_seq_to_set();
        assert(self.view_map().dom() =~= keys.to_set()) by {
            assert forall|k: K| self.view_map().dom().contains(k) implies keys.to_set().contains(k) by {
                let i = self.index_of(k);
                assert(keys[i] == k);
            }
            assert forall|k: K| keys.to_set().contains(k) implies self.view_map().dom().contains(k) by {
                let i = choose|i: int| 0 <= i < keys.len() && keys[i] == k;
                assert(self.entries()[i].key == k);
            }
        }
    }

    /// References to the cached values.
    pub fn values(&self) -> (r: Vec<&V>)
        requires
            self.wf(),
        ensures
            r@.len() == self.entries().len(),
            forall|i: int| 0 <= i < r@.len() ==> *r@[i] == self.entries()[i].value,
    {
        let mut out: Vec<&V> = Vec::new();
        let mut i: usize = 0;
        while i < self.entries.len()
            invariant
                i <= self.entries@.len(),
                out@.len() == i,
                forall|j: int| 0 <= j < i ==> *out@[j] == self.entries@[j].value,
            decreases self.entries@.len() - i,
        {
            out.push(&self.entries[i].value);
            i += 1;
        }
        out
    }

    fn find(&self, key: &K) -> (r: Option<usize>)
        requires
            self.wf(),
        ensures
            r is Some <==> self.has(*key),
            r matches Some(i) ==> i < self.entries().len() && self.entries()[i as int].key == *key,
    {
        let mut i: usize = 0;
        while i < self.entries.len()
            invariant
                i <= self.entries@.len(),
                forall|j: int| 0 <= j < i ==> self.entries@[j].key != *key,
            decreases self.entries@.len() - i,
        {
            if self.entries[i].key.same_key(key) {
                return Some(i);
            }
            i += 1;
        }
        None
    }

    /// Whether `key` is cached.
    pub fn contains_key(&self, key: &K) -> (r: bool)
        requires
            self.wf(),
        ensures
            r == self.view_map().dom().contains(*key),
    {
        self.find(key).is_some()
    }

    /// Advances the tick, wrapping at `u64::MAX`, and returns it.
    pub fn next_tick(&mut self) -> (r: u64)
        ensures
            r == next_tick_value(old(self).tick()),
            final(self).tick() == r,
            final(self).entries() == old(self).entries(),
            final(self).capacity() == old(self).capacity(),
    {
        self.tick = self.tick.wrapping_add(1);
        self.tick
    }

    /// The key whose last use has the smallest tick, if any.
    pub fn oldest_key(&self) -> (r: Option<K>)
        requires
            self.wf(),
        ensures
            r is None <==> self.entries().len() == 0,
            r matches Some(k) ==> self.has(k) && forall|j: K|
                self.has(j) ==> self.recency()[k] <= #[trigger] self.recency()[j],
    {
        if self.entries.len() == 0 {
            return None;
        }
        let mut best: usize = 0;
        let mut i: usize = 1;
        while i < self.entries.len()
            invariant
                1 <= i <= self.entries@.len(),
                best < i,
                forall|j: int| 0 <= j < i ==> self.entries@[best as int].last_used <= #[trigger] self.entries@[j].last_used,
            decreases self.entries@.len() - i,
        {
            if self.entries[i].last_used < self.entries[best].last_used {
                best = i;
            }
            i += 1;
        }
        let k = self.entries[best].key;
        proof {
            self.lemma_index(best as int);
            assert forall|j: K| self.has(j) implies self.recency()[k] <= #[trigger] self.recency()[j] by {
                let ji = self.index_of(j);
                self.lemma_index(ji);
            }
        }
        Some(k)
    }

    /// Stores `value` under `key` and marks it most recently used. A new key
    /// arriving at a full cache evicts the least recently used entry. A cache
    /// of capacity zero stores nothing.
    #[verifier::rlimit(60)]
    pub fn insert(&mut self, key: K, value: V)
        requires
            old(self).wf(),
        ensures
            final(self).wf(),
            insert_step(*old(self), *final(self), key, value),
    {
        if self.capacity == 0 {
            return;
        }
        let last_used = self.next_tick();
        match self.find(&key) {
            Some(i) => {
                let entry = LruEntry { key, value, last_used };
                proof {
                    lemma_seq_set(self.entries@, i as int, entry);
                }
                self.entries.set(i, entry);
                proof {
                    let o = *old(self);
                    assert(self.view_map() == o.view_map().insert(key, value));
                    assert(self.view_map().dom().contains(key) && self.view_map()[key] == value);
                    assert forall|k: K| k != key && #[trigger] self.view_map().dom().contains(k)
                        implies o.view_map().dom().contains(k) && self.view_map()[k] == o.view_map()[k] by {}
                }
            },
            None => {
                let ghost before = self.entries@;
                if self.entries.len() >= self.capacity {
                    if let Some(oldest) = self.oldest_key() {
                        assert(self.entries() == before);
                        assert forall|jj: K| seq_has(before, jj) implies seq_recency(before)[oldest] <= #[trigger] seq_recency(before)[jj] by {
                            assert(self.has(jj));
                            assert(self.recency()[oldest] <= self.recency()[jj]);
                        }
                        if let Some(j) = self.find(&oldest) {
                            proof {
                                lemma_seq_remove(self.entries@, j as int);
                            }
                            self.entries.remove(j);
                            let entry = LruEntry { key, value, last_used };
                            proof {
                                assert(!seq_has(self.entries@, key)) by {
                                    if seq_has(self.entries@, key) {
                                        assert(seq_map(self.entries@).dom().contains(key));
                                        assert(seq_map(before).dom().contains(key));
                                    }
                                }
                                lemma_seq_push(self.entries@, entry);
                            }
                            self.entries.push(entry);
                            proof {
                                let o = *old(self);
                                assert(o.entries() == before);
                                assert(!o.has(key));
                                assert(o.has(oldest));
                                assert(forall|jj: K| o.has(jj) ==> o.recency()[oldest] <= #[trigger] o.recency()[jj]);
                                assert(self.view_map() == o.view_map().remove(oldest).insert(key, value));
                                assert(self.recency() == o.recency().remove(oldest).insert(key, self.tick()));
                                assert(exists|victim: K| #![trigger o.recency()[victim]]
                                    o.has(victim)
                                    && (forall|j: K| o.has(j) ==> o.recency()[victim] <= #[trigger] o.recency()[j])
                                    && self.view_map() == o.view_map().remove(victim).insert(key, value)
                                    && self.recency() == o.recency().remove(victim).insert(key, self.tick()));
                                assert(self.view_map().dom().contains(key) && self.view_map()[key] == value);
                                assert forall|k: K| k != key && #[trigger] self.view_map().dom().contains(k)
                                    implies o.view_map().dom().contains(k) && self.view_map()[k] == o.view_map()[k] by {}
                                assert(insert_step(o, *self, key, value));
                            }
                            return;
                        }
                    }
                }
                let entry = LruEntry { key, value, last_used };
                proof {
                    lemma_seq_push(self.entries@, entry);
                }
                self.entries.push(entry);
                proof {
                    let o = *old(self);
                    assert(self.view_map() == o.view_map().insert(key, value));
                    assert(self.view_map().dom().contains(key) && self.view_map()[key] == value);
                    assert forall|k: K| k != key && #[trigger] self.view_map().dom().contains(k)
                        implies o.view_map().dom().contains(k) && self.view_map()[k] == o.view_map()[k] by {}
                }
            },
        }
    }

    /// Looks up `key`, marking it most recently used when present. Every call
    /// takes a new tick.
    pub fn get(&mut self, key: &K) -> (r: Option<&V>)
        requires
            old(self).wf(),
        ensures
            final(self).wf(),
            get_step(*old(self), *final(self), *key),
            old(self).has(*key) ==> r == Some(&old(self).view_map()[*key]),
            !old(self).has(*key) ==> r is None,
    {
        let last_used = self.next_tick();
        match self.find(key) {
            Some(i) => {
                let entry = self.entries.remove(i);
                let updated = LruEntry { key: entry.key, value: entry.value, last_used };
                let ghost removed = self.entries@;
                self.entries.insert(i, updated);
                proof {
                    assert(self.entries@ =~= old(self).entries@.update(i as int, updated));
                    lemma_seq_set(old(self).entries@, i as int, updated);
                    lemma_seq_index(old(self).entries@, i as int);
                    assert(seq_map(old(self).entries@).insert(*key, updated.value) =~= seq_map(old(self).entries@));
                }
                Some(&self.entries[i].value)
            },
            None => None,
        }
    }
    /// Looks up `key` for changing its value, marking it most recently used
    /// when present. Every call takes a new tick.
    pub fn get_mut(&mut self, key: &K) -> (r: Option<&mut V>)
        requires
            old(self).wf(),
        ensures
            !old(self).has(*key) ==> r is None && final(self).wf() && get_step(*old(self), *final(self), *key),
            old(self).has(*key) ==> r is Some && *r->0 == old(self).view_map()[*key],
            r matches Some(v) ==> final(self).wf() && final(self).capacity() == old(self).capacity()
                && final(self).tick() == next_tick_value(old(self).tick())
                && final(self).view_map() == old(self).view_map().insert(*key, *final(v))
                && final(self).recency() == old(self).recency().insert(*key, final(self).tick()),
    {
        let last_used = self.next_tick();
        match self.find(key) {
            Some(i) => {
                proof {
                    lemma_seq_index(self.entries@, i as int);
                }
                let ghost before = self.entries@;
                let entry = &mut self.entries[i];
                entry.last_used = last_used;
                let v = &mut entry.value;
                proof {
                    let updated = LruEntry { key: before[i as int].key, value: *final(v), last_used };
                    lemma_seq_set(before, i as int, updated);
                    lemma_seq_index(before, i as int);
                }
                Some(v)
            },
            None => None,
        }
    }
}

/// A value stored in a cache of some capacity is what a lookup of its key
/// finds next, and the values of the other keys that stay are unchanged;
/// the cache never holds more entries than its capacity.
pub proof fn cache_reads_back_what_was_written<K: CacheKey, V>(o: LruCache<K, V>, f: LruCache<K, V>, key: K, value: V)
    requires
        o.wf(),
        f.wf(),
        insert_step(o, f, key, value),
        o.capacity() > 0,
    ensures
        f.has(key),
        f.view_map()[key] == value,
        forall|k: K| k != key && #[trigger] f.view_map().dom().contains(k) ==> o.view_map().dom().contains(k)
            && f.view_map()[k] == o.view_map()[k],
        f.entries().len() <= f.capacity(),
{
}

/// Storing a value changes the number of cached entries by at most one and
/// keeps it within the capacity: a cache of capacity zero stays as it was;
/// a key already cached keeps the count; a new key adds one entry while
/// there is room, and at a full cache takes the place of the evicted one.
pub proof fn insert_keeps_the_cache_within_capacity<K: CacheKey, V>(o: LruCache<K, V>, f: LruCache<K, V>, key: K, value: V)
    requires
        o.wf(),
        f.wf(),
        insert_step(o, f, key, value),
    ensures
        o.capacity() == 0 ==> f.view_map() == o.view_map(),
        o.capacity() > 0 && o.has(key) ==> f.view_map().len() == o.view_map().len(),
        o.capacity() > 0 && !o.has(key) && o.view_map().len() < o.capacity() ==> f.view_map().len() == o.view_map().len() + 1,
        o.capacity() > 0 && !o.has(key) && o.view_map().len() == o.capacity() ==> f.view_map().len() == o.view_map().len(),
        f.view_map().len() <= f.capacity(),
{
    o.lemma_dom_len();
    f.lemma_dom_len();
    if o.capacity() > 0 && !o.has(key) && o.entries().len() >= o.capacity() {
        let victim = choose|victim: K| #![trigger o.recency()[victim]]
            o.has(victim)
            && (forall|j: K| o.has(j) ==> o.recency()[victim] <= #[trigger] o.recency()[j])
            && f.view_map() == o.view_map().remove(victim).insert(key, value)
            && f.recency() == o.recency().remove(victim).insert(key, f.tick());
        assert(o.view_map().remove(victim).dom() =~= o.view_map().dom().remove(victim));
        assert(o.view_map().remove(victim).insert(key, value).dom() =~= o.view_map().dom().remove(victim).insert(key));
    } else if o.capacity() > 0 {
        assert(o.view_map().insert(key, value).dom() =~= o.view_map().dom().insert(key));
    }
}

} // verus!
