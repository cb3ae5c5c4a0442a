//! A small map and set keyed by values that verified code can compare,
//! kept as a list of entries with distinct keys.
use vstd::prelude::*;
use crate::syntax_types::CacheKey;

verus! {

/// One key with its value.
pub struct KeyedEntry<K, V> {
    pub key: K,
    pub value: V,
}

/// A map from keys to values; no key is stored twice.
pub struct KeyedMap<K, V> {
    entries: Vec<KeyedEntry<K, V>>,
}

/// Whether some entry holds key `k`.
pub open spec fn entries_have<K, V>(s: Seq<KeyedEntry<K, V>>, k: K) -> bool {
    exists|i: int| 0 <= i < s.len() && (#[trigger] s[i]).key == k
}

/// The position of an entry holding key `k`.
pub open spec fn entry_index<K, V>(s: Seq<KeyedEntry<K, V>>, k: K) -> int {
    choose|i: int| 0 <= i < s.len() && (#[trigger] s[i]).key == k
}

/// Each stored key with its value.
pub open spec fn entries_map<K, V>(s: Seq<KeyedEntry<K, V>>) -> Map<K, V> {
    Map::new(|k: K| entries_have(s, k), |k: K| s[entry_index(s, k)].value)
}

/// No key occurs twice.
pub open spec fn distinct_keys<K, V>(s: Seq<KeyedEntry<K, V>>) -> bool {
    forall|i: int, j: int| 0 <= i < s.len() && 0 <= j < s.len() && i != j ==> (#[trigger] s[i]).key != (#[trigger] s[j]).key
}

proof fn lemma_entry_index<K, V>(s: Seq<KeyedEntry<K, V>>, i: int)
    requires
        distinct_keys(s),
        0 <= i < s.len(),
    ensures
        entries_have(s, s[i].key),
        entry_index(s, s[i].key) == i,
        entries_map(s).dom().contains(s[i].key),
        entries_map(s)[s[i].key] == s[i].value,
{
    let k = s[i].key;
    assert(entries_have(s, k));
    let j = entry_index(s, k);
    assert(s[j].key == k);
}

proof fn lemma_entries_set<K, V>(s: Seq<KeyedEntry<K, V>>, i: int, e: KeyedEntry<K, V>)
    requires
        distinct_keys(s),
        0 <= i < s.len(),
        e.key == s[i].key,
    ensures
        distinct_keys(s.update(i, e)),
        entries_map(s.update(i, e)) == entries_map(s).insert(e.key, e.value),
{
    let t = s.update(i, e);
    assert(distinct_keys(t)) by {
        assert forall|a: int, b: int| 0 <= a < t.len() && 0 <= b < t.len() && a != b implies (#[trigger] t[a]).key != (#[trigger] t[b]).key by {
            assert(s[a].key != s[b].key);
        }
    }
    assert forall|k: K| entries_have(t, k) <==> entries_have(s, k) || k == e.key by {
        if entries_have(t, k) {
            let a = entry_index(t, k);
            if a != i {
                assert(s[a].key == k);
            }
        }
        if entries_have(s, k) {
            let a = entry_index(s, k);
            assert(t[a].key == k);
        }
        if k == e.key {
            assert(t[i].key == k);
        }
    }
    assert forall|k: K| entries_have(t, k) && k != e.key implies entries_map(t)[k] == entries_map(s)[k] by {
        let a = entry_index(s, k);
        lemma_entry_index(s, a);
        assert(t[a] == s[a]);
        lemma_entry_index(t, a);
    }
    lemma_entry_index(t, i);
    assert(entries_map(t) =~= entries_map(s).insert(e.key, e.value));
}

proof fn lemma_entries_push<K, V>(s: Seq<KeyedEntry<K, V>>, e: KeyedEntry<K, V>)
    requires
        distinct_keys(s),
        !entries_have(s, e.key),
    ensures
        distinct_keys(s.push(e)),
        entries_map(s.push(e)) == entries_map(s).insert(e.key, e.value),
{
    let t = s.push(e);
    let n = s.len() as int;
    assert(distinct_keys(t)) by {
        assert forall|a: int, b: int| 0 <= a < t.len() && 0 <= b < t.len() && a != b implies (#[trigger] t[a]).key != (#[trigger] t[b]).key by {
            if a < n && b < n {
                assert(s[a].key != s[b].key);
            } else if a == n {
                assert(t[b] == s[b]);
            } else {
                assert(t[a] == s[a]);
            }
        }
    }
    assert forall|k: K| entries_have(t, k) <==> entries_have(s, k) || k == e.key by {
        if entries_have(t, k) {
            let a = entry_index(t, k);
            if a != n {
                assert(s[a].key == k);
            }
        }
        if entries_have(s, k) {
            let a = entry_index(s, k);
            assert(t[a].key == k);
        }
        if k == e.key {
            assert(t[n].key == k);
        }
    }
    assert forall|k: K| entries_have(t, k) && k != e.key implies entries_map(t)[k] == entries_map(s)[k] by {
        let a = entry_index(s, k);
        lemma_entry_index(s, a);
        assert(t[a] == s[a]);
        lemma_entry_index(t, a);
    }
    lemma_entry_index(t, n);
    assert(entries_map(t) =~= entries_map(s).insert(e.key, e.value));
}

proof fn lemma_entries_remove<K, V>(s: Seq<KeyedEntry<K, V>>, i: int)
    requires
        distinct_keys(s),
        0 <= i < s.len(),
    ensures
        distinct_keys(s.remove(i)),
        entries_map(s.remove(i)) == entries_map(s).remove(s[i].key),
{
    let t = s.remove(i);
    let gone = s[i].key;
    assert forall|a: int| 0 <= a < t.len() implies #[trigger] t[a] == (if a < i { s[a] } else { s[a + 1] }) by {}
    assert(distinct_keys(t)) by {
        assert forall|a: int, b: int| 0 <= a < t.len() && 0 <= b < t.len() && a != b implies (#[trigger] t[a]).key != (#[trigger] t[b]).key by {
            let sa = if a < i { a } else { a + 1 };
            let sb = if b < i { b } else { b + 1 };
            assert(s[sa].key != s[sb].key);
        }
    }
    assert forall|k: K| entries_have(t, k) <==> entries_have(s, k) && k != gone by {
        if entries_have(t, k) {
            let a = entry_index(t, k);
            let sa = if a < i { a } else { a + 1 };
            assert(s[sa].key == k);
            assert(s[sa].key != s[i].key);
        }
        if entries_have(s, k) && k != gone {
            let a = entry_index(s, k);
            assert(a != i);
            let ta = if a < i { a } else { a - 1 };
            assert(t[ta].key == k);
        }
    }
    assert forall|k: K| entries_have(t, k) implies entries_map(t)[k] == entries_map(s)[k] by {
        let a = entry_index(t, k);
        lemma_entry_index(t, a);
        let sa = if a < i { a } else { a + 1 };
        lemma_entry_index(s, sa);
    }
    assert(entries_map(t) =~= entries_map(s).remove(gone));
}

impl<K, V> View for KeyedMap<K, V> {
    type V = Map<K, V>;

    closed spec fn view(&self) -> Map<K, V> {
        entries_map(self.entries@)
    }
}

impl<K: CacheKey, V> KeyedMap<K, V> {
    /// No key is stored twice.
    pub closed spec fn wf(&self) -> bool {
        distinct_keys(self.entries@)
    }

    /// An empty map.
    pub fn new() -> (r: Self)
        ensures
            r.wf(),
            r@ == Map::<K, V>::empty(),
    {
        let r = KeyedMap { entries: Vec::new() };
        assert(r@ =~= Map::<K, V>::empty());
        r
    }

    fn find(&self, key: &K) -> (r: Option<usize>)
        requires
            self.wf(),
        ensures
            r is Some <==> self@.dom().contains(*key),
            r matches Some(i) ==> i < self.entries@.len() && self.entries@[i as int].key == *key,
    {
        let mut i: usize = 0;
        while i < self.entries.len()
            invariant
                i <= self.entries@.len(),
                forall|j: int| 0 <= j < i ==> self.entries@[j].key != *key,
            decreases self.entries@.len() - i,
        {
            if self.entries[i].key.same_key(key) {
                return Some(i);
            }
            i += 1;
        }
        None
    }

    /// The number of keys.
    pub fn len(&self) -> (r: usize)
        requires
            self.wf(),
        ensures
            r == self@.len(),
            self@.dom().finite(),
    {
        proof {
            let keys = self.entries@.map_values(|e: KeyedEntry<K, V>| e.key);
            assert forall|i: int, j: int| 0 <= i < keys.len() && 0 <= j < keys.len() && i != j implies keys[i] != keys[j] by {
                assert(self.entries@[i].key != self.entries@[j].key);
            }
            keys.unique_seq_to_set();
            assert(self@.dom() =~= keys.to_set()) by {
                assert forall|k: K| self@.dom().contains(k) implies keys.to_set().contains(k) by {
                    let i = entry_index(self.entries@, k);
                    assert(keys[i] == k);
                }
                assert forall|k: K| keys.to_set().contains(k) implies self@.dom().contains(k) by {
                    let i = choose|i: int| 0 <= i < keys.len() && keys[i] == k;
                    assert(self.entries@[i].key == k);
                }
            }
        }
        self.entries.len()
    }

    /// Whether `key` is stored.
    pub fn contains_key(&self, key: &K) -> (r: bool)
        requires
            self.wf(),
        ensures
            r == self@.dom().contains(*key),
    {
        self.find(key).is_some()
    }

    /// The value stored under `key`.
    pub fn get(&self, key: &K) -> (r: Option<&V>)
        requires
            self.wf(),
        ensures
            self@.dom().contains(*key) ==> r == Some(&self@[*key]),
            !self@.dom().contains(*key) ==> r is None,
    {
        match self.find(key) {
            Some(i) => {
                proof {
                    lemma_entry_index(self.entries@, i as int);
                }
                Some(&self.entries[i].value)
            },
            None => None,
        }
    }

    /// Stores `value` under `key`; reports whether the key was new.
    pub fn insert(&mut self, key: K, value: V) -> (was_new: bool)
        requires
            old(self).wf(),
        ensures
            final(self).wf(),
            final(self)@ == old(self)@.insert(key, value),
            was_new == !old(self)@.dom().contains(key),
    {
        let entry = KeyedEntry { key, value };
        match self.find(&key) {
            Some(i) => {
                proof {
                    lemma_entries_set(self.entries@, i as int, entry);
                }
                self.entries.set(i, entry);
                false
            },
            None => {
                proof {
                    lemma_entries_push(self.entries@, entry);
                }
                self.entries.push(entry);
                true
            },
        }
    }

    /// Removes `key`; reports whether it was stored.
    pub fn remove(&mut self, key: &K) -> (was_present: bool)
        requires
            old(self).wf(),
        ensures
            final(self).wf(),
            final(self)@ == old(self)@.remove(*key),
            was_present == old(self)@.dom().contains(*key),
    {
        match self.find(key) {
            Some(i) => {
                proof {
                    lemma_entries_remove(self.entries@, i as int);
                }
                self.entries.remove(i);
                true
            },
            None => {
                assert(old(self)@.remove(*key) =~= old(self)@);
                false
            },
        }
    }

    /// Removes every key.
    pub fn clear(&mut self)
        ensures
            final(self).wf(),
            final(self)@ == Map::<K, V>::empty(),
    {
        self.entries.clear();
        assert(self@ =~= Map::<K, V>::empty());
    }
}

impl<K: CacheKey, V: CacheKey> KeyedMap<K, V> {
    /// Every key stored with value `value`, each once.
    pub fn keys_with_value(&self, value: &V) -> (r: Vec<K>)
        requires
            self.wf(),
        ensures
            r@.no_duplicates(),
            forall|k: K| r@.contains(k) <==> self@.dom().contains(k) && self@[k] == *value,
    {
        let mut out: Vec<K> = Vec::new();
        let mut i: usize = 0;
        while i < self.entries.len()
            invariant
                self.wf(),
                i <= self.entries@.len(),
                out@.no_duplicates(),
                forall|k: K| out@.contains(k) <==> exists|j: int| 0 <= j < i && (#[trigger] self.entries@[j]).key == k
                    && self.entries@[j].value == *value,
            decreases self.entries@.len() - i,
        {
            let ghost before = out@;
            if self.entries[i].value.same_key(value) {
                let k = self.entries[i].key;
                proof {
                    assert(!before.contains(k)) by {
                        if before.contains(k) {
                            let j = choose|j: int| 0 <= j < i && (#[trigger] self.entries@[j]).key == k
                                && self.entries@[j].value == *value;
                            assert(self.entries@[j].key != self.entries@[i as int].key);
                        }
                    }
                }
                out.push(k);
                proof {
                    assert forall|kk: K| out@.contains(kk) <==> exists|j: int| 0 <= j < i + 1 && (#[trigger] self.entries@[j]).key == kk
                        && self.entries@[j].value == *value by {
                        if out@.contains(kk) {
                            let p = choose|p: int| 0 <= p < out@.len() && out@[p] == kk;
                            if p < before.len() {
                                assert(before.contains(kk));
                            } else {
                                assert(self.entries@[i as int].key == kk);
                            }
                        }
                        if exists|j: int| 0 <= j < i + 1 && (#[trigger] self.entries@[j]).key == kk && self.entries@[j].value == *value {
                            let j = choose|j: int| 0 <= j < i + 1 && (#[trigger] self.entries@[j]).key == kk && self.entries@[j].value == *value;
                            if j < i {
                                assert(before.contains(kk));
                                let p = choose|p: int| 0 <= p < before.len() && before[p] == kk;
                                assert(out@[p] == kk);
                            } else {
                                assert(out@[before.len() as int] == kk);
                            }
                        }
                    }
                }
            } else {
                proof {
                    assert forall|kk: K| out@.contains(kk) <==> exists|j: int| 0 <= j < i + 1 && (#[trigger] self.entries@[j]).key == kk
                        && self.entries@[j].value == *value by {
                        if exists|j: int| 0 <= j < i + 1 && (#[trigger] self.entries@[j]).key == kk && self.entries@[j].value == *value {
                            let j = choose|j: int| 0 <= j < i + 1 && (#[trigger] self.entries@[j]).key == kk && self.entries@[j].value == *value;
                            assert(j < i);
                        }
                    }
                }
            }
            i += 1;
        }
        proof {
            assert forall|k: K| out@.contains(k) <==> self@.dom().contains(k) && self@[k] == *value by {
                if out@.contains(k) {
                    let j = choose|j: int| 0 <= j < self.entries@.len() && (#[trigger] self.entries@[j]).key == k
                        && self.entries@[j].value == *value;
                    lemma_entry_index(self.entries@, j);
                }
                if self@.dom().contains(k) && self@[k] == *value {
                    let j = entry_index(self.entries@, k);
                    lemma_entry_index(self.entries@, j);
                }
            }
        }
        out
    }
}

} // verus!
