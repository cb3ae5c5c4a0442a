use mark_tui::lru::LruCache;
use mark_tui::syntax_types::{syntax_key, syntax_key_with_generation};

#[test]
fn highlight_cache_evicts_least_recently_used_entry() {
    let mut cache = LruCache::new(2);
    let first = syntax_key(0);
    let second = syntax_key(1);
    let third = syntax_key(2);

    cache.insert(first, 1);
    cache.insert(second, 2);
    assert_eq!(cache.get(&first), Some(&1));

    cache.insert(third, 3);

    assert_eq!(cache.get(&second), None);
    assert_eq!(cache.get(&first), Some(&1));
    assert_eq!(cache.get(&third), Some(&3));
}

#[test]
fn cache_replaces_value_of_existing_key_without_eviction() {
    let mut cache = LruCache::new(2);
    cache.insert(syntax_key(0), 1);
    cache.insert(syntax_key(1), 2);
    cache.insert(syntax_key(0), 5);
    assert_eq!(cache.len(), 2);
    assert_eq!(cache.get(&syntax_key(0)), Some(&5));
    assert!(cache.contains_key(&syntax_key(1)));
}

#[test]
fn cache_clear_and_generation() {
    let mut cache = LruCache::new(3);
    cache.insert(syntax_key_with_generation(4, 1), "a");
    assert_eq!(syntax_key_with_generation(4, 1).generation(), 4);
    assert_eq!(cache.len(), 1);
    cache.clear();
    assert_eq!(cache.len(), 0);
    assert_eq!(cache.get(&syntax_key_with_generation(4, 1)), None);
}

#[test]
fn zero_capacity_cache_keeps_nothing() {
    let mut cache: LruCache<u64, u8> = LruCache::new(0);
    cache.insert(1, 1);
    assert_eq!(cache.len(), 0);
}

#[test]
fn mutable_lookup_changes_value_and_protects_from_eviction() {
    let mut cache = LruCache::new(2);
    cache.insert(syntax_key(0), 1);
    cache.insert(syntax_key(1), 2);
    if let Some(value) = cache.get_mut(&syntax_key(0)) {
        *value = 10;
    }
    assert!(cache.get_mut(&syntax_key(7)).is_none());
    cache.insert(syntax_key(2), 3);
    assert_eq!(cache.get(&syntax_key(0)), Some(&10));
    assert_eq!(cache.get(&syntax_key(1)), None);
}

#[test]
fn inserts_change_the_length_by_at_most_one_within_capacity() {
    let mut cache = LruCache::new(2);
    cache.insert(syntax_key(0), 1);
    assert_eq!(cache.len(), 1);
    cache.insert(syntax_key(0), 2);
    assert_eq!(cache.len(), 1);
    cache.insert(syntax_key(1), 3);
    assert_eq!(cache.len(), 2);
    cache.insert(syntax_key(2), 4);
    assert_eq!(cache.len(), 2);

    let mut empty = LruCache::new(0);
    empty.insert(syntax_key(0), 1);
    assert_eq!(empty.len(), 0);
}
