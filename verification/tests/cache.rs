use zht::cache::LruCache;

#[test]
fn test_new_cache_is_empty() {
    let cache: LruCache<String, i32> = LruCache::new(10);
    assert!(cache.is_empty());
    assert_eq!(cache.len(), 0);
    assert_eq!(cache.capacity(), 10);
}

#[test]
fn test_insert_and_fetch() {
    let mut cache = LruCache::new(5);
    cache.insert("a".to_string(), 1);
    cache.insert("b".to_string(), 2);

    assert_eq!(cache.fetch(&"a".to_string()), Some(1));
    assert_eq!(cache.fetch(&"b".to_string()), Some(2));
    assert_eq!(cache.len(), 2);
}

#[test]
fn test_fetch_nonexistent_returns_none() {
    let mut cache: LruCache<String, i32> = LruCache::new(5);
    assert_eq!(cache.fetch(&"missing".to_string()), None);
}

#[test]
fn test_insert_overwrites_existing() {
    let mut cache: LruCache<String, i32> = LruCache::new(5);
    cache.insert("key".to_string(), 10);
    cache.insert("key".to_string(), 20);

    assert_eq!(cache.fetch(&"key".to_string()), Some(20));
    assert_eq!(cache.len(), 1);
}

#[test]
fn test_lru_eviction_at_capacity() {
    let mut cache = LruCache::new(3);
    cache.insert(1, "one");
    cache.insert(2, "two");
    cache.insert(3, "three");
    // Cache is full. Inserting a 4th should evict the least recently used (1).
    cache.insert(4, "four");

    assert_eq!(cache.len(), 3);
    assert_eq!(cache.fetch(&1), None);   // evicted
    assert_eq!(cache.fetch(&2), Some("two"));
    assert_eq!(cache.fetch(&3), Some("three"));
    assert_eq!(cache.fetch(&4), Some("four"));
}

#[test]
fn test_eviction_order() {
    let mut cache = LruCache::new(3);
    cache.insert("a", 1);
    cache.insert("b", 2);
    cache.insert("c", 3);
    // Touch "a" so "b" becomes LRU
    cache.touch(&"a");
    // Insert new entry — should evict "b" (least recently used)
    cache.insert("d", 4);

    assert_eq!(cache.fetch(&"a"), Some(1));   // was touched, safe
    assert_eq!(cache.fetch(&"b"), None);      // evicted (LRU)
    assert_eq!(cache.fetch(&"c"), Some(3));   // safe
    assert_eq!(cache.fetch(&"d"), Some(4));   // just inserted
}

#[test]
fn test_touch_promotes_entry() {
    let mut cache = LruCache::new(3);
    cache.insert("x", 10);
    cache.insert("y", 20);
    cache.insert("z", 30);
    // "x" is LRU.  Touch it to promote.
    cache.touch(&"x");
    // Now "y" should be LRU.
    cache.insert("w", 40);

    assert_eq!(cache.fetch(&"x"), Some(10));  // promoted, safe
    assert_eq!(cache.fetch(&"y"), None);     // evicted
    assert_eq!(cache.fetch(&"z"), Some(30));
    assert_eq!(cache.fetch(&"w"), Some(40));
}

#[test]
fn test_remove_returns_value() {
    let mut cache = LruCache::new(5);
    cache.insert("key".to_string(), 42);
    let removed = cache.remove(&"key".to_string());
    assert_eq!(removed, Some(42));
    assert!(!cache.contains(&"key".to_string()));
    assert_eq!(cache.len(), 0);
}

#[test]
fn test_remove_nonexistent_returns_none() {
    let mut cache: LruCache<String, i32> = LruCache::new(5);
    assert_eq!(cache.remove(&"ghost".to_string()), None);
}

#[test]
fn test_contains_key() {
    let mut cache = LruCache::new(5);
    cache.insert("yes".to_string(), 1);
    assert!(cache.contains(&"yes".to_string()));
    assert!(!cache.contains(&"no".to_string()));
}

#[test]
fn test_len_and_capacity() {
    let mut cache = LruCache::new(100);
    assert_eq!(cache.len(), 0);
    assert_eq!(cache.capacity(), 100);

    for i in 0..50 {
        cache.insert(i, i);
    }
    assert_eq!(cache.len(), 50);
    assert_eq!(cache.capacity(), 100);
}

#[test]
fn test_clear() {
    let mut cache = LruCache::new(10);
    for i in 0..10 {
        cache.insert(i, i * 10);
    }
    assert_eq!(cache.len(), 10);
    cache.clear();
    assert!(cache.is_empty());
    assert_eq!(cache.len(), 0);
}

#[test]
fn test_keys_lru_order() {
    let mut cache = LruCache::new(5);
    cache.insert("a", 1);
    cache.insert("b", 2);
    cache.insert("c", 3);

    // Initial order (MRU → LRU): c, b, a
    assert_eq!(cache.keys_lru(), vec!["c", "b", "a"]);

    // Fetch "a" — promotes it to front
    let _ = cache.fetch(&"a");
    assert_eq!(cache.keys_lru(), vec!["a", "c", "b"]);

    // Insert "d" — goes to front
    cache.insert("d", 4);
    assert_eq!(cache.keys_lru(), vec!["d", "a", "c", "b"]);
}

#[test]
fn test_insert_with_eviction_returns_evicted_value() {
    let mut cache = LruCache::new(2);
    cache.insert("a", 1);
    cache.insert("b", 2);

    // Insert "c" — should evict "a" (LRU)
    let evicted = cache.insert_with_eviction("c", 3);
    assert_eq!(evicted, Some(1));
    assert_eq!(cache.fetch(&"a"), None);
    assert_eq!(cache.fetch(&"b"), Some(2));
    assert_eq!(cache.fetch(&"c"), Some(3));
}

#[test]
fn test_insert_with_eviction_no_eviction() {
    let mut cache: LruCache<&str, i32> = LruCache::new(5);
    cache.insert("a", 1);

    // Room available — no eviction
    let evicted = cache.insert_with_eviction("b", 2);
    assert_eq!(evicted, None);
}

#[test]
fn test_insert_with_eviction_update_no_eviction() {
    let mut cache = LruCache::new(2);
    cache.insert("a", 1);
    cache.insert("b", 2);

    // Updating existing key — no eviction even though at capacity
    let evicted = cache.insert_with_eviction("a", 100);
    assert_eq!(evicted, None);
    assert_eq!(cache.fetch(&"a"), Some(100));
}
