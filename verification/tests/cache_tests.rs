use poe_watcher::cache::ResponseCache;

#[test]
fn entry_lives_exactly_its_ttl() {
    let mut cache = ResponseCache::new();
    cache.put("key", "payload", 1000, 0);
    // retrievable immediately and until just before the expiry
    assert_eq!(cache.get("key", 0), Some("payload".to_string()));
    assert_eq!(cache.get("key", 999), Some("payload".to_string()));
    // absent from the expiry on
    assert_eq!(cache.get("key", 1000), None);
    assert_eq!(cache.get("key", 5000), None);
}

#[test]
fn absent_key_is_a_miss() {
    let cache = ResponseCache::new();
    assert_eq!(cache.get("nothing", 0), None);
}

#[test]
fn overwrite_replaces_payload_and_expiry() {
    let mut cache = ResponseCache::new();
    cache.put("key", "old", 1000, 0);
    cache.put("key", "new", 1000, 500);
    assert_eq!(cache.get("key", 600), Some("new".to_string()));
    // the old expiry no longer applies
    assert_eq!(cache.get("key", 1200), Some("new".to_string()));
    assert_eq!(cache.get("key", 1500), None);
}

#[test]
fn keys_are_independent() {
    let mut cache = ResponseCache::new();
    cache.put("a", "pa", 1000, 0);
    cache.put("b", "pb", 2000, 0);
    assert_eq!(cache.get("a", 100), Some("pa".to_string()));
    assert_eq!(cache.get("b", 100), Some("pb".to_string()));
    // a's expiry does not disturb b
    assert_eq!(cache.get("a", 1500), None);
    assert_eq!(cache.get("b", 1500), Some("pb".to_string()));
}

#[test]
fn expired_entry_is_superseded_by_the_next_write() {
    let mut cache = ResponseCache::new();
    cache.put("key", "first", 100, 0);
    assert_eq!(cache.get("key", 200), None);
    cache.put("key", "second", 100, 300);
    assert_eq!(cache.get("key", 350), Some("second".to_string()));
}
