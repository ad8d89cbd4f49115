use bounded_cache::cache::Cache;
use bounded_cache::config::Config;

#[test]
fn test_config_new() {
    let config = Config::new();
    assert_eq!(config.port, 8080);
}

#[test]
fn test_cache() {
    let mut cache = Cache::new(2);
    cache.insert("key1".to_string(), "value1");
    assert_eq!(cache.get("key1"), Some(&"value1"));
}

#[test]
fn config_new_all_fields() {
    let config = Config::new();
    assert_eq!(config.host, "localhost");
    assert_eq!(config.port, 8080);
    assert_eq!(config.database_url, "postgres://localhost/mydb");
    assert_eq!(config.max_connections, 10);
}

#[test]
fn insert_below_capacity_grows_by_one() {
    let mut cache: Cache<i32> = Cache::new(3);
    assert_eq!(cache.len(), 0);
    assert_eq!(cache.insert("a".to_string(), 1), None);
    assert_eq!(cache.len(), 1);
    assert_eq!(cache.insert("b".to_string(), 2), None);
    assert_eq!(cache.len(), 2);
    assert_eq!(cache.get("a"), Some(&1));
    assert_eq!(cache.get("b"), Some(&2));
}

#[test]
fn insert_present_key_overwrites_without_growth() {
    let mut cache: Cache<i32> = Cache::new(2);
    assert_eq!(cache.insert("a".to_string(), 1), None);
    let prev = cache.insert("a".to_string(), 2);
    assert_eq!(prev, Some(1));
    assert_eq!(cache.len(), 1);
    assert_eq!(cache.get("a"), Some(&2));
}

#[test]
fn insert_at_capacity_evicts_one_entry() {
    let mut cache: Cache<i32> = Cache::new(2);
    cache.insert("a".to_string(), 1);
    cache.insert("b".to_string(), 2);
    cache.insert("c".to_string(), 3);
    assert_eq!(cache.len(), 2);
    assert_eq!(cache.get("c"), Some(&3));
    let a_there = cache.get("a").is_some();
    let b_there = cache.get("b").is_some();
    // exactly one of the two older keys was evicted
    assert!(a_there != b_there);
}

#[test]
fn insert_present_key_at_capacity_never_evicts() {
    let mut cache: Cache<i32> = Cache::new(2);
    cache.insert("a".to_string(), 1);
    cache.insert("b".to_string(), 2);
    let prev = cache.insert("b".to_string(), 20);
    assert_eq!(prev, Some(2));
    assert_eq!(cache.len(), 2);
    assert_eq!(cache.get("a"), Some(&1));
    assert_eq!(cache.get("b"), Some(&20));
}

#[test]
fn zero_capacity_stores_nothing() {
    let mut cache: Cache<i32> = Cache::new(0);
    let prev = cache.insert("a".to_string(), 1);
    assert_eq!(prev, None);
    assert_eq!(cache.len(), 0);
    assert_eq!(cache.get("a"), None);
}

#[test]
fn capacity_bound_holds_over_insert_sequences() {
    let mut cache: Cache<usize> = Cache::new(3);
    for round in 0..4 {
        for (i, key) in ["a", "b", "c", "d", "e"].iter().enumerate() {
            cache.insert(key.to_string(), round * 10 + i);
            assert!(cache.len() <= 3);
        }
    }
}

#[test]
fn clear_forgets_all_entries() {
    let mut cache: Cache<i32> = Cache::new(4);
    cache.insert("a".to_string(), 1);
    cache.insert("b".to_string(), 2);
    cache.clear();
    assert_eq!(cache.len(), 0);
    assert_eq!(cache.get("a"), None);
    assert_eq!(cache.get("b"), None);
    // the capacity is retained: the cache is usable afterwards
    cache.insert("c".to_string(), 3);
    assert_eq!(cache.get("c"), Some(&3));
    assert_eq!(cache.len(), 1);
}

#[test]
fn get_absent_key_is_none() {
    let cache: Cache<i32> = Cache::new(2);
    assert_eq!(cache.get("missing"), None);
}
