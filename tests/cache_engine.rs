use memcache::cache::cache::Cache;
use memcache::cache::error::CacheError;
use memcache::cache::key::Key;
use memcache::cache::replacement_policy::{CacheReplacementPolicy, Clock, LFU, LRU};
use memcache::cache::storage_structure::{CacheStorageStructure, NaiveStorageStructure};
use memcache::cache::value::Value;

fn key(s: &str) -> Key {
    Key::new(s.to_string())
}

fn val(s: &str) -> Value {
    Value::new(s.to_string())
}

fn lru_cache(capacity: usize) -> Cache<NaiveStorageStructure, LRU> {
    Cache::new(capacity, NaiveStorageStructure::new(), LRU::new())
}

fn hit(cache: &mut Cache<NaiveStorageStructure, impl CacheReplacementPolicy>, k: &str) -> Option<String> {
    cache.get(key(k)).map(|e| e.value.item)
}

#[test]
fn lru_no_eviction_when_everything_fits() {
    let mut cache = lru_cache(20);
    cache.set(key("a"), val("1")).unwrap();
    cache.set(key("b"), val("22")).unwrap();
    cache.set(key("c"), val("333")).unwrap();
    assert_eq!(cache.storage_structure.size(), 9);
    assert_eq!(hit(&mut cache, "a"), Some("1".to_string()));
    cache.set(key("d"), val("4444")).unwrap();
    assert_eq!(cache.metrics.evictions, 0);
    assert_eq!(cache.storage_structure.size(), 14);
    assert_eq!(hit(&mut cache, "a"), Some("1".to_string()));
    assert_eq!(hit(&mut cache, "b"), Some("22".to_string()));
    assert_eq!(hit(&mut cache, "c"), Some("333".to_string()));
    assert_eq!(hit(&mut cache, "d"), Some("4444".to_string()));
}

#[test]
fn lru_evicts_least_recent() {
    let mut cache = lru_cache(10);
    cache.set(key("a"), val("1")).unwrap();
    cache.set(key("b"), val("22")).unwrap();
    cache.set(key("c"), val("333")).unwrap();
    assert_eq!(cache.storage_structure.size(), 9);
    cache.set(key("d"), val("44")).unwrap();
    assert_eq!(cache.storage_structure.size(), 10);
    assert_eq!(cache.metrics.evictions, 1);
    assert_eq!(hit(&mut cache, "a"), None);
    assert_eq!(hit(&mut cache, "b"), Some("22".to_string()));
    assert_eq!(hit(&mut cache, "c"), Some("333".to_string()));
    assert_eq!(hit(&mut cache, "d"), Some("44".to_string()));
}

#[test]
fn lfu_evicts_least_frequent() {
    let mut cache = Cache::new(10, NaiveStorageStructure::new(), LFU::new());
    cache.set(key("x"), val("1")).unwrap();
    cache.set(key("y"), val("1")).unwrap();
    cache.set(key("z"), val("1")).unwrap();
    assert_eq!(cache.storage_structure.size(), 6);
    for _ in 0..3 {
        assert!(hit(&mut cache, "x").is_some());
    }
    assert!(hit(&mut cache, "y").is_some());
    cache.set(key("w"), val("11111")).unwrap();
    assert_eq!(cache.storage_structure.size(), 10);
    assert_eq!(hit(&mut cache, "z"), None);
    assert!(hit(&mut cache, "x").is_some());
    assert!(hit(&mut cache, "y").is_some());
    assert_eq!(hit(&mut cache, "w"), Some("11111".to_string()));
}

#[test]
fn clock_gives_touched_entry_second_chance() {
    let mut cache = Cache::new(10, NaiveStorageStructure::new(), Clock::new());
    cache.set(key("a"), val("1")).unwrap();
    cache.set(key("b"), val("1")).unwrap();
    cache.set(key("c"), val("1")).unwrap();
    assert!(hit(&mut cache, "a").is_some());
    cache.set(key("d"), val("11111")).unwrap();
    assert!(cache.storage_structure.size() <= 10);
    assert_eq!(hit(&mut cache, "a"), Some("1".to_string()));
    assert_eq!(hit(&mut cache, "b"), None);
    assert_eq!(hit(&mut cache, "c"), Some("1".to_string()));
    assert_eq!(hit(&mut cache, "d"), Some("11111".to_string()));
    assert_eq!(cache.metrics.evictions, 1);
    assert_eq!(cache.storage_structure.size(), 10);
}

#[test]
fn capacity_bound_holds_over_sets_and_deletes() {
    let mut cache = lru_cache(12);
    let words = ["k1", "key2", "k3", "longerkey", "k5", "k1", "x"];
    let values = ["v", "value", "vv", "a", "bbbbbb", "cc", "ddddddddd"];
    for (i, (k, v)) in words.iter().zip(values.iter()).enumerate() {
        cache.set(key(k), val(v)).unwrap();
        assert!(cache.storage_structure.size() <= 12);
        if i % 3 == 2 {
            cache.remove(key(words[i - 1]));
            assert!(cache.storage_structure.size() <= 12);
        }
    }
}

#[test]
fn size_is_sum_of_entry_lengths() {
    let mut storage = NaiveStorageStructure::new();
    storage.set(key("ab"), val("cde"));
    storage.set(key("f"), val(""));
    storage.set(key("ghij"), val("k"));
    storage.remove(key("f"));
    let mut sum = 0;
    for i in 0..4 {
        if let Some((_, e)) = storage.get_index(i) {
            sum += e.len();
        }
    }
    assert_eq!(storage.size(), sum);
    assert_eq!(storage.size(), 10);
}

#[test]
fn policy_follows_storage_slots() {
    let mut cache = Cache::new(8, NaiveStorageStructure::new(), LFU::new());
    cache.set(key("a"), val("1")).unwrap();
    cache.set(key("b"), val("2")).unwrap();
    cache.set(key("c"), val("3")).unwrap();
    cache.set(key("d"), val("4")).unwrap();
    cache.set(key("e"), val("5")).unwrap();
    cache.remove(key("c"));
    let mut live = 0;
    for i in 0..8 {
        if cache.storage_structure.get_index(i).is_some() {
            live += 1;
        }
    }
    let mut evicted = 0;
    while cache.replacement_policy.evict_next().is_ok() {
        evicted += 1;
    }
    assert_eq!(live, evicted);
}

#[test]
fn overwrite_keeps_slot() {
    let mut storage = NaiveStorageStructure::new();
    storage.set(key("a"), val("1"));
    let (first, old) = storage.set(key("k"), val("v1"));
    assert!(old.is_none());
    storage.set(key("b"), val("2"));
    let (second, old) = storage.set(key("k"), val("value2"));
    assert_eq!(first, second);
    assert_eq!(old.unwrap().value.item, "v1");
    assert_eq!(storage.size(), 2 + 7 + 2);
}

#[test]
fn get_after_set_round_trip() {
    let mut cache = lru_cache(6);
    cache.set(key("abc"), val("xyz")).unwrap();
    let e = cache.get(key("abc")).unwrap();
    assert_eq!(e.key, key("abc"));
    assert_eq!(e.value, val("xyz"));
}

#[test]
fn delete_twice_leaves_same_contents() {
    let mut cache = lru_cache(20);
    cache.set(key("a"), val("1")).unwrap();
    cache.set(key("b"), val("2")).unwrap();
    cache.remove(key("a"));
    let size = cache.storage_structure.size();
    assert_eq!(cache.metrics.hit_count_delete, 1);
    cache.remove(key("a"));
    assert_eq!(cache.storage_structure.size(), size);
    assert!(!cache.contains(key("a")));
    assert!(cache.contains(key("b")));
    assert_eq!(cache.metrics.miss_count_delete, 1);
}

#[test]
fn oversized_entry_fails_without_eviction() {
    let mut cache = lru_cache(5);
    cache.set(key("a"), val("1")).unwrap();
    assert_eq!(cache.set(key("big"), val("123")), Err(CacheError::EvictionFailure));
    assert!(cache.contains(key("a")));
    assert_eq!(cache.metrics.evictions, 0);
    assert_eq!(cache.metrics.miss_count_set, 2);
}

#[test]
fn entry_of_exactly_capacity_fits_after_draining() {
    let mut cache = lru_cache(5);
    cache.set(key("a"), val("1")).unwrap();
    cache.set(key("b"), val("2")).unwrap();
    cache.set(key("c"), val("3456")).unwrap();
    assert_eq!(cache.storage_structure.size(), 5);
    assert_eq!(cache.metrics.evictions, 2);
    assert!(!cache.contains(key("a")));
    assert!(!cache.contains(key("b")));
}

#[test]
fn overwrite_counts_set_hit_and_adjusts_size() {
    let mut cache = lru_cache(20);
    cache.set(key("a"), val("1")).unwrap();
    cache.set(key("a"), val("12345")).unwrap();
    assert_eq!(cache.metrics.hit_count_set, 1);
    assert_eq!(cache.metrics.miss_count_set, 1);
    assert_eq!(cache.storage_structure.size(), 6);
    assert_eq!(hit(&mut cache, "a"), Some("12345".to_string()));
}

#[test]
fn get_counts_hits_and_misses() {
    let mut cache = lru_cache(20);
    cache.set(key("a"), val("1")).unwrap();
    assert!(cache.get(key("a")).is_some());
    assert!(cache.get(key("zz")).is_none());
    assert_eq!(cache.metrics.hit_count_get, 1);
    assert_eq!(cache.metrics.miss_count_get, 1);
}

#[test]
fn new_cache_has_defaults() {
    let cache = lru_cache(360);
    assert_eq!(cache.capacity, 360);
    assert_eq!(cache.item_lifetime, 60000);
    assert_eq!(cache.max_key_len, 256);
    assert_eq!(cache.max_val_len, 512);
    assert_eq!(cache.metrics.evictions, 0);
}
