use memcache::cache::data_entry::DataEntry;
use memcache::cache::key::Key;
use memcache::cache::replacement_policy::{CacheReplacementPolicy, Clock, LRU};
use memcache::cache::storage_structure::{CacheStorageStructure, NaiveStorageStructure};
use memcache::cache::value::Value;

#[test]
fn lengths_count_bytes() {
    assert_eq!(Key::new("ключ".to_string()).len(), 8);
    assert_eq!(Value::new("abc".to_string()).len(), 3);
    let e = DataEntry::new(Key::new("ab".to_string()), Value::new("✓".to_string()));
    assert_eq!(e.len(), 5);
}

#[test]
fn version_counter_advances() {
    let mut v = Value::new("x".to_string());
    assert_eq!(v.cas, 0);
    v.inc_cas();
    v.inc_cas();
    assert_eq!(v.cas, 2);
    v.cas = u64::MAX;
    v.inc_cas();
    assert_eq!(v.cas, u64::MAX);
}

#[test]
fn freed_slot_is_reused_and_others_stay() {
    let mut s = NaiveStorageStructure::new();
    let (a, _) = s.set(Key::new("a".to_string()), Value::new("1".to_string()));
    let (b, _) = s.set(Key::new("b".to_string()), Value::new("2".to_string()));
    let (c, _) = s.set(Key::new("c".to_string()), Value::new("3".to_string()));
    assert_eq!((a, b, c), (0, 1, 2));
    let (removed, entry) = s.remove(Key::new("b".to_string())).unwrap();
    assert_eq!(removed, 1);
    assert_eq!(entry.value.item, "2");
    assert_eq!(s.get(Key::new("c".to_string())).unwrap().0, 2);
    let (d, _) = s.set(Key::new("d".to_string()), Value::new("4".to_string()));
    assert_eq!(d, 1);
    assert!(s.remove_index(7).is_none());
    assert!(s.get_index(5).is_none());
    assert_eq!(s.size(), 6);
}

#[test]
fn removing_unknown_index_changes_nothing() {
    let mut p = LRU::new();
    p.update(1);
    p.remove(9);
    assert_eq!(p.evict_next(), Ok(1));
    let mut c = Clock::new();
    c.update(1);
    c.remove(9);
    assert_eq!(c.evict_next(), Ok(1));
}
