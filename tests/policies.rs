use memcache::cache::error::CacheError;
use memcache::cache::replacement_policy::{CacheReplacementPolicy, Clock, LFU, LRU};

#[test]
fn lru_order_of_touches() {
    let mut p = LRU::new();
    p.update(3);
    p.update(7);
    p.update(5);
    p.update(3);
    assert_eq!(p.evict_next(), Ok(7));
    p.remove(5);
    assert_eq!(p.evict_next(), Ok(3));
    assert_eq!(p.evict_next(), Err(CacheError::NothingToEvict));
}

#[test]
fn lfu_ties_go_to_lowest_index() {
    let mut p = LFU::new();
    p.update(9);
    p.update(4);
    p.update(6);
    p.update(9);
    assert_eq!(p.evict_next(), Ok(4));
    assert_eq!(p.evict_next(), Ok(6));
    assert_eq!(p.evict_next(), Ok(9));
    assert_eq!(p.evict_next(), Err(CacheError::NothingToEvict));
}

#[test]
fn lfu_remove_forgets_count() {
    let mut p = LFU::new();
    p.update(1);
    p.update(1);
    p.update(2);
    p.remove(1);
    p.update(1);
    assert_eq!(p.evict_next(), Ok(1));
}

#[test]
fn clock_sweeps_and_clears_bits() {
    let mut p = Clock::new();
    p.update(0);
    p.update(1);
    p.update(2);
    p.update(0);
    p.update(1);
    assert_eq!(p.evict_next(), Ok(2));
    assert_eq!(p.evict_next(), Ok(0));
    assert_eq!(p.evict_next(), Ok(1));
    assert_eq!(p.evict_next(), Err(CacheError::NothingToEvict));
}

#[test]
fn clock_all_referenced_evicts_at_hand_after_full_turn() {
    let mut p = Clock::new();
    p.update(10);
    p.update(11);
    p.update(10);
    p.update(11);
    assert_eq!(p.evict_next(), Ok(10));
}

#[test]
fn clock_remove_before_hand_keeps_position() {
    let mut p = Clock::new();
    p.update(0);
    p.update(1);
    p.update(2);
    p.update(0);
    assert_eq!(p.evict_next(), Ok(1));
    p.remove(0);
    assert_eq!(p.evict_next(), Ok(2));
    assert_eq!(p.evict_next(), Err(CacheError::NothingToEvict));
}

#[test]
fn empty_policies_have_nothing_to_evict() {
    assert_eq!(LRU::new().evict_next(), Err(CacheError::NothingToEvict));
    assert_eq!(LFU::new().evict_next(), Err(CacheError::NothingToEvict));
    assert_eq!(Clock::new().evict_next(), Err(CacheError::NothingToEvict));
}
