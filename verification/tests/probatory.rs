use risu::{Cache, ExpirationType, ProbatoryCache};
use std::sync::Arc;
use std::time::Duration;

#[test]
fn probatory_basic() {
    let mut lru = ProbatoryCache::new(4, Duration::MAX.as_nanos(), ExpirationType::Absolute);
    assert!(lru.try_get(&1).is_none());
    assert!(lru.try_add(1, "hello"));
    assert!(lru.try_get(&1).is_none(), "Key should only be in the probatory cache");
    assert!(lru.try_add(1, "hello"));
    assert!(lru.try_get(&1).is_some(), "Key should now be in the resident cache");
    assert!(!lru.try_add(1, "hello"));
}

#[test]
fn probatory_trimming() {
    let mut lru = ProbatoryCache::new(4, Duration::MAX.as_nanos(), ExpirationType::Absolute);
    // Add every entry twice for them to enter the resident cache
    assert!(lru.try_add(1, "h"));
    assert!(lru.try_add(1, "h"));
    assert!(lru.try_add(2, "e"));
    assert!(lru.try_add(2, "e"));
    assert!(lru.try_add(3, "l"));
    assert!(lru.try_add(3, "l"));
    assert!(lru.try_add(4, "l"));
    assert!(lru.try_add(4, "l"));
    // Max size is reached, next insertion should evict oldest entry, which is 1
    assert!(lru.try_add(5, "o"));
    assert!(lru.try_add(5, "o"));
    assert!(lru.try_get(&1).is_none());
    assert!(lru.try_get(&2).is_some());
    assert!(lru.try_get(&3).is_some());
    assert!(lru.try_get(&4).is_some());
    assert!(lru.try_get(&5).is_some());
}

#[test]
fn keys_admitted_once_leave_the_resident_tier_empty() {
    let max_size = 4u64;
    let mut cache = ProbatoryCache::<u64, u64>::new(4, u128::MAX, ExpirationType::Absolute);
    for key in 0..=max_size {
        assert!(cache.try_add_at(key, Arc::new(key), 0));
    }
    for key in 0..=max_size {
        assert!(cache.try_get_at(&key, 0).is_none());
    }
}

#[test]
fn eviction_order_follows_reads() {
    let mut cache = ProbatoryCache::<u32, u32>::new(4, u128::MAX, ExpirationType::Absolute);
    for key in [1u32, 2, 3, 4] {
        assert!(cache.try_add_at(key, Arc::new(key), 0));
        assert!(cache.try_add_at(key, Arc::new(key), 0));
    }
    assert!(cache.try_get_at(&1, 0).is_some());
    assert!(cache.try_add_at(5, Arc::new(5), 0));
    assert!(cache.try_add_at(5, Arc::new(5), 0));
    let present: Vec<u32> =
        (1..=5).filter(|key| cache.try_get_at(key, 0).is_some()).collect();
    assert_eq!(present, vec![1, 3, 4, 5]);
}

#[test]
fn the_value_of_the_promoting_admission_is_kept() {
    let mut cache = ProbatoryCache::<u32, &str>::new(4, u128::MAX, ExpirationType::Absolute);
    assert!(cache.try_add_at(1, Arc::new("first sight"), 0));
    assert!(cache.try_add_at(1, Arc::new("second sight"), 0));
    assert!(!cache.try_add_at(1, Arc::new("third sight"), 0));
    assert_eq!(cache.try_get_at(&1, 0).as_deref(), Some(&"second sight"));
}

#[test]
fn a_key_forgotten_by_the_probatory_tier_starts_over() {
    let mut cache = ProbatoryCache::<u32, u32>::new(4, 100, ExpirationType::Absolute);
    assert!(cache.try_add_at(1, Arc::new(1), 0));
    // The probatory tier counts from the admission as long as the key is
    // not admitted again: at 101 the mark is expired and dropped by the
    // admission of another key.
    assert!(cache.try_add_at(2, Arc::new(2), 101));
    assert!(cache.try_add_at(1, Arc::new(1), 101));
    assert!(cache.try_get_at(&1, 101).is_none());
}

#[test]
fn the_probatory_tier_is_ten_times_the_resident_tier() {
    let mut cache = ProbatoryCache::<u32, u32>::new(1, u128::MAX, ExpirationType::Absolute);
    // Ten keys fit the probatory tier of a resident tier of one.
    for key in 0..10 {
        assert!(cache.try_add_at(key, Arc::new(key), 0));
    }
    // The eleventh displaces key 0, the least recently seen.
    assert!(cache.try_add_at(10, Arc::new(10), 0));
    // Key 1 is still remembered and is promoted.
    assert!(cache.try_add_at(1, Arc::new(1), 0));
    assert!(cache.try_get_at(&1, 0).is_some());
    // Key 0 was forgotten: it is new to the probatory tier again.
    assert!(cache.try_add_at(0, Arc::new(0), 0));
    assert!(cache.try_get_at(&0, 0).is_none());
}

#[test]
fn complete_miss_shares_the_value_and_passes_errors_on() {
    let mut cache = ProbatoryCache::<u32, String>::new(4, u128::MAX, ExpirationType::Absolute);
    let failed: Result<Arc<String>, &str> = cache.complete_miss(1, Err("origin down"));
    assert_eq!(failed, Err("origin down"));
    // The failure left no trace: the next success is a first sight.
    let first: Result<Arc<String>, &str> = cache.complete_miss(1, Ok("reply".to_string()));
    assert_eq!(first.unwrap().as_str(), "reply");
    assert!(cache.try_get(&1).is_none());
    let second: Result<Arc<String>, &str> = cache.complete_miss(1, Ok("reply".to_string()));
    assert_eq!(second.unwrap().as_str(), "reply");
    assert_eq!(cache.try_get(&1).unwrap().as_str(), "reply");
}
