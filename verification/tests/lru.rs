use risu::{Cache, ExpirationType, LruCache};
use std::sync::Arc;
use std::time::Duration;

fn cache_of_four() -> LruCache<u32, &'static str> {
    LruCache::<u32, &str>::new(4, Duration::MAX.as_nanos(), ExpirationType::Absolute)
}

#[test]
fn lru_basic() {
    let mut lru = cache_of_four();
    assert!(lru.try_get(&1).is_none());
    assert!(lru.try_add(1, "hello"));
    assert!(!lru.try_add(1, "hello"));
    assert!(lru.try_get(&1).is_some());
}

#[test]
fn lru_trimming() {
    let mut lru = cache_of_four();
    assert!(lru.try_add(1, "h"));
    assert!(lru.try_add(2, "e"));
    assert!(lru.try_add(3, "l"));
    assert!(lru.try_add(4, "l"));
    // Max size is reached, next insertion should evict oldest entry, which is 1
    assert!(lru.try_add(5, "o"));
    assert!(lru.try_get(&1).is_none());
    assert!(lru.try_get(&2).is_some());
    assert!(lru.try_get(&3).is_some());
    assert!(lru.try_get(&4).is_some());
    assert!(lru.try_get(&5).is_some());
}

#[test]
fn reordering() {
    let mut lru = cache_of_four();
    assert!(lru.try_add(1, "h"));
    assert!(lru.try_add(2, "e"));
    assert!(lru.try_add(3, "l"));
    assert!(lru.try_add(4, "l"));
    assert!(lru.try_get(&1).is_some());
    // Max size is reached, next insertion should evict oldest entry, which is 2, because 1 was just accessed
    assert!(lru.try_add(5, "o"));
    assert!(lru.try_get(&1).is_some());
    assert!(lru.try_get(&2).is_none());
    assert!(lru.try_get(&3).is_some());
    assert!(lru.try_get(&4).is_some());
    assert!(lru.try_get(&5).is_some());
}

#[test]
fn add_then_get_returns_the_value() {
    let mut lru = LruCache::<u64, String>::new(2, 1_000, ExpirationType::Absolute);
    assert!(lru.try_add_at(7, Arc::new("seven".to_string()), 10));
    assert_eq!(lru.try_get_at(&7, 20).as_deref(), Some(&"seven".to_string()));
}

#[test]
fn second_add_keeps_the_first_value() {
    let mut lru = LruCache::<u64, &str>::new(2, 1_000, ExpirationType::Absolute);
    assert!(lru.try_add_at(7, Arc::new("first"), 10));
    assert!(!lru.try_add_at(7, Arc::new("second"), 11));
    assert_eq!(lru.try_get_at(&7, 12).as_deref(), Some(&"first"));
    assert_eq!(lru.len(), 1);
}

#[test]
fn a_handed_out_value_is_the_stored_one() {
    let mut lru = LruCache::<u64, &str>::new(2, 1_000, ExpirationType::Absolute);
    let stored = Arc::new("v");
    assert!(lru.try_add_at(1, stored.clone(), 0));
    let found = lru.try_get_at(&1, 0).unwrap();
    assert!(Arc::ptr_eq(&stored, &found));
}

#[test]
fn a_full_cache_takes_one_more_and_evicts_the_least_recent() {
    let mut lru = LruCache::<u8, u8>::new(3, u128::MAX, ExpirationType::Absolute);
    for key in [1u8, 2, 3] {
        assert!(lru.try_add_at(key, Arc::new(key), 0));
    }
    assert_eq!(lru.len(), 3);
    assert!(lru.try_add_at(4, Arc::new(4), 0));
    assert_eq!(lru.len(), 3);
    assert!(lru.try_get_at(&1, 0).is_none());
    assert_eq!(lru.try_get_at(&2, 0).as_deref(), Some(&2));
    assert_eq!(lru.try_get_at(&3, 0).as_deref(), Some(&3));
    assert_eq!(lru.try_get_at(&4, 0).as_deref(), Some(&4));
}

#[test]
fn an_entry_is_live_at_exactly_the_expiration_and_expired_after() {
    let mut lru = LruCache::<u8, u8>::new(3, 100, ExpirationType::Absolute);
    assert!(lru.try_add_at(1, Arc::new(1), 1_000));
    assert!(lru.try_get_at(&1, 1_100).is_some());
    assert!(lru.try_get_at(&1, 1_101).is_none());
    // The late read dropped the entry: the key is new again.
    assert_eq!(lru.len(), 0);
    assert!(lru.try_add_at(1, Arc::new(1), 1_102));
}

#[test]
fn absolute_expiration_is_not_extended_by_reads() {
    let mut lru = LruCache::<u8, u8>::new(3, 100, ExpirationType::Absolute);
    assert!(lru.try_add_at(1, Arc::new(1), 0));
    assert!(lru.try_get_at(&1, 50).is_some());
    assert!(lru.try_get_at(&1, 100).is_some());
    assert!(lru.try_get_at(&1, 101).is_none());
    assert!(lru.try_get_at(&1, 102).is_none());
}

#[test]
fn sliding_expiration_never_expires_a_key_read_every_half_expiration() {
    let mut lru = LruCache::<u8, u8>::new(3, 100, ExpirationType::Sliding);
    assert!(lru.try_add_at(1, Arc::new(1), 0));
    let mut now = 0u128;
    for _ in 0..1_000 {
        now += 50;
        assert!(lru.try_get_at(&1, now).is_some());
    }
    // Left alone for longer than the expiration, it goes.
    assert!(lru.try_get_at(&1, now + 101).is_none());
}

#[test]
fn an_admission_drops_expired_entries_from_the_head() {
    let mut lru = LruCache::<u8, u8>::new(10, 100, ExpirationType::Absolute);
    assert!(lru.try_add_at(1, Arc::new(1), 0));
    assert!(lru.try_add_at(2, Arc::new(2), 10));
    assert!(lru.try_add_at(3, Arc::new(3), 150));
    // 1 was expired at 150 and stood at the head; 2 was expired at 150 too.
    assert_eq!(lru.len(), 1);
    assert!(lru.try_get_at(&3, 150).is_some());
}

#[test]
fn trimming_stops_at_the_first_head_that_may_stay() {
    let mut lru = LruCache::<u8, u8>::new(10, 100, ExpirationType::Sliding);
    assert!(lru.try_add_at(1, Arc::new(1), 0));
    assert!(lru.try_add_at(2, Arc::new(2), 0));
    // Reading 1 makes it the most recent and refreshes it; 2 becomes the head.
    assert!(lru.try_get_at(&2, 90).is_some());
    assert!(lru.try_get_at(&1, 10).is_some());
    // At 150 the head, 2, is not expired (refreshed at 90), so nothing is
    // dropped, although 1 behind it is.
    assert!(lru.try_add_at(3, Arc::new(3), 150));
    assert_eq!(lru.len(), 3);
}

#[test]
fn a_cache_of_size_zero_holds_nothing() {
    let mut lru = LruCache::<u8, u8>::new(0, u128::MAX, ExpirationType::Absolute);
    assert!(lru.try_add_at(1, Arc::new(1), 0));
    assert!(lru.try_get_at(&1, 0).is_none());
    assert!(lru.try_add_at(1, Arc::new(1), 0));
    assert_eq!(lru.len(), 0);
}

#[test]
fn the_size_is_capped() {
    let lru = LruCache::<u8, u8>::new(usize::MAX, 5, ExpirationType::Sliding);
    assert_eq!(lru.max_size(), usize::MAX / 2);
    assert_eq!(lru.expiration(), 5);
    assert_eq!(lru.expiration_type(), ExpirationType::Sliding);
    let small = LruCache::<u8, u8>::new(17, 5, ExpirationType::Absolute);
    assert_eq!(small.max_size(), 17);
}

#[test]
fn map_and_list_stay_within_the_size_through_many_operations() {
    let mut lru = LruCache::<u32, u32>::new(8, 40, ExpirationType::Sliding);
    let mut state: u32 = 12345;
    for step in 0..5_000u128 {
        state = state.wrapping_mul(1_103_515_245).wrapping_add(12_345);
        let key = (state >> 16) % 24;
        if state % 3 == 0 {
            lru.try_get_at(&key, step);
        } else {
            lru.try_add_at(key, Arc::new(key), step);
        }
        assert!(lru.len() <= 8);
    }
}

#[test]
fn an_entry_outlives_fewer_admissions_than_the_size() {
    let mut lru = LruCache::<u32, &str>::new(4, 1_000, ExpirationType::Absolute);
    assert!(lru.try_add_at(0, Arc::new("old"), 0));
    assert!(lru.try_add_at(7, Arc::new("kept"), 10));
    // Three other keys are admitted: fewer than the size of four.
    for (i, key) in [1u32, 2, 3].iter().enumerate() {
        assert!(lru.try_add_at(*key, Arc::new("other"), 20 + i as u128));
    }
    assert_eq!(lru.try_get_at(&7, 1_010).as_deref(), Some(&"kept"));
}

#[test]
fn an_entry_is_displaced_by_as_many_admissions_as_the_size() {
    let mut lru = LruCache::<u32, &str>::new(4, 1_000, ExpirationType::Absolute);
    assert!(lru.try_add_at(7, Arc::new("kept"), 10));
    for key in [1u32, 2, 3, 4] {
        assert!(lru.try_add_at(key, Arc::new("other"), 20));
    }
    assert!(lru.try_get_at(&7, 30).is_none());
}
