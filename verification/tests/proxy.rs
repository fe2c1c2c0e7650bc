use risu::fingerprint::fingerprint;
use risu::proxy::{begin, decide, finish, request_key, Action, ProxyError};
use risu::caches::probatory::{limits_for, probatory_size_for};
use risu::{BufferedBody, ExpirationType, RisuConfiguration, ShardedCache};
use std::time::{Duration, Instant};
use std::sync::Arc;

#[test]
fn the_defaults_are_the_documented_ones() {
    let configuration = RisuConfiguration::default();
    assert_eq!(configuration.in_memory_shards, 8);
    assert_eq!(configuration.cache_resident_size, 100_000);
    assert_eq!(configuration.cache_probatory_size, 1_000_000);
    assert_eq!(configuration.cache_ttl_seconds, 600);
    assert_eq!(configuration.listening_port, 3001);
    assert!(configuration.http2);
    assert!(configuration.target_addresses.is_empty());
    assert_eq!(configuration.prometheus_port, None);
    assert_eq!(configuration.healthcheck_port, None);
    assert_eq!(configuration.max_idle_connections_per_host, 4);
}

#[test]
fn the_lifetime_comes_from_the_configuration() {
    let mut configuration = RisuConfiguration::default();
    assert_eq!(configuration.expiration(), 600_000_000_000);
    configuration.cache_ttl_seconds = 1;
    assert_eq!(configuration.expiration(), 1_000_000_000);
    configuration.cache_ttl_seconds = usize::MAX;
    assert_eq!(configuration.expiration(), usize::MAX as u128 * 1_000_000_000);
}

#[test]
fn the_cache_is_built_from_the_configuration() {
    let mut configuration = RisuConfiguration::default();
    configuration.in_memory_shards = 3;
    configuration.cache_resident_size = 1;
    let cache = configuration.build_cache::<u8>();
    let mut seen = [false; 3];
    for key in 0..64u128 {
        seen[cache.shard_index(&key)] = true;
    }
    assert_eq!(seen, [true, true, true]);
}

#[test]
fn a_hit_is_served_and_a_miss_is_forwarded_to_the_drawn_backend() {
    let hit = decide(Some(Arc::new(5u8)), 0, 0);
    assert!(matches!(hit, Ok(Action::Serve(value)) if *value == 5));
    let miss = decide::<u8>(None, 3, 2);
    assert!(matches!(miss, Ok(Action::Forward { backend: 2 })));
    let out_of_range = decide::<u8>(None, 3, 3);
    assert!(matches!(out_of_range, Err(ProxyError::NoBackend)));
    let none = decide::<u8>(None, 0, 0);
    assert!(matches!(none, Err(ProxyError::NoBackend)));
}

#[test]
fn a_request_goes_to_some_backend_until_its_answer_is_resident() {
    let cache = ShardedCache::<String>::new(8, 4, u128::MAX, ExpirationType::Absolute);
    let key = 77u128;
    let mut misses = 0;
    let mut replies = Vec::new();
    let mut drawn = [false; 3];
    for _ in 0..3 {
        let reply = match begin(&cache, key, 3) {
            Ok(Action::Serve(reply)) => reply,
            Ok(Action::Forward { backend }) => {
                assert!(backend < 3);
                drawn[backend] = true;
                misses += 1;
                let answer: Result<String, ()> = Ok("reply".to_string());
                finish(&cache, key, answer).unwrap()
            }
            Err(e) => panic!("unexpected {:?}", e),
        };
        replies.push(reply);
    }
    assert_eq!(misses, 2);
    assert!(replies.iter().all(|reply| reply.as_str() == "reply"));
    assert!(drawn.iter().any(|d| *d));
}

#[test]
fn every_backend_is_drawn_sooner_or_later() {
    let cache = ShardedCache::<u8>::new(1, 4, u128::MAX, ExpirationType::Absolute);
    let mut drawn = [false; 4];
    for _ in 0..10_000 {
        if let Ok(Action::Forward { backend }) = begin(&cache, 1, 4) {
            drawn[backend] = true;
        }
    }
    assert_eq!(drawn, [true; 4]);
}

#[test]
fn a_miss_without_backends_is_an_error() {
    let cache = ShardedCache::<u8>::new(1, 4, u128::MAX, ExpirationType::Absolute);
    assert!(matches!(begin(&cache, 1, 0), Err(ProxyError::NoBackend)));
}

#[test]
fn a_failed_forward_is_a_bad_gateway_and_is_not_admitted() {
    let cache = ShardedCache::<u8>::new(1, 4, u128::MAX, ExpirationType::Absolute);
    let refused: Result<u8, String> = Err("connection refused".to_string());
    assert_eq!(finish(&cache, 1, refused), Err(ProxyError::BadGateway));
    assert!(finish::<u8, String>(&cache, 1, Ok(1)).is_ok());
    assert!(cache.try_get2(&1).is_none());
    assert!(finish::<u8, String>(&cache, 1, Ok(1)).is_ok());
    assert_eq!(cache.try_get2(&1).as_deref(), Some(&1));
}

#[test]
fn a_request_without_a_path_is_malformed() {
    let body = BufferedBody::from_bytes(b"body");
    assert_eq!(request_key(b"", Some(b"q"), None, &body), Err(ProxyError::MalformedRequest));
    assert_eq!(
        request_key(b"/", Some(b"q"), None, &body),
        Ok(fingerprint(b"/", Some(b"q"), None, &body))
    );
}

#[test]
fn each_error_has_its_status() {
    assert_eq!(ProxyError::MalformedRequest.status(), 400);
    assert_eq!(ProxyError::NoBackend.status(), 502);
    assert_eq!(ProxyError::BadGateway.status(), 502);
}

#[test]
fn the_cache_has_the_limits_of_the_configuration() {
    let mut configuration = RisuConfiguration::default();
    let limits = configuration.build_cache::<u8>().limits();
    assert_eq!(limits.max_size, 100_000);
    assert_eq!(limits.probatory_max_size, 1_000_000);
    assert_eq!(limits.expiration, 600_000_000_000);
    assert_eq!(limits.expiration_type, ExpirationType::Absolute);
    configuration.cache_resident_size = 7;
    configuration.cache_ttl_seconds = 3;
    // The probatory size of the settings has no say: it is ten times the
    // resident size.
    configuration.cache_probatory_size = 5;
    let limits = configuration.build_cache::<u8>().limits();
    assert_eq!(limits.max_size, 7);
    assert_eq!(limits.probatory_max_size, 70);
    assert_eq!(limits.expiration, 3_000_000_000);
}

#[test]
fn limits_are_capped_at_what_a_cache_can_hold() {
    assert_eq!(probatory_size_for(4), 40);
    assert_eq!(probatory_size_for(usize::MAX / 10 + 1), usize::MAX);
    let limits = limits_for(usize::MAX, 9, ExpirationType::Sliding);
    assert_eq!(limits.max_size, usize::MAX / 2);
    assert_eq!(limits.probatory_max_size, usize::MAX / 2);
    assert_eq!(limits.expiration, 9);
    assert_eq!(limits.expiration_type, ExpirationType::Sliding);
    let cache = ShardedCache::<u8>::new(2, 3, 11, ExpirationType::Sliding);
    assert_eq!(cache.limits(), limits_for(3, 11, ExpirationType::Sliding));
}

/// Waits until the clocks have moved on.
fn let_time_pass() {
    let start = Instant::now();
    while start.elapsed() < Duration::from_millis(2) {}
}

fn warm(cache: &ShardedCache<u8>, key: u128) {
    for _ in 0..2 {
        let reply: Result<u8, ()> = Ok(1);
        finish(cache, key, reply).unwrap();
    }
}

#[test]
fn the_configured_lifetime_is_the_one_that_entries_have() {
    let mut configuration = RisuConfiguration::default();
    configuration.cache_ttl_seconds = 0;
    let short_lived = configuration.build_cache::<u8>();
    configuration.cache_ttl_seconds = 600;
    let long_lived = configuration.build_cache::<u8>();
    warm(&short_lived, 5);
    warm(&long_lived, 5);
    let_time_pass();
    assert!(short_lived.try_get2(&5).is_none());
    assert_eq!(long_lived.try_get2(&5).as_deref(), Some(&1));
}

#[test]
fn the_configured_size_is_the_one_that_shards_have() {
    let mut configuration = RisuConfiguration::default();
    configuration.in_memory_shards = 1;
    configuration.cache_resident_size = 2;
    let cache = configuration.build_cache::<u8>();
    for key in [1u128, 2, 3] {
        warm(&cache, key);
    }
    // The resident tier holds two: the first key was displaced.
    assert!(cache.try_get2(&1).is_none());
    assert!(cache.try_get2(&2).is_some());
    assert!(cache.try_get2(&3).is_some());
    // The probatory tier holds twenty: of twenty-one keys seen once, the
    // first is forgotten and the second is remembered.
    let cache = configuration.build_cache::<u8>();
    for key in 100u128..121 {
        assert!(cache.try_add_arc2(key, std::sync::Arc::new(0)));
    }
    assert!(cache.try_add_arc2(101, std::sync::Arc::new(0)));
    assert!(cache.try_get2(&101).is_some());
    assert!(cache.try_add_arc2(100, std::sync::Arc::new(0)));
    assert!(cache.try_get2(&100).is_none());
}
