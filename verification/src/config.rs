//! The settings of the proxy, with their defaults, and what the cache is
//! made of from them.

use crate::caches::probatory::spec_limits_for;
use crate::caches::sharded::ShardedCache;
use crate::caches::ExpirationType;
use vstd::prelude::*;

verus! {

/// The nanoseconds in a second.
pub const NANOS_PER_SECOND: u128 = 1_000_000_000;

/// The settings of the proxy.
#[derive(Debug, Clone)]
pub struct RisuConfiguration {
    /// The number of partitions of the cache.
    pub in_memory_shards: u16,
    /// The size of each partition's resident tier.
    pub cache_resident_size: usize,
    /// The size of each partition's probatory tier. It is kept for the
    /// record: the probatory tier is always ten times the resident tier.
    pub cache_probatory_size: usize,
    /// The lifetime of an entry, in seconds.
    pub cache_ttl_seconds: usize,
    /// The port that requests come in at.
    pub listening_port: u16,
    /// Whether requests come in over HTTP/2.
    pub http2: bool,
    /// The backends, each as host and port. One is drawn for each miss.
    pub target_addresses: Vec<String>,
    /// The port of the metrics endpoint, if there is one.
    pub prometheus_port: Option<u16>,
    /// The port of the liveness probe, if there is one.
    pub healthcheck_port: Option<u16>,
    /// Kept for a pool of connections to the backends.
    pub max_idle_connections_per_host: u16,
}

impl Default for RisuConfiguration {
    fn default() -> (configuration: Self)
        ensures
            configuration.in_memory_shards == 8,
            configuration.cache_resident_size == 100_000,
            configuration.cache_probatory_size == 1_000_000,
            configuration.cache_ttl_seconds == 600,
            configuration.listening_port == 3001,
            configuration.http2,
            configuration.target_addresses@.len() == 0,
            configuration.prometheus_port is None,
            configuration.healthcheck_port is None,
            configuration.max_idle_connections_per_host == 4,
    {
        Self {
            in_memory_shards: 8,
            cache_resident_size: 100_000,
            cache_probatory_size: 1_000_000,
            cache_ttl_seconds: 600,
            listening_port: 3001,
            http2: true,
            target_addresses: Vec::new(),
            prometheus_port: None,
            healthcheck_port: None,
            max_idle_connections_per_host: 4,
        }
    }
}

impl RisuConfiguration {
    /// The lifetime of an entry in nanoseconds.
    pub open spec fn spec_expiration(&self) -> u128 {
        (self.cache_ttl_seconds * NANOS_PER_SECOND) as u128
    }

    /// The lifetime of an entry in nanoseconds.
    pub fn expiration(&self) -> (expiration: u128)
        ensures
            expiration == self.spec_expiration(),
            expiration == self.cache_ttl_seconds * NANOS_PER_SECOND,
    {
        let seconds: u128 = self.cache_ttl_seconds as u128;
        assert(seconds * NANOS_PER_SECOND <= u128::MAX) by (nonlinear_arith)
            requires
                seconds <= u64::MAX,
                NANOS_PER_SECOND == 1_000_000_000,
        ;
        seconds * NANOS_PER_SECOND
    }

    /// The cache that these settings describe: as many shards as they say, at
    /// least one, each with a resident tier of the size they say and a
    /// probatory tier of ten times that, and entries that live for the time
    /// they say, counted from the admission.
    pub fn build_cache<V>(&self) -> (cache: ShardedCache<V>)
        ensures
            cache.wf(),
            cache.shard_count() == (if self.in_memory_shards < 1 {
                1
            } else {
                self.in_memory_shards as int
            }),
            cache.spec_limits() == spec_limits_for(
                self.cache_resident_size,
                self.spec_expiration(),
                ExpirationType::Absolute,
            ),
    {
        ShardedCache::new(
            self.in_memory_shards as usize,
            self.cache_resident_size,
            self.expiration(),
            ExpirationType::Absolute,
        )
    }
}

} // verus!
