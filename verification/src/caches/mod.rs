//! The caches: a recency-ordered cache with expiration, the admission filter
//! built from two of them, and the sharded cache over the filter.

pub mod lru;
pub mod model;
pub mod probatory;
pub mod sharded;

use std::sync::Arc;
use vstd::prelude::*;

verus! {

/// How the lifetime of an entry is counted.
#[derive(Debug, Clone, Copy, PartialEq, Eq, Structural)]
pub enum ExpirationType {
    /// From the admission: reads do not extend it.
    Absolute,
    /// From the last successful read.
    Sliding,
}

/// A cache of shared values that reads the time from a clock of its own.
///
/// What an operation does depends on the time at which it is made. Each cache
/// says with `admits` and `reads` what an admission and a read may make of
/// it, for whatever time its clock showed, and offers the operations with the
/// time as an argument beside these.
pub trait Cache<K, V>: Sized {
    /// The cache's invariant.
    spec fn valid(&self) -> bool;

    /// An admission of `key` with `value` may leave the cache as `next` and
    /// return `added`.
    spec fn admits(&self, key: K, value: Arc<V>, next: &Self, added: bool) -> bool;

    /// A read of `key` may leave the cache as `next` and return `found`.
    spec fn reads(&self, key: K, next: &Self, found: Option<Arc<V>>) -> bool;

    /// Admits `key` with a value that is not shared yet. True when the cache
    /// took the key.
    fn try_add(&mut self, key: K, value: V) -> (added: bool)
        requires
            old(self).valid(),
        ensures
            final(self).valid(),
            exists|shared: Arc<V>|
                *shared == value && #[trigger] old(self).admits(key, shared, final(self), added),
    {
        let shared = Arc::new(value);
        let added = self.try_add_arc(key, shared);
        proof {
            assert(old(self).admits(key, shared, self, added));
        }
        added
    }

    /// Admits `key`. True when the cache took the key.
    fn try_add_arc(&mut self, key: K, value: Arc<V>) -> (added: bool)
        requires
            old(self).valid(),
        ensures
            final(self).valid(),
            old(self).admits(key, value, final(self), added),
    ;

    /// The value held for `key`, if there is one that is not expired.
    fn try_get(&mut self, key: &K) -> (found: Option<Arc<V>>)
        requires
            old(self).valid(),
        ensures
            final(self).valid(),
            old(self).reads(*key, final(self), found),
    ;

    /// Ends a miss: `outcome` is what computing the value for `key` gave. A
    /// value is shared, offered to the cache and returned, whether or not the
    /// cache took it; an error is returned and the cache is left as it was.
    fn complete_miss<E>(&mut self, key: K, outcome: Result<V, E>) -> (r: Result<Arc<V>, E>)
        requires
            old(self).valid(),
        ensures
            final(self).valid(),
            match outcome {
                Ok(value) => r matches Ok(shared) && *shared == value && exists|added: bool| #[trigger]
                    old(self).admits(key, shared, final(self), added),
                Err(e) => r == Err::<Arc<V>, E>(e) && *final(self) == *old(self),
            },
    {
        match outcome {
            Ok(value) => {
                let shared = Arc::new(value);
                let added = self.try_add_arc(key, lru::share(&shared));
                proof {
                    assert(old(self).admits(key, shared, self, added));
                }
                Ok(shared)
            },
            Err(e) => Err(e),
        }
    }
}

} // verus!
