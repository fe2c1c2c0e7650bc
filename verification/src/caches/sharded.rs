//! A fixed number of admission filters, each behind a lock of its own. A key
//! belongs to the shard that a stable hash of the key selects.

use crate::caches::probatory::{
    limits_for, spec_limits_for, ProbatoryCache, ProbatoryLimits, ProbatoryView,
};
use crate::caches::Cache;
use crate::caches::ExpirationType;
use crate::clock::Clock;
use std::collections::hash_map::DefaultHasher;
use std::hash::Hasher;
use std::sync::Arc;
use std::sync::Mutex;
use std::sync::MutexGuard;
use vstd::prelude::*;
use vstd::std_specs::hash::DefaultHasherAdditionalSpecFns;

verus! {

/// `std::sync::Mutex`. What it guards is not visible to the proofs.
#[verifier::external_type_specification]
#[verifier::external_body]
#[verifier::reject_recursive_types(T)]
pub struct ExMutex<T: ?Sized>(Mutex<T>);

/// `std::sync::MutexGuard`, the held lock. It is unlocked when it is dropped.
#[verifier::external_type_specification]
#[verifier::external_body]
#[verifier::reject_recursive_types(T)]
pub struct ExMutexGuard<'a, T: ?Sized + 'a>(MutexGuard<'a, T>);

/// `Mutex::new`: a lock around `value`. What a lock holds is not visible to
/// the proofs, so nothing is claimed.
#[verifier::external_body]
fn mutex_new<T>(value: T) -> Mutex<T> {
    Mutex::new(value)
}

/// `Mutex::lock`: waits for the lock. A poisoned lock is taken all the same.
/// Nothing is claimed of what the guard gives access to: another thread may
/// have changed it.
#[verifier::external_body]
fn mutex_lock<'a, T>(mutex: &'a Mutex<T>) -> MutexGuard<'a, T> {
    match mutex.lock() {
        Ok(guard) => guard,
        Err(poisoned) => poisoned.into_inner(),
    }
}

/// `MutexGuard::deref_mut`: the value behind the lock.
#[verifier::external_body]
fn guard_mut<'a, 'b, T>(guard: &'a mut MutexGuard<'b, T>) -> &'a mut T {
    &mut **guard
}

/// The hash that selects a key's shard: the standard hasher with its fixed
/// keys, fed the key's sixteen bytes, least significant first.
pub open spec fn spec_stable_hash(key: u128) -> u64 {
    DefaultHasher::spec_finish(seq![vstd::bytes::spec_u128_to_le_bytes(key)])
}

/// The shard that owns `key` among `shards`.
pub open spec fn shard_of(key: u128, shards: int) -> int {
    spec_stable_hash(key) as int % shards
}

/// Every key has one shard among `shards`. The shard depends on the key and
/// on the number of shards, and on nothing else.
pub proof fn lemma_every_key_has_one_shard(key: u128, shards: int)
    requires
        shards >= 1,
    ensures
        0 <= shard_of(key, shards) < shards,
{
}

/// The stable hash of `key`.
pub fn stable_hash(key: u128) -> (hash: u64)
    ensures
        hash == spec_stable_hash(key),
{
    let bytes = vstd::bytes::u128_to_le_bytes(key);
    let mut hasher = DefaultHasher::new();
    hasher.write(bytes.as_slice());
    proof {
        assert(hasher@ =~= seq![vstd::bytes::spec_u128_to_le_bytes(key)]);
    }
    hasher.finish()
}

/// The index of the shard that owns `key` among `shards`.
pub fn shard_index(key: u128, shards: usize) -> (index: usize)
    requires
        shards >= 1,
    ensures
        index == shard_of(key, shards as int),
        index < shards,
{
    let hash = stable_hash(key);
    (hash % (shards as u64)) as usize
}

/// One partition of the cache: what a lock guards. It is empty only while an
/// operation has its filter in hand.
pub struct Shard<V> {
    cache: Option<ProbatoryCache<u128, V>>,
}

impl<V> Shard<V> {
    #[verifier::type_invariant]
    spec fn inv(self) -> bool {
        self.cache matches Some(cache) ==> cache.wf()
    }

    /// The state of the shard's filter, if the shard holds it.
    pub closed spec fn state(&self) -> Option<ProbatoryView<u128, V>> {
        match self.cache {
            Some(cache) => Some(cache@),
            None => None,
        }
    }

    /// The limits of the shard's filter, if the shard holds it.
    pub closed spec fn limits(&self) -> Option<ProbatoryLimits> {
        match self.cache {
            Some(cache) => Some(cache.limits()),
            None => None,
        }
    }

    /// An admission of `key` with `value` at `now` takes a shard from this
    /// state to `next` and returns `added`. A shard that holds its filter
    /// holds it well-formed and within its limits, and the admission is the
    /// filter's; a shard whose filter is in hand admits nothing.
    pub open spec fn admits(
        &self,
        key: u128,
        value: Arc<V>,
        now: u128,
        next: Self,
        added: bool,
    ) -> bool {
        &&& next.limits() == self.limits()
        &&& match self.state() {
            Some(state) => {
                &&& state.wf()
                &&& state.within(self.limits()->0)
                &&& next.state() == Some(state.add_at(key, value, now, self.limits()->0).0)
                &&& added == state.add_at(key, value, now, self.limits()->0).1
            },
            None => next.state() is None && !added,
        }
    }

    /// A read of `key` at `now` takes a shard from this state to `next` and
    /// returns `found`. A shard that holds its filter holds it well-formed
    /// and within its limits, and the read is the filter's; a shard whose
    /// filter is in hand finds nothing.
    pub open spec fn reads(&self, key: u128, now: u128, next: Self, found: Option<Arc<V>>) -> bool {
        &&& next.limits() == self.limits()
        &&& match self.state() {
            Some(state) => {
                &&& state.wf()
                &&& state.within(self.limits()->0)
                &&& next.state() == Some(state.get_at(key, now, self.limits()->0).0)
                &&& found == state.get_at(key, now, self.limits()->0).1
            },
            None => next.state() is None && found is None,
        }
    }

    /// The shard's filter, if the shard holds it, has `limits`.
    pub open spec fn has(&self, limits: ProbatoryLimits) -> bool {
        self.limits() matches Some(own) ==> own == limits
    }

    /// A shard with an empty filter whose resident tier holds `max_size`.
    pub fn new(max_size: usize, expiration: u128, expiration_type: ExpirationType) -> (shard: Self)
        ensures
            shard.state() == Some(ProbatoryView::<u128, V>::empty()),
            shard.limits() == Some(spec_limits_for(max_size, expiration, expiration_type)),
    {
        Shard { cache: Some(ProbatoryCache::new(max_size, expiration, expiration_type)) }
    }

    /// Makes sure that the shard's filter has the limits of a filter made
    /// for a resident tier of `max_size`. A filter that has them stays as it
    /// is; one that has others is replaced by an empty one that has them.
    pub fn conform(&mut self, max_size: usize, expiration: u128, expiration_type: ExpirationType)
        ensures
            final(self).has(spec_limits_for(max_size, expiration, expiration_type)),
            final(self).state() is Some <==> old(self).state() is Some,
            ({
                let limits = spec_limits_for(max_size, expiration, expiration_type);
                if old(self).has(limits) {
                    &&& final(self).state() == old(self).state()
                    &&& final(self).limits() == old(self).limits()
                } else {
                    final(self).state() == Some(ProbatoryView::<u128, V>::empty())
                }
            }),
    {
        proof {
            use_type_invariant(&*self);
        }
        let mut taken: Option<ProbatoryCache<u128, V>> = None;
        std::mem::swap(&mut taken, &mut self.cache);
        match taken {
            Some(cache) => {
                if cache.get_limits() == limits_for(max_size, expiration, expiration_type) {
                    self.cache = Some(cache);
                } else {
                    self.cache = Some(ProbatoryCache::new(max_size, expiration, expiration_type));
                }
            },
            None => {},
        }
    }

    /// Admits `key` to the shard's filter at the time `now`.
    pub fn try_add_at(&mut self, key: u128, value: Arc<V>, now: u128) -> (added: bool)
        ensures
            old(self).admits(key, value, now, *final(self), added),
    {
        proof {
            use_type_invariant(&*self);
        }
        let mut taken: Option<ProbatoryCache<u128, V>> = None;
        std::mem::swap(&mut taken, &mut self.cache);
        match taken {
            Some(mut cache) => {
                proof {
                    cache.lemma_size();
                }
                let added = cache.try_add_at(key, value, now);
                self.cache = Some(cache);
                added
            },
            None => false,
        }
    }

    /// Reads `key` from the shard's filter at the time `now`.
    pub fn try_get_at(&mut self, key: &u128, now: u128) -> (found: Option<Arc<V>>)
        ensures
            old(self).reads(*key, now, *final(self), found),
    {
        proof {
            use_type_invariant(&*self);
        }
        let mut taken: Option<ProbatoryCache<u128, V>> = None;
        std::mem::swap(&mut taken, &mut self.cache);
        match taken {
            Some(mut cache) => {
                proof {
                    cache.lemma_size();
                }
                let found = cache.try_get_at(key, now);
                self.cache = Some(cache);
                found
            },
            None => None,
        }
    }
}

/// The sharded cache. The shards are reached through their locks only, so
/// what an operation finds depends on what other threads did before. A lock
/// does not tell the proofs what it guards either, so each operation makes
/// sure that the shard it finds has the cache's limits. The operations
/// here say which shard they work on, and `Shard` says what is
/// done to it.
#[verifier::reject_recursive_types(V)]
pub struct ShardedCache<V> {
    shards: Vec<Mutex<Shard<V>>>,
    max_size: usize,
    expiration: u128,
    expiration_type: ExpirationType,
    clock: Clock,
}

impl<V> ShardedCache<V> {
    /// The number of shards.
    pub closed spec fn shard_count(&self) -> nat {
        self.shards@.len()
    }

    /// The limits that the cache was made with, and that each of its shards
    /// was made with.
    pub closed spec fn spec_limits(&self) -> ProbatoryLimits {
        spec_limits_for(self.max_size, self.expiration, self.expiration_type)
    }

    /// There is at least one shard.
    pub closed spec fn wf(&self) -> bool {
        self.shards@.len() >= 1
    }

    /// The limits that the cache was made with.
    pub fn limits(&self) -> (limits: ProbatoryLimits)
        ensures
            limits == self.spec_limits(),
    {
        limits_for(self.max_size, self.expiration, self.expiration_type)
    }

    /// A cache of `shards` empty shards, at least one, each a filter with a
    /// resident tier of `max_size`, a probatory tier of ten times that, and
    /// entries that expire after `expiration` nanoseconds.
    pub fn new(shards: usize, max_size: usize, expiration: u128, expiration_type: ExpirationType) -> (cache: Self)
        ensures
            cache.wf(),
            cache.shard_count() == (if shards < 1 {
                1
            } else {
                shards as int
            }),
            cache.spec_limits() == spec_limits_for(max_size, expiration, expiration_type),
    {
        let shards: usize = if shards < 1 {
            1
        } else {
            shards
        };
        let mut locked: Vec<Mutex<Shard<V>>> = Vec::new();
        let mut i: usize = 0;
        while i < shards
            invariant
                i <= shards,
                locked@.len() == i,
            decreases shards - i,
        {
            locked.push(mutex_new(Shard::new(max_size, expiration, expiration_type)));
            i += 1;
        }
        ShardedCache { shards: locked, max_size, expiration, expiration_type, clock: Clock::new() }
    }

    /// Caches of as many shards give a key the same shard, whenever they
    /// were made and whatever they hold.
    pub proof fn lemma_shard_is_stable(&self, other: &Self, key: u128)
        requires
            self.shard_count() == other.shard_count(),
        ensures
            shard_of(key, self.shard_count() as int) == shard_of(key, other.shard_count() as int),
    {
    }

    /// The index of the shard that owns `key`.
    pub fn shard_index(&self, key: &u128) -> (index: usize)
        requires
            self.wf(),
        ensures
            index == shard_of(*key, self.shard_count() as int),
            index < self.shard_count(),
    {
        shard_index(*key, self.shards.len())
    }

    /// The lock of the shard that owns `key`.
    fn get_shard(&self, key: &u128) -> (shard: &Mutex<Shard<V>>)
        requires
            self.wf(),
        ensures
            *shard == self.shards@[shard_of(*key, self.shards@.len() as int)],
    {
        let index = self.shard_index(key);
        &self.shards[index]
    }

    /// `added` is what an admission of `key` with `value` returns on a
    /// shard that has the cache's limits, in whatever state it is found and
    /// at whatever time.
    pub open spec fn admission(&self, key: u128, value: Arc<V>, added: bool) -> bool {
        exists|shard: Shard<V>, now: u128, next: Shard<V>|
            shard.has(self.spec_limits()) && #[trigger] shard.admits(key, value, now, next, added)
    }

    /// `found` is what a read of `key` returns on a shard that has the
    /// cache's limits, in whatever state it is found and at whatever time.
    pub open spec fn lookup(&self, key: u128, found: Option<Arc<V>>) -> bool {
        exists|shard: Shard<V>, now: u128, next: Shard<V>|
            shard.has(self.spec_limits()) && #[trigger] shard.reads(key, now, next, found)
    }

    /// Admits `key` to its shard, under that shard's lock, at the time that
    /// the clock shows. The shard is in the state in which the threads that
    /// held the lock before left it, it has the cache's limits, and the
    /// admission is `Shard::try_add_at` on that state.
    pub fn try_add_arc2(&self, key: u128, value: Arc<V>) -> (added: bool)
        requires
            self.wf(),
        ensures
            self.admission(key, value, added),
    {
        let now = self.clock.now();
        let mut guard = mutex_lock(self.get_shard(&key));
        let shard = guard_mut(&mut guard);
        shard.conform(self.max_size, self.expiration, self.expiration_type);
        let ghost before = *shard;
        let added = shard.try_add_at(key, value, now);
        proof {
            assert(before.has(self.spec_limits()));
            assert(before.admits(key, value, now, *shard, added));
        }
        added
    }

    /// Reads `key` from its shard, under that shard's lock, at the time that
    /// the clock shows. The shard is in the state in which the threads that
    /// held the lock before left it, it has the cache's limits, and the read
    /// is `Shard::try_get_at` on that state.
    pub fn try_get2(&self, key: &u128) -> (found: Option<Arc<V>>)
        requires
            self.wf(),
        ensures
            self.lookup(*key, found),
    {
        let now = self.clock.now();
        let mut guard = mutex_lock(self.get_shard(key));
        let shard = guard_mut(&mut guard);
        shard.conform(self.max_size, self.expiration, self.expiration_type);
        let ghost before = *shard;
        let found = shard.try_get_at(key, now);
        proof {
            assert(before.has(self.spec_limits()));
            assert(before.reads(*key, now, *shard, found));
        }
        found
    }

    /// Ends a miss: `outcome` is what computing the value for `key` gave,
    /// while no lock was held. A value is shared, offered to the key's shard
    /// and returned, whether or not the shard took it; an error is returned.
    pub fn complete_miss2<E>(&self, key: u128, outcome: Result<V, E>) -> (r: Result<Arc<V>, E>)
        requires
            self.wf(),
        ensures
            match outcome {
                Ok(value) => r matches Ok(shared) && *shared == value && (self.admission(
                    key,
                    shared,
                    true,
                ) || self.admission(key, shared, false)),
                Err(e) => r == Err::<Arc<V>, E>(e),
            },
    {
        match outcome {
            Ok(value) => {
                let shared = Arc::new(value);
                let added = self.try_add_arc2(key, crate::caches::lru::share(&shared));
                Ok(shared)
            },
            Err(e) => Err(e),
        }
    }
}

impl<V> Cache<u128, V> for ShardedCache<V> {
    open spec fn valid(&self) -> bool {
        self.wf()
    }

    /// The shards stay as many and the limits as they were, and `added` is
    /// what an admission returns on a shard. The shard's state is behind its
    /// lock.
    open spec fn admits(&self, key: u128, value: Arc<V>, next: &Self, added: bool) -> bool {
        &&& next.shard_count() == self.shard_count()
        &&& next.spec_limits() == self.spec_limits()
        &&& self.admission(key, value, added)
    }

    /// The shards stay as many and the limits as they were, and `found` is
    /// what a read returns on a shard. The shard's state is behind its lock.
    open spec fn reads(&self, key: u128, next: &Self, found: Option<Arc<V>>) -> bool {
        &&& next.shard_count() == self.shard_count()
        &&& next.spec_limits() == self.spec_limits()
        &&& self.lookup(key, found)
    }

    fn try_add_arc(&mut self, key: u128, value: Arc<V>) -> (added: bool) {
        self.try_add_arc2(key, value)
    }

    fn try_get(&mut self, key: &u128) -> (found: Option<Arc<V>>) {
        self.try_get2(key)
    }
}

} // verus!
