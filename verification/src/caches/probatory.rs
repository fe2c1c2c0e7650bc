//! An admission filter of two caches: a key enters the small resident tier
//! only when it is admitted while the large probatory tier still remembers it.

use crate::caches::lru::LruCache;
use crate::caches::model::{expired, LruView, Slot};
use crate::caches::Cache;
use crate::caches::ExpirationType;
use crate::clock::Clock;
use std::hash::Hash;
use std::sync::Arc;
use vstd::prelude::*;

verus! {

/// How many times larger the probatory tier is than the resident tier.
pub const PROBATORY_FACTOR: usize = 10;

/// The size of the probatory tier for a resident tier of `max_size`, before
/// any cap: ten times as large, or the largest `usize` where that is less.
pub open spec fn probatory_size(max_size: usize) -> usize {
    if max_size * PROBATORY_FACTOR > usize::MAX {
        usize::MAX
    } else {
        (max_size * PROBATORY_FACTOR) as usize
    }
}

/// What the probatory tier stores for a key: nothing but that it was seen.
pub open spec fn seen_mark() -> Arc<()> {
    arbitrary()
}

/// The state of the filter: its two tiers.
#[verifier::reject_recursive_types(K)]
pub struct ProbatoryView<K, V> {
    pub probatory: LruView<K, ()>,
    pub resident: LruView<K, V>,
}

/// The sizes and lifetimes that the two tiers of a filter work with.
#[derive(Debug, Clone, Copy, PartialEq, Eq, Structural)]
pub struct ProbatoryLimits {
    /// The most keys that the probatory tier remembers.
    pub probatory_max_size: usize,
    /// The most entries that the resident tier holds.
    pub max_size: usize,
    /// The age, in nanoseconds, above which an entry is expired.
    pub expiration: u128,
    /// How the age of a resident entry is counted.
    pub expiration_type: ExpirationType,
}

/// The limits of a filter that is made for a resident tier of `max_size`:
/// that size and ten times that size for the probatory tier, each no more
/// than a cache can have, and the expiration as it is given.
pub open spec fn spec_limits_for(
    max_size: usize,
    expiration: u128,
    expiration_type: ExpirationType,
) -> ProbatoryLimits {
    ProbatoryLimits {
        probatory_max_size: crate::caches::lru::capped(probatory_size(max_size)),
        max_size: crate::caches::lru::capped(max_size),
        expiration,
        expiration_type,
    }
}

/// The size of the probatory tier for a resident tier of `max_size`, before
/// any cap.
pub fn probatory_size_for(max_size: usize) -> (size: usize)
    ensures
        size == probatory_size(max_size),
{
    match max_size.checked_mul(PROBATORY_FACTOR) {
        Some(size) => size,
        None => usize::MAX,
    }
}

/// The limits of a filter that is made for a resident tier of `max_size`.
pub fn limits_for(max_size: usize, expiration: u128, expiration_type: ExpirationType) -> (limits:
    ProbatoryLimits)
    ensures
        limits == spec_limits_for(max_size, expiration, expiration_type),
{
    ProbatoryLimits {
        probatory_max_size: crate::caches::lru::cap(probatory_size_for(max_size)),
        max_size: crate::caches::lru::cap(max_size),
        expiration,
        expiration_type,
    }
}

impl<K, V> ProbatoryView<K, V> {
    /// The state of a filter that has seen nothing.
    pub open spec fn empty() -> Self {
        ProbatoryView { probatory: LruView::empty(), resident: LruView::empty() }
    }

    /// Both tiers are well-formed.
    pub open spec fn wf(self) -> bool {
        self.probatory.wf() && self.resident.wf()
    }

    /// Neither tier holds more keys than `limits` gives it.
    pub open spec fn within(self, limits: ProbatoryLimits) -> bool {
        &&& self.probatory.len() <= limits.probatory_max_size
        &&& self.resident.len() <= limits.max_size
    }

    /// An admission of `key` at `now`. A key that the probatory tier does not
    /// hold enters that tier only; one that it holds is admitted to the
    /// resident tier.
    pub open spec fn add_at(self, key: K, value: Arc<V>, now: u128, limits: ProbatoryLimits) -> (
        Self,
        bool,
    ) {
        let (probatory, fresh) = self.probatory.add_at(
            key,
            seen_mark(),
            now,
            limits.expiration,
            limits.probatory_max_size,
        );
        if fresh {
            (ProbatoryView { probatory, resident: self.resident }, true)
        } else {
            let (resident, added) = self.resident.add_at(
                key,
                value,
                now,
                limits.expiration,
                limits.max_size,
            );
            (ProbatoryView { probatory, resident }, added)
        }
    }

    /// A read of `key` at `now`: a read of the resident tier. The probatory
    /// tier is neither asked nor changed.
    pub open spec fn get_at(self, key: K, now: u128, limits: ProbatoryLimits) -> (
        Self,
        Option<Arc<V>>,
    ) {
        let (resident, found) = self.resident.get_at(
            key,
            now,
            limits.expiration,
            limits.expiration_type,
        );
        (ProbatoryView { probatory: self.probatory, resident }, found)
    }
}

/// The filter: a probatory tier of keys that were seen, and a resident tier
/// of the values of keys that were seen again.
pub struct ProbatoryCache<K, V> {
    probatory: LruCache<K, ()>,
    resident: LruCache<K, V>,
    clock: Clock,
}

impl<K: Copy + Eq + Hash, V> View for ProbatoryCache<K, V> {
    type V = ProbatoryView<K, V>;

    closed spec fn view(&self) -> ProbatoryView<K, V> {
        ProbatoryView { probatory: self.probatory@, resident: self.resident@ }
    }
}

impl<K: Copy + Eq + Hash, V> ProbatoryCache<K, V> {
    /// The limits of the two tiers.
    pub closed spec fn limits(&self) -> ProbatoryLimits {
        ProbatoryLimits {
            probatory_max_size: self.probatory.spec_max_size(),
            max_size: self.resident.spec_max_size(),
            expiration: self.resident.spec_expiration(),
            expiration_type: self.resident.spec_expiration_type(),
        }
    }

    /// Both tiers are well-formed, and the probatory tier has the resident
    /// tier's expiration, counted from the last read.
    pub closed spec fn wf(&self) -> bool {
        &&& self.probatory.wf()
        &&& self.resident.wf()
        &&& self.probatory.spec_expiration() == self.resident.spec_expiration()
        &&& self.probatory.spec_expiration_type() == ExpirationType::Sliding
    }

    /// The limits of the two tiers.
    pub fn get_limits(&self) -> (limits: ProbatoryLimits)
        ensures
            limits == self.limits(),
    {
        ProbatoryLimits {
            probatory_max_size: self.probatory.max_size(),
            max_size: self.resident.max_size(),
            expiration: self.resident.expiration(),
            expiration_type: self.resident.expiration_type(),
        }
    }

    /// In each tier the map and the recency list hold the same keys, each
    /// once, and no more of them than the tier's size.
    pub proof fn lemma_size(&self)
        requires
            self.wf(),
        ensures
            self@.wf(),
            self@.within(self.limits()),
    {
        self.probatory.lemma_size();
        self.resident.lemma_size();
    }

    /// An empty filter whose resident tier holds at most `max_size` entries
    /// and whose probatory tier holds ten times as many keys, both capped at
    /// `MAX_ENTRIES`.
    pub fn new(max_size: usize, expiration: u128, expiration_type: ExpirationType) -> (cache: Self)
        requires
            vstd::std_specs::hash::obeys_key_model::<K>(),
        ensures
            cache.wf(),
            cache@ == ProbatoryView::<K, V>::empty(),
            cache.limits() == spec_limits_for(max_size, expiration, expiration_type),
    {
        Self {
            probatory: LruCache::new(
                probatory_size_for(max_size),
                expiration,
                ExpirationType::Sliding,
            ),
            resident: LruCache::new(max_size, expiration, expiration_type),
            clock: Clock::new(),
        }
    }

    /// Admits `key` at the time `now`: to the probatory tier when that tier
    /// does not hold it, else to the resident tier.
    pub fn try_add_at(&mut self, key: K, value: Arc<V>, now: u128) -> (added: bool)
        requires
            old(self).wf(),
        ensures
            final(self).wf(),
            final(self).limits() == old(self).limits(),
            (final(self)@, added) == old(self)@.add_at(key, value, now, old(self).limits()),
    {
        let seen: Arc<()> = Arc::new(());
        if self.probatory.try_add_at(key, seen, now) {
            true
        } else {
            self.resident.try_add_at(key, value, now)
        }
    }

    /// Reads `key` from the resident tier at the time `now`.
    pub fn try_get_at(&mut self, key: &K, now: u128) -> (found: Option<Arc<V>>)
        requires
            old(self).wf(),
        ensures
            final(self).wf(),
            final(self).limits() == old(self).limits(),
            (final(self)@, found) == old(self)@.get_at(*key, now, old(self).limits()),
    {
        self.resident.try_get_at(key, now)
    }
}


impl<K: Copy + Eq + Hash, V> Cache<K, V> for ProbatoryCache<K, V> {
    open spec fn valid(&self) -> bool {
        self.wf()
    }

    /// `next` and `added` are what `add_at` gives for some time, and the
    /// filter keeps its limits.
    open spec fn admits(&self, key: K, value: Arc<V>, next: &Self, added: bool) -> bool {
        &&& next.limits() == self.limits()
        &&& exists|now: u128|
            (next@, added) == #[trigger] self@.add_at(key, value, now, self.limits())
    }

    /// `next` and `found` are what `get_at` gives for some time, and the
    /// filter keeps its limits.
    open spec fn reads(&self, key: K, next: &Self, found: Option<Arc<V>>) -> bool {
        &&& next.limits() == self.limits()
        &&& exists|now: u128| (next@, found) == #[trigger] self@.get_at(key, now, self.limits())
    }

    /// `try_add_at` at the time that the filter's clock shows.
    fn try_add_arc(&mut self, key: K, value: Arc<V>) -> (added: bool) {
        let now = self.clock.now();
        self.try_add_at(key, value, now)
    }

    /// `try_get_at` at the time that the filter's clock shows.
    fn try_get(&mut self, key: &K) -> (found: Option<Arc<V>>) {
        let now = self.clock.now();
        self.try_get_at(key, now)
    }
}

/// One call on a filter: an admission or a read, with the time it is made at.
pub enum CacheOp<K, V> {
    Add { key: K, value: Arc<V>, now: u128 },
    Get { key: K, now: u128 },
}

impl<K, V> ProbatoryView<K, V> {
    /// The state after `op`.
    pub open spec fn apply(self, op: CacheOp<K, V>, limits: ProbatoryLimits) -> Self {
        match op {
            CacheOp::Add { key, value, now } => self.add_at(key, value, now, limits).0,
            CacheOp::Get { key, now } => self.get_at(key, now, limits).0,
        }
    }

    /// The state after each of `ops`, in turn.
    pub open spec fn run(self, ops: Seq<CacheOp<K, V>>, limits: ProbatoryLimits) -> Self
        decreases ops.len(),
    {
        if ops.len() == 0 {
            self
        } else {
            self.run(ops.drop_last(), limits).apply(ops.last(), limits)
        }
    }

    /// How many of `ops` are admissions of `key`.
    pub open spec fn admissions(ops: Seq<CacheOp<K, V>>, key: K) -> nat
        decreases ops.len(),
    {
        if ops.len() == 0 {
            0
        } else {
            Self::admissions(ops.drop_last(), key) + (if ops.last() matches CacheOp::Add {
                key: k,
                ..
            } && k == key {
                1nat
            } else {
                0nat
            })
        }
    }

    /// An admission keeps both tiers well-formed. The probatory tier gains at
    /// most the key; the resident tier gains it only where the probatory tier
    /// held it before.
    pub proof fn lemma_add_at(self, key: K, value: Arc<V>, now: u128, limits: ProbatoryLimits)
        requires
            self.wf(),
        ensures
            ({
                let (next, added) = self.add_at(key, value, now, limits);
                &&& next.wf()
                &&& self.probatory.len() <= limits.probatory_max_size ==> next.probatory.len()
                    <= limits.probatory_max_size
                &&& self.resident.len() <= limits.max_size ==> next.resident.len()
                    <= limits.max_size
                &&& added == (!self.probatory.contains(key) || !self.resident.contains(key))
                &&& !self.probatory.contains(key) ==> next.resident == self.resident
                &&& forall|k: K| #[trigger]
                    next.probatory.contains(k) ==> self.probatory.contains(k) || k == key
                &&& forall|k: K| #[trigger]
                    next.resident.contains(k) ==> self.resident.contains(k) || (k == key
                        && self.probatory.contains(key))
            }),
    {
        self.probatory.lemma_add_at(
            key,
            seen_mark(),
            now,
            limits.expiration,
            limits.probatory_max_size,
        );
        self.resident.lemma_add_at(key, value, now, limits.expiration, limits.max_size);
    }

    /// A read keeps both tiers well-formed and brings no key into either.
    pub proof fn lemma_get_at(self, key: K, now: u128, limits: ProbatoryLimits)
        requires
            self.wf(),
        ensures
            ({
                let (next, found) = self.get_at(key, now, limits);
                &&& next.wf()
                &&& next.probatory == self.probatory
                &&& next.resident.len() <= self.resident.len()
                &&& found is Some ==> self.resident.contains(key)
                &&& forall|k: K| #[trigger] next.resident.contains(k) ==> self.resident.contains(k)
            }),
    {
        self.resident.lemma_get_at(key, now, limits.expiration, limits.expiration_type);
    }

    /// Whatever calls are made on an empty filter, a key that the probatory
    /// tier holds was admitted at least once, and a key that the resident tier
    /// holds at least twice.
    pub proof fn lemma_history(ops: Seq<CacheOp<K, V>>, limits: ProbatoryLimits)
        ensures
            Self::empty().run(ops, limits).wf(),
            forall|k: K| #[trigger]
                Self::empty().run(ops, limits).probatory.contains(k) ==> Self::admissions(ops, k)
                    >= 1,
            forall|k: K| #[trigger]
                Self::empty().run(ops, limits).resident.contains(k) ==> Self::admissions(ops, k)
                    >= 2,
        decreases ops.len(),
    {
        if ops.len() > 0 {
            let before = Self::empty().run(ops.drop_last(), limits);
            Self::lemma_history(ops.drop_last(), limits);
            match ops.last() {
                CacheOp::Add { key, value, now } => {
                    before.lemma_add_at(key, value, now, limits);
                },
                CacheOp::Get { key, now } => {
                    before.lemma_get_at(key, now, limits);
                },
            }
        }
    }

    /// A key that a read returns, after any calls on an empty filter, was
    /// admitted at least twice before.
    pub proof fn lemma_found_key_was_admitted_twice(
        ops: Seq<CacheOp<K, V>>,
        key: K,
        now: u128,
        limits: ProbatoryLimits,
    )
        requires
            Self::empty().run(ops, limits).get_at(key, now, limits).1 is Some,
        ensures
            Self::admissions(ops, key) >= 2,
    {
        Self::lemma_history(ops, limits);
        Self::empty().run(ops, limits).lemma_get_at(key, now, limits);
    }

    /// The state after admissions of `keys`, in turn, each with its value and
    /// at its time.
    pub open spec fn add_each(
        self,
        keys: Seq<K>,
        values: Seq<Arc<V>>,
        times: Seq<u128>,
        limits: ProbatoryLimits,
    ) -> Self
        decreases keys.len(),
    {
        if keys.len() == 0 {
            self
        } else {
            self.add_each(keys.drop_last(), values, times, limits).add_at(
                keys.last(),
                values[keys.len() - 1],
                times[keys.len() - 1],
                limits,
            ).0
        }
    }

    /// Keys that are admitted once each, and that the probatory tier did not
    /// hold, do not reach the resident tier, however many they are.
    pub proof fn lemma_keys_admitted_once_stay_out(
        self,
        keys: Seq<K>,
        values: Seq<Arc<V>>,
        times: Seq<u128>,
        limits: ProbatoryLimits,
    )
        requires
            self.wf(),
            keys.no_duplicates(),
            forall|i: int| 0 <= i < keys.len() ==> !self.probatory.contains(#[trigger] keys[i]),
        ensures
            self.add_each(keys, values, times, limits).wf(),
            self.add_each(keys, values, times, limits).resident == self.resident,
            forall|k: K| #[trigger]
                self.add_each(keys, values, times, limits).probatory.contains(k)
                    ==> self.probatory.contains(k) || keys.contains(k),
        decreases keys.len(),
    {
        if keys.len() > 0 {
            let front = keys.drop_last();
            let last = keys.len() - 1;
            self.lemma_keys_admitted_once_stay_out(front, values, times, limits);
            let before = self.add_each(front, values, times, limits);
            before.lemma_add_at(keys[last], values[last], times[last], limits);
            if before.probatory.contains(keys[last]) {
                assert(front.contains(keys[last]));
                let i = choose|i: int| 0 <= i < front.len() && front[i] == keys[last];
                assert(keys[i] == keys[last]);
                assert(false);
            }
            let after = before.add_at(keys[last], values[last], times[last], limits).0;
            assert forall|k: K| #[trigger] after.probatory.contains(k) implies self.probatory.contains(
                k,
            ) || keys.contains(k) by {
                if k == keys[last] {
                    assert(keys[last] == k);
                } else if !self.probatory.contains(k) {
                    assert(before.probatory.contains(k));
                    assert(front.contains(k));
                    let i = choose|i: int| 0 <= i < front.len() && front[i] == k;
                    assert(keys[i] == k);
                }
            }
        }
    }
}


impl<K, V> ProbatoryView<K, V> {
    /// Serving a request for `key` from one filter: what a read at `read_at`
    /// finds is served; on a miss the request is forwarded, and what came
    /// back, `fresh`, is offered to the filter at `added_at` and served. The
    /// result is the state after it, what was served, and whether the
    /// request was forwarded.
    pub open spec fn served(
        self,
        key: K,
        fresh: Arc<V>,
        read_at: u128,
        added_at: u128,
        limits: ProbatoryLimits,
    ) -> (Self, Arc<V>, bool) {
        let (after_read, found) = self.get_at(key, read_at, limits);
        match found {
            Some(value) => (after_read, value, false),
            None => (after_read.add_at(key, fresh, added_at, limits).0, fresh, true),
        }
    }

    /// A request that the filter has not seen is forwarded twice and is then
    /// served with what the second forwarding brought, for as long as that
    /// is not expired.
    pub proof fn lemma_hit_after_double_miss(
        self,
        key: K,
        first: Arc<V>,
        second: Arc<V>,
        third: Arc<V>,
        times: Seq<u128>,
        limits: ProbatoryLimits,
    )
        requires
            self.wf(),
            !self.probatory.contains(key),
            !self.resident.contains(key),
            limits.max_size >= 1,
            limits.probatory_max_size >= 1,
            times.len() == 6,
            !expired(times[3], times[4], limits.expiration),
        ensures
            ({
                let (s1, r1, m1) = self.served(key, first, times[0], times[1], limits);
                let (s2, r2, m2) = s1.served(key, second, times[2], times[3], limits);
                let (s3, r3, m3) = s2.served(key, third, times[4], times[5], limits);
                &&& m1 && r1 == first
                &&& m2 && r2 == second
                &&& !m3 && r3 == second
            }),
    {
        let exp = limits.expiration;
        self.probatory.lemma_add_fresh(key, seen_mark(), times[1], exp, limits.probatory_max_size);
        let (s1, r1, m1) = self.served(key, first, times[0], times[1], limits);
        assert(s1.resident == self.resident);
        assert(s1.probatory.contains(key));
        self.resident.lemma_add_fresh(key, second, times[3], exp, limits.max_size);
        let (s2, r2, m2) = s1.served(key, second, times[2], times[3], limits);
        assert(m2);
        assert(s2.resident.contains(key));
        assert(s2.resident.slots[key].value == second);
    }

    /// Two requests that the filter has not seen, with keys of their own,
    /// are each forwarded twice, whatever is done for the other between, and
    /// each is then served with what was brought for it: four forwardings
    /// in all, and none after them while nothing expires.
    pub proof fn lemma_two_keys_are_served_their_own(
        self,
        one: K,
        other: K,
        for_one: Arc<V>,
        for_other: Arc<V>,
        late: Arc<V>,
        times: Seq<u128>,
        limits: ProbatoryLimits,
    )
        requires
            self.wf(),
            one != other,
            !self.probatory.contains(one),
            !self.probatory.contains(other),
            !self.resident.contains(one),
            !self.resident.contains(other),
            limits.max_size >= 2,
            limits.probatory_max_size >= 2,
            times.len() == 6,
            forall|i: int, j: int|
                #![trigger times[i], times[j]]
                0 <= i < 6 && 0 <= j < 6 ==> !expired(times[i], times[j], limits.expiration),
        ensures
            ({
                let (s1, r1, m1) = self.served(one, for_one, times[0], times[0], limits);
                let (s2, r2, m2) = s1.served(other, for_other, times[1], times[1], limits);
                let (s3, r3, m3) = s2.served(one, for_one, times[2], times[2], limits);
                let (s4, r4, m4) = s3.served(other, for_other, times[3], times[3], limits);
                let (s5, r5, m5) = s4.served(one, late, times[4], times[4], limits);
                let (s6, r6, m6) = s5.served(other, late, times[5], times[5], limits);
                &&& m1 && m2 && m3 && m4
                &&& !m5 && r5 == for_one
                &&& !m6 && r6 == for_other
            }),
    {
        let exp = limits.expiration;
        let pmax = limits.probatory_max_size;
        let max = limits.max_size;
        let seen0 = self.probatory;
        let held0 = self.resident;
        assert(!expired(times[0], times[1], exp));
        assert(!expired(times[2], times[3], exp));
        assert(!expired(times[2], times[4], exp));
        assert(!expired(times[3], times[5], exp));
        // The first request for `one` marks it.
        seen0.lemma_add_fresh(one, seen_mark(), times[0], exp, pmax);
        let (s1, r1, m1) = self.served(one, for_one, times[0], times[0], limits);
        let seen1 = s1.probatory;
        assert(s1.resident == held0);
        assert(seen1.contains(one) && !seen1.contains(other));
        // The first request for `other` marks it and leaves the mark of `one`.
        seen1.lemma_add_fresh(other, seen_mark(), times[1], exp, pmax);
        seen1.lemma_add_keeps(one, other, seen_mark(), times[1], exp, pmax);
        let (s2, r2, m2) = s1.served(other, for_other, times[1], times[1], limits);
        let seen2 = s2.probatory;
        assert(s2.resident == held0);
        assert(seen2.contains(one) && seen2.contains(other));
        // The second request for `one` makes it resident.
        held0.lemma_add_fresh(one, for_one, times[2], exp, max);
        let (s3, r3, m3) = s2.served(one, for_one, times[2], times[2], limits);
        let held3 = s3.resident;
        assert(s3.probatory == seen2);
        assert(held3.contains(one) && !held3.contains(other));
        // The second request for `other` makes it resident beside `one`.
        held3.lemma_add_fresh(other, for_other, times[3], exp, max);
        held3.lemma_add_keeps(one, other, for_other, times[3], exp, max);
        let (s4, r4, m4) = s3.served(other, for_other, times[3], times[3], limits);
        let held4 = s4.resident;
        assert(m4);
        assert(held4.contains(one) && held4.slots[one] == Slot { insertion: times[2], value: for_one });
        assert(held4.contains(other) && held4.slots[other] == Slot {
            insertion: times[3],
            value: for_other,
        });
        // Each is now found, and the read of one leaves the other.
        held4.lemma_get_at(one, times[4], exp, limits.expiration_type);
        let (s5, r5, m5) = s4.served(one, late, times[4], times[4], limits);
        assert(!m5 && r5 == for_one);
        assert(s5.resident.contains(other));
        assert(s5.resident.slots[other] == held4.slots[other]);
        s5.resident.lemma_get_at(other, times[5], exp, limits.expiration_type);
    }
}

} // verus!
