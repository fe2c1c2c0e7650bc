//! The mathematical model of a recency-ordered cache with expiration, and the
//! laws that follow from it.

use crate::caches::ExpirationType;
use std::sync::Arc;
use vstd::prelude::*;

verus! {

/// An entry is expired at `now` when more than `expiration` has passed since
/// `insertion`. At exactly `expiration` it is still live.
pub open spec fn expired(insertion: u128, now: u128, expiration: u128) -> bool {
    now - insertion > expiration
}

/// What a cache holds for one key.
pub struct Slot<V> {
    pub insertion: u128,
    pub value: Arc<V>,
}

/// The state of a cache: the keys from least to most recently used, and what
/// is held for each.
#[verifier::reject_recursive_types(K)]
pub struct LruView<K, V> {
    pub order: Seq<K>,
    pub slots: Map<K, Slot<V>>,
}

impl<K, V> LruView<K, V> {
    /// The state of a cache that holds nothing.
    pub open spec fn empty() -> Self {
        LruView { order: Seq::empty(), slots: Map::empty() }
    }

    /// The cache holds an entry for `key`.
    pub open spec fn contains(self, key: K) -> bool {
        self.slots.contains_key(key)
    }

    /// The number of keys in the order.
    pub open spec fn len(self) -> nat {
        self.order.len()
    }

    /// Every key held is in the order exactly once.
    pub open spec fn wf(self) -> bool {
        &&& self.order.no_duplicates()
        &&& forall|k: K| self.slots.contains_key(k) <==> self.order.contains(k)
    }

    /// The state without `key`.
    pub open spec fn without(self, key: K) -> Self {
        LruView {
            order: self.order.remove(self.order.index_of(key)),
            slots: self.slots.remove(key),
        }
    }

    /// The state with the new key `key` as the most recently used.
    pub open spec fn with(self, key: K, slot: Slot<V>) -> Self {
        LruView { order: self.order.push(key), slots: self.slots.insert(key, slot) }
    }

    /// The state after a read of `key`: it becomes the most recently used, and
    /// its insertion time becomes `insertion`.
    pub open spec fn touched(self, key: K, insertion: u128) -> Self {
        self.without(key).with(key, Slot { insertion, value: self.slots[key].value })
    }

    /// The least recently used key has to go: the cache is over its size, or
    /// that key's entry is expired.
    pub open spec fn head_evictable(self, now: u128, expiration: u128, max_size: usize) -> bool {
        self.order.len() > 0 && (self.order.len() > max_size || expired(
            self.slots[self.order[0]].insertion,
            now,
            expiration,
        ))
    }

    /// The state without its least recently used key.
    pub open spec fn without_head(self) -> Self {
        LruView { order: self.order.skip(1), slots: self.slots.remove(self.order[0]) }
    }

    /// The state after trimming: least recently used keys are dropped for as
    /// long as the head has to go.
    pub open spec fn trimmed(self, now: u128, expiration: u128, max_size: usize) -> Self
        decreases self.order.len(),
    {
        if self.head_evictable(now, expiration, max_size) {
            self.without_head().trimmed(now, expiration, max_size)
        } else {
            self
        }
    }

    /// A read of `key` at `now`: the state after it, and what it returns.
    pub open spec fn get_at(
        self,
        key: K,
        now: u128,
        expiration: u128,
        expiration_type: ExpirationType,
    ) -> (Self, Option<Arc<V>>) {
        if !self.contains(key) {
            (self, None)
        } else if expired(self.slots[key].insertion, now, expiration) {
            (self.without(key), None)
        } else {
            let insertion = if expiration_type == ExpirationType::Sliding {
                now
            } else {
                self.slots[key].insertion
            };
            (self.touched(key, insertion), Some(self.slots[key].value))
        }
    }

    /// An admission of `key` at `now`: the state after it, and whether the key
    /// was new.
    pub open spec fn add_at(
        self,
        key: K,
        value: Arc<V>,
        now: u128,
        expiration: u128,
        max_size: usize,
    ) -> (Self, bool) {
        if self.contains(key) {
            (self, false)
        } else {
            (
                self.with(key, Slot { insertion: now, value }).trimmed(now, expiration, max_size),
                true,
            )
        }
    }
}


impl<K, V> LruView<K, V> {
    /// As many keys are held as stand in the order.
    pub proof fn lemma_cardinality(self)
        requires
            self.wf(),
        ensures
            self.slots.dom().finite(),
            self.slots.dom().len() == self.order.len(),
    {
        self.order.unique_seq_to_set();
        vstd::seq_lib::seq_to_set_is_finite(self.order);
        assert(self.slots.dom() =~= self.order.to_set());
    }

    /// Dropping a key that is held leaves the others as they were, in order.
    pub proof fn lemma_without(self, key: K)
        requires
            self.wf(),
            self.contains(key),
        ensures
            self.without(key).wf(),
            self.without(key).len() == self.len() - 1,
            !self.without(key).contains(key),
            forall|k: K|
                k != key ==> (#[trigger] self.without(key).contains(k) <==> self.contains(k)),
            forall|k: K|
                #[trigger] self.without(key).contains(k) ==> self.without(key).slots[k]
                    == self.slots[k],
    {
        let p = self.order.index_of(key);
        assert(self.order.contains(key));
        assert(0 <= p < self.order.len() && self.order[p] == key);
        let rest = self.order.remove(p);
        self.order.remove_ensures(p);
        assert forall|k: K| #[trigger] rest.contains(k) <==> (self.order.contains(k) && k
            != key) by {
            if rest.contains(k) {
                let i = choose|i: int| 0 <= i < rest.len() && rest[i] == k;
                let i0 = if i < p {
                    i
                } else {
                    i + 1
                };
                assert(self.order[i0] == k);
            }
            if self.order.contains(k) && k != key {
                let i0 = choose|i: int| 0 <= i < self.order.len() && self.order[i] == k;
                let i = if i0 < p {
                    i0
                } else {
                    i0 - 1
                };
                assert(rest[i] == k);
            }
        }
        assert forall|i: int, j: int| 0 <= i < rest.len() && 0 <= j < rest.len() && i != j implies rest[i]
            != rest[j] by {
            let i0 = if i < p {
                i
            } else {
                i + 1
            };
            let j0 = if j < p {
                j
            } else {
                j + 1
            };
            assert(rest[i] == self.order[i0]);
            assert(rest[j] == self.order[j0]);
        }
    }

    /// Dropping the least recently used key is dropping that key.
    pub proof fn lemma_without_head(self)
        requires
            self.wf(),
            self.order.len() > 0,
        ensures
            self.without_head() == self.without(self.order[0]),
    {
        let p = self.order.index_of(self.order[0]);
        assert(0 <= p < self.order.len() && self.order[p] == self.order[0]);
        assert(p == 0);
        assert(self.order.remove(0) =~= self.order.skip(1));
    }

    /// Adding a key that is not held keeps the model well-formed.
    pub proof fn lemma_with(self, key: K, slot: Slot<V>)
        requires
            self.wf(),
            !self.contains(key),
        ensures
            self.with(key, slot).wf(),
            self.with(key, slot).len() == self.len() + 1,
    {
        let next = self.with(key, slot);
        assert forall|k: K| next.slots.contains_key(k) <==> next.order.contains(k) by {
            if next.order.contains(k) {
                let i = choose|i: int| 0 <= i < next.order.len() && next.order[i] == k;
                if i < self.order.len() {
                    assert(self.order[i] == k);
                    assert(self.order.contains(k));
                    assert(self.slots.contains_key(k));
                } else {
                    assert(k == key);
                }
            }
            if next.slots.contains_key(k) {
                if k == key {
                    assert(next.order[self.order.len() as int] == key);
                } else {
                    assert(self.slots.contains_key(k));
                    assert(self.order.contains(k));
                    let i = choose|i: int| 0 <= i < self.order.len() && self.order[i] == k;
                    assert(next.order[i] == k);
                }
            }
        }
        assert forall|i: int, j: int|
            0 <= i < next.order.len() && 0 <= j < next.order.len() && i != j implies next.order[i]
            != next.order[j] by {
            if i < self.order.len() {
                assert(self.order.contains(self.order[i]));
            }
            if j < self.order.len() {
                assert(self.order.contains(self.order[j]));
            }
        }
    }

    /// Trimming leaves the most recently used keys, as they were: no more than
    /// `max_size` of them, and none at the head that is expired.
    pub proof fn lemma_trimmed(self, now: u128, expiration: u128, max_size: usize)
        requires
            self.wf(),
        ensures
            ({
                let t = self.trimmed(now, expiration, max_size);
                &&& t.wf()
                &&& t.len() <= max_size
                &&& t.len() <= self.len()
                &&& !t.head_evictable(now, expiration, max_size)
                &&& t.order == self.order.skip(self.len() - t.len())
                &&& forall|k: K| #[trigger] t.contains(k) ==> self.contains(k) && t.slots[k] == self.slots[k]
            }),
        decreases self.order.len(),
    {
        if self.head_evictable(now, expiration, max_size) {
            let rest = self.without_head();
            self.lemma_without_head();
            assert(self.order.contains(self.order[0]));
            self.lemma_without(self.order[0]);
            rest.lemma_trimmed(now, expiration, max_size);
            let t = rest.trimmed(now, expiration, max_size);
            assert(t.order =~= self.order.skip(self.len() - t.len()));
        } else {
            assert(self.order =~= self.order.skip(0));
        }
    }

    /// Where the cache may hold a key and the most recently used entry is not
    /// expired, trimming keeps that entry.
    pub proof fn lemma_trimmed_keeps_fresh_tail(self, now: u128, expiration: u128, max_size: usize)
        requires
            self.wf(),
            self.order.len() > 0,
            max_size >= 1,
            !expired(self.slots[self.order.last()].insertion, now, expiration),
        ensures
            ({
                let t = self.trimmed(now, expiration, max_size);
                &&& t.order.len() > 0
                &&& t.order.last() == self.order.last()
                &&& t.contains(self.order.last())
                &&& t.slots[self.order.last()] == self.slots[self.order.last()]
            }),
        decreases self.order.len(),
    {
        assert(self.order.contains(self.order.last()));
        if self.head_evictable(now, expiration, max_size) {
            let rest = self.without_head();
            self.lemma_without_head();
            assert(self.order.contains(self.order[0]));
            self.lemma_without(self.order[0]);
            assert(self.order.len() > 1);
            assert(rest.order.last() == self.order.last());
            rest.lemma_trimmed_keeps_fresh_tail(now, expiration, max_size);
        }
    }

    /// An admission keeps the model well-formed and within `max_size`, and
    /// brings in no key but the one admitted.
    pub proof fn lemma_add_at(
        self,
        key: K,
        value: Arc<V>,
        now: u128,
        expiration: u128,
        max_size: usize,
    )
        requires
            self.wf(),
        ensures
            ({
                let (next, added) = self.add_at(key, value, now, expiration, max_size);
                &&& next.wf()
                &&& added || self.len() <= max_size ==> next.len() <= max_size
                &&& added == !self.contains(key)
                &&& !added ==> next == self
                &&& forall|k: K| #[trigger] next.contains(k) ==> self.contains(k) || k == key
                &&& forall|k: K|
                    #[trigger] next.contains(k) && k != key ==> next.slots[k] == self.slots[k]
            }),
    {
        if !self.contains(key) {
            let slot = Slot { insertion: now, value };
            self.lemma_with(key, slot);
            self.with(key, slot).lemma_trimmed(now, expiration, max_size);
        }
    }

    /// A read keeps the model well-formed, brings in no key, and changes no
    /// entry but the one read.
    pub proof fn lemma_get_at(
        self,
        key: K,
        now: u128,
        expiration: u128,
        expiration_type: ExpirationType,
    )
        requires
            self.wf(),
        ensures
            ({
                let (next, found) = self.get_at(key, now, expiration, expiration_type);
                &&& next.wf()
                &&& next.len() <= self.len()
                &&& found is Some <==> self.contains(key) && !expired(
                    self.slots[key].insertion,
                    now,
                    expiration,
                )
                &&& found is Some ==> next.contains(key) && found == Some(self.slots[key].value)
                    && next.slots[key].value == self.slots[key].value && next.order.last() == key
                &&& found is None ==> !next.contains(key)
                &&& forall|k: K| #[trigger] next.contains(k) ==> self.contains(k)
                &&& forall|k: K| k != key && self.contains(k) ==> #[trigger] next.contains(k)
                &&& forall|k: K|
                    #[trigger] next.contains(k) && k != key ==> next.slots[k] == self.slots[k]
            }),
    {
        if self.contains(key) {
            self.lemma_without(key);
            if !expired(self.slots[key].insertion, now, expiration) {
                let insertion = if expiration_type == ExpirationType::Sliding {
                    now
                } else {
                    self.slots[key].insertion
                };
                self.without(key).lemma_with(
                    key,
                    Slot { insertion, value: self.slots[key].value },
                );
            }
        }
    }

    /// A key admitted to a cache that may hold a key is returned by a read
    /// that comes before it expires.
    pub proof fn lemma_add_then_get(
        self,
        key: K,
        value: Arc<V>,
        added_at: u128,
        read_at: u128,
        expiration: u128,
        expiration_type: ExpirationType,
        max_size: usize,
    )
        requires
            self.wf(),
            !self.contains(key),
            max_size >= 1,
            !expired(added_at, read_at, expiration),
        ensures
            ({
                let (admitted, added) = self.add_at(key, value, added_at, expiration, max_size);
                &&& added
                &&& admitted.get_at(key, read_at, expiration, expiration_type).1 == Some(value)
            }),
    {
        let slot = Slot { insertion: added_at, value };
        self.lemma_with(key, slot);
        self.with(key, slot).lemma_trimmed_keeps_fresh_tail(added_at, expiration, max_size);
    }

    /// An admission of a key that is held changes nothing and reports so.
    pub proof fn lemma_add_of_held_key(
        self,
        key: K,
        value: Arc<V>,
        now: u128,
        expiration: u128,
        max_size: usize,
    )
        requires
            self.contains(key),
        ensures
            self.add_at(key, value, now, expiration, max_size) == (self, false),
    {
    }

    /// Of two admissions of one key to a cache that may hold a key, the second
    /// reports that the key was held and leaves the first value in place.
    pub proof fn lemma_second_add_keeps_first(
        self,
        key: K,
        first: Arc<V>,
        second: Arc<V>,
        first_at: u128,
        second_at: u128,
        expiration: u128,
        max_size: usize,
    )
        requires
            self.wf(),
            !self.contains(key),
            max_size >= 1,
        ensures
            ({
                let (admitted, added) = self.add_at(key, first, first_at, expiration, max_size);
                let (again, added_again) = admitted.add_at(
                    key,
                    second,
                    second_at,
                    expiration,
                    max_size,
                );
                &&& added
                &&& !added_again
                &&& again == admitted
                &&& again.contains(key)
                &&& again.slots[key].value == first
            }),
    {
        let slot = Slot { insertion: first_at, value: first };
        self.lemma_with(key, slot);
        self.with(key, slot).lemma_trimmed_keeps_fresh_tail(first_at, expiration, max_size);
    }

    /// A full cache in which nothing is expired takes one more key and drops
    /// exactly the least recently used one.
    pub proof fn lemma_add_to_full_evicts_least_recent(
        self,
        key: K,
        value: Arc<V>,
        now: u128,
        expiration: u128,
        max_size: usize,
    )
        requires
            self.wf(),
            self.len() == max_size,
            max_size >= 1,
            !self.contains(key),
            forall|k: K|
                self.contains(k) ==> !expired((#[trigger] self.slots[k]).insertion, now, expiration),
        ensures
            ({
                let (next, added) = self.add_at(key, value, now, expiration, max_size);
                &&& added
                &&& next.order == self.order.skip(1).push(key)
                &&& next.slots == self.slots.remove(self.order[0]).insert(
                    key,
                    Slot { insertion: now, value },
                )
            }),
    {
        let slot = Slot { insertion: now, value };
        let full = self.with(key, slot);
        self.lemma_with(key, slot);
        assert(full.head_evictable(now, expiration, max_size));
        let rest = full.without_head();
        full.lemma_without_head();
        assert(full.order.contains(full.order[0]));
        full.lemma_without(full.order[0]);
        assert(rest.order.len() == max_size);
        assert(rest.order.contains(rest.order[0]));
        assert(rest.contains(rest.order[0]));
        if rest.order[0] != key {
            assert(self.contains(rest.order[0]));
        }
        assert(!rest.head_evictable(now, expiration, max_size));
        assert(rest.trimmed(now, expiration, max_size) == rest);
        assert(rest.order =~= self.order.skip(1).push(key));
        assert(self.order.contains(self.order[0]));
        assert(rest.slots =~= self.slots.remove(self.order[0]).insert(key, slot));
    }

    /// Every read of `key` at one of `times`, taken in turn, returns a value.
    pub open spec fn reads_all_hit(
        self,
        key: K,
        times: Seq<u128>,
        expiration: u128,
        expiration_type: ExpirationType,
    ) -> bool
        decreases times.len(),
    {
        if times.len() == 0 {
            true
        } else {
            let (next, found) = self.get_at(key, times[0], expiration, expiration_type);
            found is Some && next.reads_all_hit(key, times.skip(1), expiration, expiration_type)
        }
    }

    /// Under sliding expiration a key never expires while it is read again
    /// before its age exceeds the expiration: the first read within that span
    /// of the insertion, each later read within that span of the one before.
    pub proof fn lemma_sliding_reads_never_expire(self, key: K, times: Seq<u128>, expiration: u128)
        requires
            self.wf(),
            self.contains(key),
            times.len() > 0 ==> !expired(self.slots[key].insertion, times[0], expiration),
            forall|i: int|
                0 <= i < times.len() - 1 ==> !expired(times[i], #[trigger] times[i + 1], expiration),
        ensures
            self.reads_all_hit(key, times, expiration, ExpirationType::Sliding),
        decreases times.len(),
    {
        if times.len() > 0 {
            let (next, found) = self.get_at(key, times[0], expiration, ExpirationType::Sliding);
            self.lemma_get_at(key, times[0], expiration, ExpirationType::Sliding);
            let rest = times.skip(1);
            assert(next.slots[key].insertion == times[0]);
            assert forall|i: int| 0 <= i < rest.len() - 1 implies !expired(
                rest[i],
                #[trigger] rest[i + 1],
                expiration,
            ) by {
                assert(rest[i + 1] == times[i + 1 + 1]);
            }
            if rest.len() > 0 {
                assert(rest[0] == times[0int + 1]);
            }
            next.lemma_sliding_reads_never_expire(key, rest, expiration);
        }
    }

    /// Under absolute expiration a read does not change when the entry was
    /// inserted.
    pub proof fn lemma_absolute_read_keeps_insertion(self, key: K, now: u128, expiration: u128)
        requires
            self.wf(),
            self.contains(key),
            !expired(self.slots[key].insertion, now, expiration),
        ensures
            self.get_at(key, now, expiration, ExpirationType::Absolute).0.slots[key].insertion
                == self.slots[key].insertion,
    {
    }

    /// An entry read when more than the expiration has passed since its
    /// insertion is dropped by that read, and the read returns nothing.
    pub proof fn lemma_expired_entry_is_evicted_on_read(
        self,
        key: K,
        now: u128,
        expiration: u128,
        expiration_type: ExpirationType,
    )
        requires
            self.wf(),
            self.contains(key),
            expired(self.slots[key].insertion, now, expiration),
        ensures
            ({
                let (next, found) = self.get_at(key, now, expiration, expiration_type);
                found is None && !next.contains(key) && next == self.without(key)
            }),
    {
        self.lemma_without(key);
    }

    /// A key admitted at `added_at` and next read after more than the
    /// expiration is evicted by that read.
    pub proof fn lemma_add_then_late_get(
        self,
        key: K,
        value: Arc<V>,
        added_at: u128,
        read_at: u128,
        expiration: u128,
        expiration_type: ExpirationType,
        max_size: usize,
    )
        requires
            self.wf(),
            !self.contains(key),
            max_size >= 1,
            expired(added_at, read_at, expiration),
        ensures
            ({
                let (admitted, added) = self.add_at(key, value, added_at, expiration, max_size);
                let (next, found) = admitted.get_at(key, read_at, expiration, expiration_type);
                added && found is None && !next.contains(key)
            }),
    {
        let slot = Slot { insertion: added_at, value };
        self.lemma_with(key, slot);
        self.with(key, slot).lemma_trimmed_keeps_fresh_tail(added_at, expiration, max_size);
        self.with(key, slot).lemma_trimmed(added_at, expiration, max_size);
        let admitted = self.add_at(key, value, added_at, expiration, max_size).0;
        admitted.lemma_expired_entry_is_evicted_on_read(key, read_at, expiration, expiration_type);
    }
}


impl<K, V> LruView<K, V> {
    /// How many keys were used more recently than `key`.
    pub open spec fn newer_than(self, key: K) -> int {
        self.order.len() - 1 - self.order.index_of(key)
    }

    /// The state after admissions of `keys`, in turn, each with its value
    /// and at its time.
    pub open spec fn add_each(
        self,
        keys: Seq<K>,
        values: Seq<Arc<V>>,
        times: Seq<u128>,
        expiration: u128,
        max_size: usize,
    ) -> Self
        decreases keys.len(),
    {
        if keys.len() == 0 {
            self
        } else {
            self.add_each(keys.drop_last(), values, times, expiration, max_size).add_at(
                keys.last(),
                values[keys.len() - 1],
                times[keys.len() - 1],
                expiration,
                max_size,
            ).0
        }
    }

    /// A key stands in the order where it is found.
    pub proof fn lemma_index_of(self, key: K, p: int)
        requires
            self.wf(),
            0 <= p < self.order.len(),
            self.order[p] == key,
        ensures
            self.order.index_of(key) == p,
            self.contains(key),
    {
        let q = self.order.index_of(key);
        assert(0 <= q < self.order.len() && self.order[q] == key);
        assert(self.order.contains(key));
    }

    /// Trimming keeps an entry that is not expired and that fewer than
    /// `max_size` keys were used more recently than.
    pub proof fn lemma_trimmed_keeps(self, key: K, now: u128, expiration: u128, max_size: usize)
        requires
            self.wf(),
            self.contains(key),
            !expired(self.slots[key].insertion, now, expiration),
            self.newer_than(key) < max_size,
        ensures
            ({
                let t = self.trimmed(now, expiration, max_size);
                &&& t.wf()
                &&& t.contains(key)
                &&& t.slots[key] == self.slots[key]
                &&& t.newer_than(key) == self.newer_than(key)
            }),
        decreases self.order.len(),
    {
        let p = self.order.index_of(key);
        assert(self.order.contains(key));
        assert(0 <= p < self.order.len() && self.order[p] == key);
        if self.head_evictable(now, expiration, max_size) {
            let rest = self.without_head();
            self.lemma_without_head();
            assert(self.order.contains(self.order[0]));
            self.lemma_without(self.order[0]);
            if p == 0 {
                assert(false);
            }
            assert(rest.order[p - 1] == key);
            rest.lemma_index_of(key, p - 1);
            rest.lemma_trimmed_keeps(key, now, expiration, max_size);
        }
    }

    /// An admission keeps an entry that is not expired at its time, while
    /// fewer than `max_size - 1` keys were used more recently than that entry.
    pub proof fn lemma_add_keeps(
        self,
        held: K,
        key: K,
        value: Arc<V>,
        now: u128,
        expiration: u128,
        max_size: usize,
    )
        requires
            self.wf(),
            self.contains(held),
            !expired(self.slots[held].insertion, now, expiration),
            self.newer_than(held) + 1 < max_size,
        ensures
            ({
                let next = self.add_at(key, value, now, expiration, max_size).0;
                &&& next.wf()
                &&& next.contains(held)
                &&& next.slots[held] == self.slots[held]
                &&& self.newer_than(held) <= next.newer_than(held) <= self.newer_than(held) + 1
            }),
    {
        if !self.contains(key) {
            let slot = Slot { insertion: now, value };
            let grown = self.with(key, slot);
            self.lemma_with(key, slot);
            let p = self.order.index_of(held);
            assert(self.order.contains(held));
            assert(0 <= p < self.order.len() && self.order[p] == held);
            assert(grown.order[p] == held);
            grown.lemma_index_of(held, p);
            grown.lemma_trimmed_keeps(held, now, expiration, max_size);
        }
    }

    /// Admissions keep an entry that is not expired at any of their times,
    /// while they and the keys that were used more recently than that entry
    /// are fewer than `max_size` together.
    pub proof fn lemma_add_each_keeps(
        self,
        held: K,
        keys: Seq<K>,
        values: Seq<Arc<V>>,
        times: Seq<u128>,
        expiration: u128,
        max_size: usize,
    )
        requires
            self.wf(),
            self.contains(held),
            self.newer_than(held) + keys.len() < max_size,
            forall|i: int|
                0 <= i < keys.len() ==> !expired(
                    self.slots[held].insertion,
                    #[trigger] times[i],
                    expiration,
                ),
        ensures
            ({
                let end = self.add_each(keys, values, times, expiration, max_size);
                &&& end.wf()
                &&& end.contains(held)
                &&& end.slots[held] == self.slots[held]
                &&& end.newer_than(held) <= self.newer_than(held) + keys.len()
            }),
        decreases keys.len(),
    {
        if keys.len() > 0 {
            let front = keys.drop_last();
            let last = keys.len() - 1;
            assert forall|i: int| 0 <= i < front.len() implies !expired(
                self.slots[held].insertion,
                #[trigger] times[i],
                expiration,
            ) by {}
            self.lemma_add_each_keeps(held, front, values, times, expiration, max_size);
            let before = self.add_each(front, values, times, expiration, max_size);
            assert(!expired(self.slots[held].insertion, times[last], expiration));
            before.lemma_add_keeps(held, keys[last], values[last], times[last], expiration, max_size);
        }
    }

    /// A key that is admitted is returned by a later read, if the read and
    /// the admissions that came between were made before the entry expired,
    /// and those admissions were fewer than `max_size`.
    pub proof fn lemma_add_then_get_after_admissions(
        self,
        key: K,
        value: Arc<V>,
        added_at: u128,
        keys: Seq<K>,
        values: Seq<Arc<V>>,
        times: Seq<u128>,
        read_at: u128,
        expiration: u128,
        expiration_type: ExpirationType,
        max_size: usize,
    )
        requires
            self.wf(),
            !self.contains(key),
            keys.len() < max_size,
            forall|i: int| 0 <= i < keys.len() ==> !expired(added_at, #[trigger] times[i], expiration),
            !expired(added_at, read_at, expiration),
        ensures
            ({
                let (admitted, added) = self.add_at(key, value, added_at, expiration, max_size);
                let later = admitted.add_each(keys, values, times, expiration, max_size);
                &&& added
                &&& later.get_at(key, read_at, expiration, expiration_type).1 == Some(value)
            }),
    {
        let slot = Slot { insertion: added_at, value };
        let grown = self.with(key, slot);
        self.lemma_with(key, slot);
        grown.lemma_trimmed_keeps_fresh_tail(added_at, expiration, max_size);
        grown.lemma_trimmed(added_at, expiration, max_size);
        let admitted = self.add_at(key, value, added_at, expiration, max_size).0;
        admitted.lemma_index_of(key, admitted.order.len() - 1);
        admitted.lemma_add_each_keeps(key, keys, values, times, expiration, max_size);
    }

    /// An admission of a key that is not held, to a cache that may hold a
    /// key, leaves the key as the most recently used, with the value and the
    /// time of the admission.
    pub proof fn lemma_add_fresh(
        self,
        key: K,
        value: Arc<V>,
        now: u128,
        expiration: u128,
        max_size: usize,
    )
        requires
            self.wf(),
            !self.contains(key),
            max_size >= 1,
        ensures
            ({
                let (next, added) = self.add_at(key, value, now, expiration, max_size);
                &&& added
                &&& next.wf()
                &&& next.contains(key)
                &&& next.slots[key] == Slot { insertion: now, value }
                &&& next.newer_than(key) == 0
                &&& forall|k: K| #[trigger] next.contains(k) ==> self.contains(k) || k == key
            }),
    {
        let slot = Slot { insertion: now, value };
        let grown = self.with(key, slot);
        self.lemma_with(key, slot);
        grown.lemma_trimmed_keeps_fresh_tail(now, expiration, max_size);
        grown.lemma_trimmed(now, expiration, max_size);
        let next = self.add_at(key, value, now, expiration, max_size).0;
        next.lemma_index_of(key, next.order.len() - 1);
    }
}

} // verus!
