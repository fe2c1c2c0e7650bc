//! A cache that keeps its keys in order of use and drops entries by age and
//! by size.

use crate::caches::model::{expired, LruView, Slot};
use crate::caches::Cache;
use crate::caches::ExpirationType;
use crate::clock::Clock;
use crate::collections::arena_linked_list::ArenaLinkedList;
use std::collections::HashMap;
use std::hash::Hash;
use std::sync::Arc;
use vstd::prelude::*;

verus! {

/// The largest size a cache can have: half the range of handles, so that the
/// recency list can always take one more key.
pub const MAX_ENTRIES: usize = usize::MAX / 2;

/// `max_size` as a cache takes it: no more than `MAX_ENTRIES`.
pub open spec fn capped(max_size: usize) -> usize {
    if max_size > MAX_ENTRIES {
        MAX_ENTRIES
    } else {
        max_size
    }
}

/// `max_size` as a cache takes it.
pub fn cap(max_size: usize) -> (size: usize)
    ensures
        size == capped(max_size),
{
    if max_size > MAX_ENTRIES {
        MAX_ENTRIES
    } else {
        max_size
    }
}

/// `Arc::clone`: another handle to the same shared value.
#[verifier::external_body]
pub(crate) fn share<V>(value: &Arc<V>) -> (shared: Arc<V>)
    ensures
        shared == *value,
{
    Arc::clone(value)
}

/// Whether an entry inserted at `insertion` is expired at `now`.
pub fn is_expired(insertion: u128, now: u128, expiration: u128) -> (r: bool)
    ensures
        r == expired(insertion, now, expiration),
{
    now > insertion && now - insertion > expiration
}

/// What the map holds for a key: its node in the recency list, when it was
/// inserted or last refreshed, and the shared value.
pub struct LruCacheEntry<V> {
    node_index: usize,
    insertion: u128,
    value: Arc<V>,
}

/// A cache of at most `max_size` shared values, each with a lifetime. The
/// recency list holds the keys from least to most recently used; the map
/// holds, for each key, its node in the list, its insertion time and its value.
pub struct LruCache<K, V> {
    lru_list: ArenaLinkedList<K>,
    map: HashMap<K, LruCacheEntry<V>>,
    expiration: u128,
    expiration_type: ExpirationType,
    max_size: usize,
    clock: Clock,
}

impl<K: Copy + Eq + Hash, V> View for LruCache<K, V> {
    type V = LruView<K, V>;

    closed spec fn view(&self) -> LruView<K, V> {
        LruView {
            order: self.lru_list@,
            slots: Map::new(
                |k: K| self.map@.contains_key(k),
                |k: K| Slot { insertion: self.map@[k].insertion, value: self.map@[k].value },
            ),
        }
    }
}

impl<K: Copy + Eq + Hash, V> LruCache<K, V> {
    /// The size above which the least recently used entries are dropped.
    pub closed spec fn spec_max_size(&self) -> usize {
        self.max_size
    }

    /// The age, in nanoseconds, above which an entry is expired.
    pub closed spec fn spec_expiration(&self) -> u128 {
        self.expiration
    }

    /// How the age of an entry is counted.
    pub closed spec fn spec_expiration_type(&self) -> ExpirationType {
        self.expiration_type
    }

    /// The map and the recency list hold the same keys, each entry knows its
    /// node, and each node holds its entry's key.
    spec fn inv(&self) -> bool {
        &&& vstd::std_specs::hash::obeys_key_model::<K>()
        &&& self.lru_list.wf()
        &&& self.max_size <= MAX_ENTRIES
        &&& forall|k: K| #[trigger]
            self.map@.contains_key(k) ==> {
                &&& self.lru_list.is_live(self.map@[k].node_index)
                &&& self.lru_list.value(self.map@[k].node_index) == k
            }
        &&& forall|p: int|
            0 <= p < self.lru_list.handles().len() ==> {
                let h = #[trigger] self.lru_list.handles()[p];
                &&& self.map@.contains_key(self.lru_list.value(h))
                &&& self.map@[self.lru_list.value(h)].node_index == h
            }
    }

    /// The cache's invariant: `inv`, and the size is within the limit.
    pub closed spec fn wf(&self) -> bool {
        &&& self.inv()
        &&& self.lru_list.handles().len() <= self.max_size
    }

    /// The map and the recency list hold the same keys, each once, and no
    /// more of them than the cache's size.
    pub proof fn lemma_size(&self)
        requires
            self.wf(),
        ensures
            self@.wf(),
            self@.slots.dom().finite(),
            self@.slots.dom().len() == self@.order.len(),
            self@.order.len() <= self.spec_max_size(),
            self.spec_max_size() <= MAX_ENTRIES,
    {
        self.lemma_inv();
        self@.lemma_cardinality();
    }

    /// Under `inv`, the model is well-formed and the node of a key stands at
    /// the key's position in the order.
    proof fn lemma_inv(&self)
        requires
            self.inv(),
        ensures
            self@.wf(),
            self@.order.len() == self.lru_list.handles().len(),
            forall|k: K| #[trigger]
                self.map@.contains_key(k) ==> {
                    let p = self.lru_list.position(self.map@[k].node_index);
                    &&& 0 <= p < self@.order.len()
                    &&& self@.order[p] == k
                    &&& self@.order.index_of(k) == p
                    &&& self.lru_list.handles()[p] == self.map@[k].node_index
                },
            forall|p: int|
                0 <= p < self@.order.len() ==> self.map@.contains_key(#[trigger] self@.order[p])
                    && self.map@[self@.order[p]].node_index == self.lru_list.handles()[p],
    {
        self.lru_list.lemma_wf();
        let order = self@.order;
        assert forall|p: int| 0 <= p < order.len() implies self.map@.contains_key(
            #[trigger] order[p],
        ) && self.map@[order[p]].node_index == self.lru_list.handles()[p] by {
            let h = self.lru_list.handles()[p];
        }
        assert forall|i: int, j: int| 0 <= i < order.len() && 0 <= j < order.len() && i != j implies order[i]
            != order[j] by {
            let hi = self.lru_list.handles()[i];
            let hj = self.lru_list.handles()[j];
        }
        assert forall|k: K| #[trigger] self.map@.contains_key(k) implies {
            let p = self.lru_list.position(self.map@[k].node_index);
            &&& 0 <= p < order.len()
            &&& order[p] == k
            &&& order.index_of(k) == p
            &&& self.lru_list.handles()[p] == self.map@[k].node_index
        } by {
            let h = self.map@[k].node_index;
            let p = self.lru_list.position(h);
            assert(self.lru_list.is_live(h));
            assert(0 <= p < order.len());
            assert(self.lru_list.handles()[p] == h);
            assert(order[p] == k);
            let q = order.index_of(k);
            assert(0 <= q < order.len() && order[q] == k);
        }
        assert forall|k: K| self@.slots.contains_key(k) <==> order.contains(k) by {
            if self@.slots.contains_key(k) {
                assert(self.map@.contains_key(k));
                let p = self.lru_list.position(self.map@[k].node_index);
                assert(order[p] == k);
            }
            if order.contains(k) {
                let p = choose|p: int| 0 <= p < order.len() && order[p] == k;
                assert(self.map@.contains_key(order[p]));
            }
        }
    }
}


impl<K: Copy + Eq + Hash, V> LruCache<K, V> {
    /// An empty cache of at most `max_size` entries, capped at `MAX_ENTRIES`,
    /// whose entries expire after `expiration` nanoseconds.
    pub fn new(max_size: usize, expiration: u128, expiration_type: ExpirationType) -> (cache: Self)
        requires
            vstd::std_specs::hash::obeys_key_model::<K>(),
        ensures
            cache.wf(),
            cache@ == LruView::<K, V>::empty(),
            cache.spec_max_size() == capped(max_size),
            cache.spec_expiration() == expiration,
            cache.spec_expiration_type() == expiration_type,
    {
        let max_size: usize = cap(max_size);
        let cache = Self {
            lru_list: ArenaLinkedList::new_with_capacity(4),
            map: HashMap::new(),
            expiration,
            expiration_type,
            max_size,
            clock: Clock::new(),
        };
        proof {
            assert(cache@.order =~= Seq::<K>::empty());
            assert(cache@.slots =~= Map::<K, Slot<V>>::empty());
        }
        cache
    }

    /// The size above which the least recently used entries are dropped.
    pub fn max_size(&self) -> (max_size: usize)
        ensures
            max_size == self.spec_max_size(),
    {
        self.max_size
    }

    /// The age, in nanoseconds, above which an entry is expired.
    pub fn expiration(&self) -> (expiration: u128)
        ensures
            expiration == self.spec_expiration(),
    {
        self.expiration
    }

    /// How the age of an entry is counted.
    pub fn expiration_type(&self) -> (expiration_type: ExpirationType)
        ensures
            expiration_type == self.spec_expiration_type(),
    {
        self.expiration_type
    }

    /// The number of entries.
    pub fn len(&self) -> (len: usize)
        requires
            self.wf(),
        ensures
            len == self@.len(),
            len <= self.spec_max_size(),
    {
        proof {
            self.lemma_inv();
        }
        self.lru_list.count()
    }

    /// Admits `key` at the time `now`, unless it is already held, and trims.
    pub fn try_add_at(&mut self, key: K, value: Arc<V>, now: u128) -> (added: bool)
        requires
            old(self).wf(),
        ensures
            final(self).wf(),
            final(self).spec_max_size() == old(self).spec_max_size(),
            final(self).spec_expiration() == old(self).spec_expiration(),
            final(self).spec_expiration_type() == old(self).spec_expiration_type(),
            (final(self)@, added) == old(self)@.add_at(
                key,
                value,
                now,
                old(self).spec_expiration(),
                old(self).spec_max_size(),
            ),
    {
        broadcast use vstd::std_specs::hash::group_hash_axioms;

        if self.map.contains_key(&key) {
            return false;
        }
        proof {
            self.lemma_inv();
            self.lru_list.lemma_wf();
        }
        match self.lru_list.add_last(key) {
            Ok(node_index) => {
                self.map.insert(key, LruCacheEntry { node_index, insertion: now, value });
                proof {
                    assert(self.lru_list@ =~= old(self).lru_list@.push(key));
                    assert(self@.slots =~= old(self)@.slots.insert(
                        key,
                        Slot { insertion: now, value },
                    ));
                    assert(self@ == old(self)@.with(key, Slot { insertion: now, value }));
                    assert forall|k: K| #[trigger] self.map@.contains_key(k) implies {
                        &&& self.lru_list.is_live(self.map@[k].node_index)
                        &&& self.lru_list.value(self.map@[k].node_index) == k
                    } by {
                        if k != key {
                            assert(old(self).map@.contains_key(k));
                        }
                    }
                    assert forall|p: int| 0 <= p < self.lru_list.handles().len() implies {
                        let h = #[trigger] self.lru_list.handles()[p];
                        &&& self.map@.contains_key(self.lru_list.value(h))
                        &&& self.map@[self.lru_list.value(h)].node_index == h
                    } by {
                        if p < old(self).lru_list.handles().len() {
                            let h = old(self).lru_list.handles()[p];
                            assert(old(self).lru_list.linked_at(p));
                        }
                    }
                }
                self.trim_at(now);
                true
            },
            Err(_) => vstd::pervasive::unreached(),
        }
    }

    /// Drops least recently used entries for as long as the cache is over its
    /// size or the head's entry is expired at `now`.
    fn trim_at(&mut self, now: u128)
        requires
            old(self).inv(),
        ensures
            final(self).wf(),
            final(self).max_size == old(self).max_size,
            final(self).expiration == old(self).expiration,
            final(self).expiration_type == old(self).expiration_type,
            final(self)@ == old(self)@.trimmed(now, old(self).expiration, old(self).max_size),
    {
        broadcast use vstd::std_specs::hash::group_hash_axioms;

        loop
            invariant
                self.inv(),
                self.max_size == old(self).max_size,
                self.expiration == old(self).expiration,
                self.expiration_type == old(self).expiration_type,
                self@.trimmed(now, self.expiration, self.max_size) == old(self)@.trimmed(
                    now,
                    old(self).expiration,
                    old(self).max_size,
                ),
            ensures
                self.wf(),
                self.max_size == old(self).max_size,
                self.expiration == old(self).expiration,
                self.expiration_type == old(self).expiration_type,
                self@ == old(self)@.trimmed(now, old(self).expiration, old(self).max_size),
            decreases self.lru_list.handles().len(),
        {
            proof {
                self.lemma_inv();
                self.lru_list.lemma_wf();
            }
            let index: usize = match self.lru_list.get_first_index() {
                Ok(index) => index,
                Err(_) => {
                    break ;
                },
            };
            proof {
                assert(self.lru_list.linked_at(0));
            }
            let key: K = match self.lru_list.get(index) {
                Ok(node) => match node.get_value() {
                    Some(key) => *key,
                    None => vstd::pervasive::unreached(),
                },
                Err(_) => vstd::pervasive::unreached(),
            };
            let insertion: u128 = match self.map.get(&key) {
                Some(entry) => entry.insertion,
                None => vstd::pervasive::unreached(),
            };
            if self.lru_list.count() > self.max_size || is_expired(
                insertion,
                now,
                self.expiration,
            ) {
                let ghost before = *self;
                self.map.remove(&key);
                let _ = self.lru_list.remove(index);
                proof {
                    assert(self.lru_list@ =~= before.lru_list@.skip(1));
                    assert(self@.slots =~= before@.slots.remove(key));
                    assert(self@ == before@.without_head());
                    assert forall|k: K| #[trigger] self.map@.contains_key(k) implies {
                        &&& self.lru_list.is_live(self.map@[k].node_index)
                        &&& self.lru_list.value(self.map@[k].node_index) == k
                    } by {
                        assert(before.map@.contains_key(k));
                    }
                    assert forall|p: int| 0 <= p < self.lru_list.handles().len() implies {
                        let h = #[trigger] self.lru_list.handles()[p];
                        &&& self.map@.contains_key(self.lru_list.value(h))
                        &&& self.map@[self.lru_list.value(h)].node_index == h
                    } by {
                        let h = before.lru_list.handles()[p + 1];
                        assert(before.lru_list.linked_at(p + 1));
                    }
                }
            } else {
                break ;
            }
        }
    }

    /// Reads `key` at the time `now`. An expired entry is dropped and not
    /// returned; a live one becomes the most recently used and, under sliding
    /// expiration, counts as inserted at `now`.
    pub fn try_get_at(&mut self, key: &K, now: u128) -> (found: Option<Arc<V>>)
        requires
            old(self).wf(),
        ensures
            final(self).wf(),
            final(self).spec_max_size() == old(self).spec_max_size(),
            final(self).spec_expiration() == old(self).spec_expiration(),
            final(self).spec_expiration_type() == old(self).spec_expiration_type(),
            (final(self)@, found) == old(self)@.get_at(
                *key,
                now,
                old(self).spec_expiration(),
                old(self).spec_expiration_type(),
            ),
    {
        broadcast use vstd::std_specs::hash::group_hash_axioms;

        proof {
            self.lemma_inv();
            self.lru_list.lemma_wf();
        }
        let entry: LruCacheEntry<V> = match self.map.remove(key) {
            Some(entry) => entry,
            None => {
                proof {
                    assert(self.map@ =~= old(self).map@);
                    assert(self@.slots =~= old(self)@.slots);
                }
                return None;
            },
        };
        let ghost p = self.lru_list.position(entry.node_index);
        let removed = self.lru_list.remove(entry.node_index);
        proof {
            assert(self.lru_list@ =~= old(self)@.order.remove(p));
            assert(self@.slots =~= old(self)@.slots.remove(*key));
            assert(self@ == old(self)@.without(*key));
            assert forall|k: K| #[trigger] self.map@.contains_key(k) implies {
                &&& self.lru_list.is_live(self.map@[k].node_index)
                &&& self.lru_list.value(self.map@[k].node_index) == k
            } by {
                assert(old(self).map@.contains_key(k));
            }
            assert forall|q: int| 0 <= q < self.lru_list.handles().len() implies {
                let h = #[trigger] self.lru_list.handles()[q];
                &&& self.map@.contains_key(self.lru_list.value(h))
                &&& self.map@[self.lru_list.value(h)].node_index == h
            } by {
                let q0 = if q < p {
                    q
                } else {
                    q + 1
                };
                let h = old(self).lru_list.handles()[q0];
                assert(old(self).lru_list.linked_at(q0));
                assert(old(self).lru_list.linked_at(p));
            }
            assert(self.inv());
        }
        if is_expired(entry.insertion, now, self.expiration) {
            return None;
        }
        let insertion: u128 = match self.expiration_type {
            ExpirationType::Sliding => now,
            ExpirationType::Absolute => entry.insertion,
        };
        let ghost mid = *self;
        proof {
            mid.lru_list.lemma_wf();
        }
        match self.lru_list.add_last(*key) {
            Ok(node_index) => {
                let shared = share(&entry.value);
                self.map.insert(*key, LruCacheEntry { node_index, insertion, value: entry.value });
                proof {
                    let slot = Slot { insertion, value: entry.value };
                    assert(self.lru_list@ =~= mid.lru_list@.push(*key));
                    assert(self@.slots =~= mid@.slots.insert(*key, slot));
                    assert(self@ == old(self)@.touched(*key, insertion));
                    assert forall|k: K| #[trigger] self.map@.contains_key(k) implies {
                        &&& self.lru_list.is_live(self.map@[k].node_index)
                        &&& self.lru_list.value(self.map@[k].node_index) == k
                    } by {
                        if k != *key {
                            assert(mid.map@.contains_key(k));
                        }
                    }
                    assert forall|q: int| 0 <= q < self.lru_list.handles().len() implies {
                        let h = #[trigger] self.lru_list.handles()[q];
                        &&& self.map@.contains_key(self.lru_list.value(h))
                        &&& self.map@[self.lru_list.value(h)].node_index == h
                    } by {
                        if q < mid.lru_list.handles().len() {
                            let h = mid.lru_list.handles()[q];
                            assert(mid.lru_list.linked_at(q));
                        }
                    }
                }
                Some(shared)
            },
            Err(_) => vstd::pervasive::unreached(),
        }
    }
}

impl<K: Copy + Eq + Hash, V> Cache<K, V> for LruCache<K, V> {
    open spec fn valid(&self) -> bool {
        self.wf()
    }

    /// `next` and `added` are what `add_at` gives for some time, and the
    /// cache keeps its size and its expiration.
    open spec fn admits(&self, key: K, value: Arc<V>, next: &Self, added: bool) -> bool {
        &&& next.spec_max_size() == self.spec_max_size()
        &&& next.spec_expiration() == self.spec_expiration()
        &&& next.spec_expiration_type() == self.spec_expiration_type()
        &&& exists|now: u128|
            (next@, added) == #[trigger] self@.add_at(
                key,
                value,
                now,
                self.spec_expiration(),
                self.spec_max_size(),
            )
    }

    /// `next` and `found` are what `get_at` gives for some time, and the
    /// cache keeps its size and its expiration.
    open spec fn reads(&self, key: K, next: &Self, found: Option<Arc<V>>) -> bool {
        &&& next.spec_max_size() == self.spec_max_size()
        &&& next.spec_expiration() == self.spec_expiration()
        &&& next.spec_expiration_type() == self.spec_expiration_type()
        &&& exists|now: u128|
            (next@, found) == #[trigger] self@.get_at(
                key,
                now,
                self.spec_expiration(),
                self.spec_expiration_type(),
            )
    }

    /// `try_add_at` at the time that the cache's clock shows.
    fn try_add_arc(&mut self, key: K, value: Arc<V>) -> (added: bool) {
        let now = self.clock.now();
        self.try_add_at(key, value, now)
    }

    /// `try_get_at` at the time that the cache's clock shows.
    fn try_get(&mut self, key: &K) -> (found: Option<Arc<V>>) {
        let now = self.clock.now();
        self.try_get_at(key, now)
    }
}

} // verus!
