//! A doubly-linked list whose nodes live in a growable array.
//!
//! Nodes are addressed by their index in the array, a *handle*. A handle stays
//! valid, and keeps naming the same value, until that node is removed. Unused
//! slots are chained into a free list that is reused last-in first-out.

use vstd::prelude::*;

verus! {

/// The reserved handle that refers to no node.
pub const NO_INDEX: usize = usize::MAX;

/// Why an operation on an [`ArenaLinkedList`] was refused.
#[derive(Debug, Clone, Copy, PartialEq, Eq, Structural)]
pub enum ArenaError {
    /// The handle is `NO_INDEX`, out of range, or names a free slot.
    InvalidHandle,
    /// The arena is full and its length cannot be doubled.
    CapacityOverflow,
}

/// One slot of the arena: a live node when it holds a value, a free slot otherwise.
pub struct ArenaLinkedListNode<T> {
    before_index: usize,
    after_index: usize,
    value: Option<T>,
}

impl<T> ArenaLinkedListNode<T> {
    /// The handle of the node before this one, `NO_INDEX` at the head.
    pub closed spec fn spec_before_index(&self) -> usize {
        self.before_index
    }

    /// The handle of the node after this one, `NO_INDEX` at the tail.
    pub closed spec fn spec_after_index(&self) -> usize {
        self.after_index
    }

    /// The value of a live node, `None` for a free slot.
    pub closed spec fn spec_value(&self) -> Option<T> {
        self.value
    }

    /// A free slot that is linked to nothing.
    pub fn new() -> (node: Self)
        ensures
            node.spec_before_index() == NO_INDEX,
            node.spec_after_index() == NO_INDEX,
            node.spec_value() is None,
    {
        Self { before_index: NO_INDEX, after_index: NO_INDEX, value: None }
    }

    /// The handle of the node after this one, `NO_INDEX` at the tail.
    pub fn get_after_index(&self) -> (index: usize)
        ensures
            index == self.spec_after_index(),
    {
        self.after_index
    }

    /// The value of a live node, `None` for a free slot.
    pub fn get_value(&self) -> (value: &Option<T>)
        ensures
            *value == self.spec_value(),
    {
        &self.value
    }
}

/// The list. `live` is the sequence of live handles from head to tail, `free`
/// the free chain from its head, and `place` maps a live handle to its
/// position in `live`.
pub struct ArenaLinkedList<T> {
    count: usize,
    first_index: usize,
    last_index: usize,
    first_free_node_index: usize,
    array: Vec<ArenaLinkedListNode<T>>,
    live: Ghost<Seq<usize>>,
    free: Ghost<Seq<usize>>,
    place: Ghost<spec_fn(usize) -> int>,
}

/// The handles `start, start + 1, .., start + count - 1`.
pub open spec fn handle_range(start: int, count: int) -> Seq<usize> {
    Seq::new(count as nat, |q: int| (start + q) as usize)
}

impl<T> View for ArenaLinkedList<T> {
    type V = Seq<T>;

    /// The values from head to tail.
    open spec fn view(&self) -> Seq<T> {
        Seq::new(self.handles().len(), |p: int| self.value(self.handles()[p]))
    }
}

impl<T> ArenaLinkedList<T> {
    /// The live handles, from head to tail.
    pub closed spec fn handles(&self) -> Seq<usize> {
        self.live@
    }

    /// The free slots, in the order in which they will be handed out.
    pub closed spec fn free_handles(&self) -> Seq<usize> {
        self.free@
    }

    /// The number of slots in the arena.
    pub closed spec fn capacity(&self) -> nat {
        self.array@.len()
    }

    /// The slot that `h` names.
    pub closed spec fn node(&self, h: usize) -> ArenaLinkedListNode<T> {
        self.array@[h as int]
    }

    /// The position of a live handle in `handles()`.
    pub closed spec fn position(&self, h: usize) -> int {
        (self.place@)(h)
    }

    /// The number of live nodes that the list has counted.
    pub closed spec fn spec_count(&self) -> usize {
        self.count
    }

    /// The head's handle, `NO_INDEX` when the list is empty.
    pub closed spec fn first(&self) -> usize {
        self.first_index
    }

    /// The tail's handle, `NO_INDEX` when the list is empty.
    pub closed spec fn last(&self) -> usize {
        self.last_index
    }

    /// The handle of the first free slot, `NO_INDEX` when the arena is full.
    pub closed spec fn first_free(&self) -> usize {
        self.first_free_node_index
    }

    /// `h` names a live node.
    pub open spec fn is_live(&self, h: usize) -> bool {
        h < self.capacity() && self.node(h).spec_value() is Some
    }

    /// The value of the live node `h`.
    pub open spec fn value(&self, h: usize) -> T {
        self.node(h).spec_value()->0
    }

    /// The handle that the next insertion will use.
    pub open spec fn next_handle(&self) -> usize {
        if self.free_handles().len() > 0 {
            self.free_handles()[0]
        } else {
            self.capacity() as usize
        }
    }

    /// The insertion that would have to grow the arena cannot: doubling its
    /// length leaves the range of handles.
    pub open spec fn exhausted(&self) -> bool {
        self.free_handles().len() == 0 && 2 * self.capacity() > usize::MAX
    }

    /// The arena's length after the next insertion.
    pub open spec fn capacity_after_insert(&self) -> nat {
        if self.free_handles().len() > 0 {
            self.capacity()
        } else {
            2 * self.capacity()
        }
    }

    /// The free chain after the next insertion: the old chain without its
    /// head, or, after growth, the new half without its first slot.
    pub open spec fn free_after_insert(&self) -> Seq<usize> {
        if self.free_handles().len() > 0 {
            self.free_handles().skip(1)
        } else {
            handle_range(self.capacity() as int + 1, self.capacity() as int - 1)
        }
    }

    /// The node at position `p` of the list is live and linked to its neighbours.
    spec fn live_at(&self, p: int) -> bool {
        let h = self.live@[p];
        &&& h < self.array@.len()
        &&& self.array@[h as int].value is Some
        &&& (self.place@)(h) == p
        &&& self.array@[h as int].before_index == (if p == 0 {
            NO_INDEX
        } else {
            self.live@[p - 1]
        })
        &&& self.array@[h as int].after_index == (if p == self.live@.len() - 1 {
            NO_INDEX
        } else {
            self.live@[p + 1]
        })
    }

    /// The slot at position `q` of the free chain is free and linked to the next.
    spec fn free_at(&self, q: int) -> bool {
        let h = self.free@[q];
        &&& h < self.array@.len()
        &&& self.array@[h as int].value is None
        &&& self.array@[h as int].after_index == (if q == self.free@.len() - 1 {
            NO_INDEX
        } else {
            self.free@[q + 1]
        })
    }

    spec fn live_chain(&self) -> bool {
        forall|p: int| 0 <= p < self.live@.len() ==> #[trigger] self.live_at(p)
    }

    spec fn free_chain(&self) -> bool {
        &&& self.free@.no_duplicates()
        &&& forall|q: int| 0 <= q < self.free@.len() ==> #[trigger] self.free_at(q)
    }

    spec fn ends(&self) -> bool {
        &&& self.first_index == (if self.live@.len() == 0 {
            NO_INDEX
        } else {
            self.live@[0]
        })
        &&& self.last_index == (if self.live@.len() == 0 {
            NO_INDEX
        } else {
            self.live@[self.live@.len() - 1]
        })
        &&& self.first_free_node_index == (if self.free@.len() == 0 {
            NO_INDEX
        } else {
            self.free@[0]
        })
    }

    /// The invariant, with at most one node `pending`: taken from the free
    /// chain and holding a value, but not yet linked into the list.
    spec fn inv(&self, pending: Option<usize>) -> bool {
        let extra: int = if pending is Some { 1 } else { 0 };
        &&& 1 <= self.array@.len() <= usize::MAX
        &&& self.count == self.live@.len() + extra
        &&& self.live@.len() + self.free@.len() + extra == self.array@.len()
        &&& self.ends()
        &&& self.live_chain()
        &&& self.free_chain()
        &&& forall|h: usize|
            h < self.array@.len() && (#[trigger] self.array@[h as int]).value is Some && pending
                != Some(h) ==> 0 <= (self.place@)(h) < self.live@.len() && self.live@[(self.place@)(h)]
                == h
        &&& pending matches Some(h) ==> {
            &&& h < self.array@.len()
            &&& self.array@[h as int].value is Some
            &&& forall|p: int| 0 <= p < self.live@.len() ==> #[trigger] self.live@[p] != h
        }
    }

    /// The list's invariant: the live handles and the free chain partition the
    /// arena, and the links of the nodes follow `handles()` and `free_handles()`.
    pub closed spec fn wf(&self) -> bool {
        self.inv(None)
    }
}


impl<T> ArenaLinkedList<T> {
    /// `self` is `prev` after `value` was inserted at position `p` under the
    /// fresh handle `h`.
    pub open spec fn is_insertion(&self, prev: &Self, p: int, value: T, h: usize) -> bool {
        &&& self.wf()
        &&& !prev.exhausted()
        &&& !prev.is_live(h)
        &&& h == prev.next_handle()
        &&& self.handles() == prev.handles().insert(p, h)
        &&& self.free_handles() == prev.free_after_insert()
        &&& self.capacity() == prev.capacity_after_insert()
        &&& self.is_live(h)
        &&& self.value(h) == value
        &&& forall|g: usize|
            #![trigger self.node(g)]
            prev.is_live(g) ==> self.is_live(g) && self.value(g) == prev.value(g)
        &&& self@ == prev@.insert(p, value)
    }

    /// `self` is `prev` after the live node `h` was removed.
    pub open spec fn is_removal(&self, prev: &Self, h: usize) -> bool {
        &&& self.wf()
        &&& self.handles() == prev.handles().remove(prev.position(h))
        &&& self.free_handles() == seq![h] + prev.free_handles()
        &&& self.capacity() == prev.capacity()
        &&& !self.is_live(h)
        &&& forall|g: usize|
            #![trigger self.node(g)]
            prev.is_live(g) && g != h ==> self.is_live(g) && self.value(g) == prev.value(g)
        &&& self@ == prev@.remove(prev.position(h))
    }

    /// An empty list over an arena of `capacity` slots, at least one.
    pub fn new_with_capacity(capacity: usize) -> (list: Self)
        ensures
            list.wf(),
            list.handles() == Seq::<usize>::empty(),
            list.capacity() == (if capacity < 1 {
                1
            } else {
                capacity as int
            }),
            list.free_handles() == handle_range(0, list.capacity() as int),
    {
        let capacity: usize = if capacity < 1 {
            1
        } else {
            capacity
        };
        let mut array: Vec<ArenaLinkedListNode<T>> = Vec::with_capacity(capacity);
        let mut i: usize = 0;
        while i < capacity
            invariant
                i <= capacity,
                array@.len() == i,
            decreases capacity - i,
        {
            array.push(ArenaLinkedListNode::new());
            i += 1;
        }
        let mut list = Self {
            count: 0,
            first_index: NO_INDEX,
            last_index: NO_INDEX,
            first_free_node_index: 0,
            array,
            live: Ghost(Seq::empty()),
            free: Ghost(Seq::empty()),
            place: Ghost(|h: usize| 0int),
        };
        list.fill_free(0, capacity);
        list
    }

    /// The number of live nodes.
    pub fn count(&self) -> (count: usize)
        requires
            self.wf(),
        ensures
            count == self.handles().len(),
            count == self.spec_count(),
    {
        self.count
    }

    /// The head's handle, or an error when the list is empty.
    pub fn get_first_index(&self) -> (r: Result<usize, ()>)
        requires
            self.wf(),
        ensures
            r == (if self.handles().len() == 0 {
                Err::<usize, ()>(())
            } else {
                Ok(self.handles()[0])
            }),
    {
        if self.count == 0 {
            return Err(());
        }
        Ok(self.first_index)
    }

    /// The tail's handle, or an error when the list is empty.
    pub fn get_last_index(&self) -> (r: Result<usize, ()>)
        requires
            self.wf(),
        ensures
            r == (if self.handles().len() == 0 {
                Err::<usize, ()>(())
            } else {
                Ok(self.handles().last())
            }),
    {
        if self.count == 0 {
            return Err(());
        }
        Ok(self.last_index)
    }

    /// Empties the list and rebuilds the free chain over the whole arena, in
    /// ascending order.
    pub fn clear(&mut self)
        requires
            old(self).wf(),
        ensures
            final(self).wf(),
            final(self).handles() == Seq::<usize>::empty(),
            final(self).capacity() == old(self).capacity(),
            final(self).free_handles() == handle_range(0, final(self).capacity() as int),
    {
        let len = self.array.len();
        self.fill_free(0, len);
        self.count = 0;
        self.first_index = NO_INDEX;
        self.last_index = NO_INDEX;
        self.live = Ghost(Seq::empty());
    }

    /// Frees the slots `start .. start + count`, which must be the arena's
    /// tail, and makes them the free chain, in ascending order.
    fn fill_free(&mut self, start: usize, count: usize)
        requires
            count >= 1,
            start + count == old(self).array@.len(),
        ensures
            final(self).array@.len() == old(self).array@.len(),
            forall|i: int| 0 <= i < start ==> final(self).array@[i] == old(self).array@[i],
            forall|i: int|
                start <= i < start + count ==> {
                    &&& (#[trigger] final(self).array@[i]).value is None
                    &&& final(self).array@[i].after_index == (if i == start + count - 1 {
                        NO_INDEX
                    } else {
                        (i + 1) as usize
                    })
                },
            final(self).first_free_node_index == start,
            final(self).free@ == handle_range(start as int, count as int),
            final(self).count == old(self).count,
            final(self).first_index == old(self).first_index,
            final(self).last_index == old(self).last_index,
            final(self).live@ == old(self).live@,
            final(self).place@ == old(self).place@,
    {
        self.first_free_node_index = start;
        let end: usize = self.array.len();
        let mut i: usize = start;
        while i < end
            invariant
                start <= i <= end,
                end == start + count,
                end == self.array@.len(),
                self.array@.len() == old(self).array@.len(),
                forall|j: int| 0 <= j < start ==> self.array@[j] == old(self).array@[j],
                forall|j: int|
                    start <= j < i ==> {
                        &&& (#[trigger] self.array@[j]).value is None
                        &&& self.array@[j].after_index == (if j == end - 1 {
                            NO_INDEX
                        } else {
                            (j + 1) as usize
                        })
                    },
                self.first_free_node_index == start,
                self.count == old(self).count,
                self.first_index == old(self).first_index,
                self.last_index == old(self).last_index,
                self.live@ == old(self).live@,
                self.place@ == old(self).place@,
            decreases end - i,
        {
            let next: usize = if i + 1 < end {
                i + 1
            } else {
                NO_INDEX
            };
            let node = &mut self.array[i];
            node.value = None;
            node.before_index = NO_INDEX;
            node.after_index = next;
            i += 1;
        }
        self.free = Ghost(handle_range(start as int, count as int));
    }
}


impl<T> ArenaLinkedList<T> {
    /// Whether `index` names a live node.
    fn holds(&self, index: usize) -> (live: bool)
        ensures
            live == self.is_live(index),
    {
        index < self.array.len() && self.array[index].value.is_some()
    }

    /// Takes the head of the free chain, doubling the arena first when it is
    /// full, and stores `value` there. The node is not linked yet.
    fn create_node(&mut self, value: T) -> (r: Result<usize, ArenaError>)
        requires
            old(self).wf(),
        ensures
            match r {
                Ok(h) => {
                    &&& !old(self).exhausted()
                    &&& !old(self).is_live(h)
                    &&& h == old(self).next_handle()
                    &&& final(self).inv(Some(h))
                    &&& final(self).array@.len() == old(self).capacity_after_insert()
                    &&& final(self).free@ == old(self).free_after_insert()
                    &&& final(self).live@ == old(self).live@
                    &&& final(self).place@ == old(self).place@
                    &&& final(self).array@[h as int].value == Some(value)
                    &&& forall|i: int|
                        0 <= i < old(self).array@.len() && i != h ==> final(self).array@[i] == old(
                            self,
                        ).array@[i]
                },
                Err(e) => {
                    &&& e == ArenaError::CapacityOverflow
                    &&& old(self).exhausted()
                    &&& *final(self) == *old(self)
                },
            },
    {
        if self.array.len() == self.count {
            let len: usize = self.array.len();
            let new_len: usize = match len.checked_mul(2) {
                Some(n) => n,
                None => {
                    return Err(ArenaError::CapacityOverflow);
                },
            };
            while self.array.len() < new_len
                invariant
                    len <= self.array@.len() <= new_len,
                    len == old(self).array@.len(),
                    forall|i: int| 0 <= i < len ==> self.array@[i] == old(self).array@[i],
                    self.count == old(self).count,
                    self.first_index == old(self).first_index,
                    self.last_index == old(self).last_index,
                    self.live@ == old(self).live@,
                    self.place@ == old(self).place@,
                decreases new_len - self.array@.len(),
            {
                self.array.push(ArenaLinkedListNode::new());
            }
            self.fill_free(len, new_len - len);
            proof {
                assert forall|p: int| 0 <= p < self.live@.len() implies #[trigger] self.live_at(
                    p,
                ) by {
                    assert(old(self).live_at(p));
                }
                assert forall|q: int| 0 <= q < self.free@.len() implies #[trigger] self.free_at(
                    q,
                ) by {
                    assert(self.array@[len + q].value is None);
                }
                assert(self.free@ =~= handle_range(len as int + 1, len as int - 1).insert(0, len));
                assert(self.free@.skip(1) =~= handle_range(len as int + 1, len as int - 1));
            }
        }
        let ghost mid = *self;
        proof {
            assert(mid.inv(None));
            assert(mid.free_at(0));
        }
        let index: usize = self.first_free_node_index;
        let node = &mut self.array[index];
        self.first_free_node_index = node.after_index;
        node.after_index = NO_INDEX;
        node.before_index = NO_INDEX;
        node.value = Some(value);
        self.count += 1;
        self.free = Ghost(self.free@.skip(1));
        proof {
            assert forall|q: int| 0 <= q < self.free@.len() implies #[trigger] self.free_at(q) by {
                assert(mid.free_at(q + 1));
            }
            assert forall|p: int| 0 <= p < self.live@.len() implies #[trigger] self.live_at(p) by {
                assert(mid.live_at(p));
            }
            assert forall|p: int| 0 <= p < self.live@.len() implies #[trigger] self.live@[p]
                != index by {
                assert(mid.live_at(p));
            }
        }
        Ok(index)
    }

    /// Inserts `value` at position `p`, between the nodes `before` and `after`.
    #[verifier::rlimit(40)]
    fn insert_between(&mut self, value: T, before: usize, after: usize, Ghost(p): Ghost<int>) -> (r:
        Result<usize, ArenaError>)
        requires
            old(self).wf(),
            0 <= p <= old(self).live@.len(),
            before == (if p == 0 {
                NO_INDEX
            } else {
                old(self).live@[p - 1]
            }),
            after == (if p == old(self).live@.len() {
                NO_INDEX
            } else {
                old(self).live@[p]
            }),
        ensures
            match r {
                Ok(h) => final(self).is_insertion(old(self), p, value, h),
                Err(e) => {
                    &&& e == ArenaError::CapacityOverflow
                    &&& old(self).exhausted()
                    &&& *final(self) == *old(self)
                },
            },
    {
        let index: usize = match self.create_node(value) {
            Ok(index) => index,
            Err(e) => {
                return Err(e);
            },
        };
        let ghost mid = *self;
        proof {
            if p > 0 {
                assert(mid.live_at(p - 1));
            }
            if p < mid.live@.len() {
                assert(mid.live_at(p));
            }
        }
        let node = &mut self.array[index];
        node.before_index = before;
        node.after_index = after;
        if before == NO_INDEX {
            self.first_index = index;
        } else {
            let node_before = &mut self.array[before];
            node_before.after_index = index;
        }
        if after == NO_INDEX {
            self.last_index = index;
        } else {
            let node_after = &mut self.array[after];
            node_after.before_index = index;
        }
        self.live = Ghost(self.live@.insert(p, index));
        self.place = Ghost(
            |h: usize|
                if h == index {
                    p
                } else if (mid.place@)(h) >= p {
                    (mid.place@)(h) + 1
                } else {
                    (mid.place@)(h)
                },
        );
        proof {
            assert forall|q: int| 0 <= q < self.live@.len() implies #[trigger] self.live_at(q) by {
                if q != p {
                    let q0 = if q < p {
                        q
                    } else {
                        q - 1
                    };
                    assert(mid.live_at(q0));
                    if q0 > 0 {
                        assert(mid.live_at(q0 - 1));
                    }
                    if q0 + 1 < mid.live@.len() {
                        assert(mid.live_at(q0 + 1));
                    }
                }
            }
            assert forall|q: int| 0 <= q < self.free@.len() implies #[trigger] self.free_at(q) by {
                assert(mid.free_at(q));
            }
            assert(self.inv(None));
            assert(self@ =~= old(self)@.insert(p, value)) by {
                assert forall|q: int| 0 <= q < self.live@.len() implies self@[q] == old(
                    self,
                )@.insert(p, value)[q] by {
                    if q != p {
                        let q0 = if q < p {
                            q
                        } else {
                            q - 1
                        };
                        assert(mid.live_at(q0));
                        assert(old(self).live_at(q0));
                        assert(self.live@[q] == mid.live@[q0]);
                        assert(self@[q] == old(self)@[q0]);
                    }
                }
            }
            assert forall|g: usize| old(self).is_live(g) implies self.is_live(g) && self.value(g)
                == old(self).value(g) by {
                assert(mid.array@[g as int] == old(self).array@[g as int]);
            }
        }
        Ok(index)
    }

    /// Inserts `value` before the live node `index`.
    ///
    /// Fails, and leaves the list as it is, when `index` names no live node,
    /// or when the arena is full and cannot grow.
    pub fn add_before(&mut self, value: T, index: usize) -> (r: Result<usize, ArenaError>)
        requires
            old(self).wf(),
        ensures
            match r {
                Ok(h) => final(self).is_insertion(old(self), old(self).position(index), value, h),
                Err(e) => *final(self) == *old(self) && e == (if !old(self).is_live(index) {
                    ArenaError::InvalidHandle
                } else {
                    ArenaError::CapacityOverflow
                }),
            },
            r is Err <==> !old(self).is_live(index) || old(self).exhausted(),
    {
        if !self.holds(index) {
            return Err(ArenaError::InvalidHandle);
        }
        proof {
            assert(self.live_at((self.place@)(index)));
        }
        let before: usize = self.array[index].before_index;
        self.insert_between(value, before, index, Ghost((self.place@)(index)))
    }

    /// Inserts `value` at the head.
    pub fn add_first(&mut self, value: T) -> (r: Result<usize, ArenaError>)
        requires
            old(self).wf(),
        ensures
            match r {
                Ok(h) => final(self).is_insertion(old(self), 0, value, h),
                Err(e) => *final(self) == *old(self) && e == ArenaError::CapacityOverflow,
            },
            r is Err <==> old(self).exhausted(),
    {
        let first: usize = self.first_index;
        self.insert_between(value, NO_INDEX, first, Ghost(0))
    }

    /// Inserts `value` after the live node `index`.
    ///
    /// Fails, and leaves the list as it is, when `index` names no live node,
    /// or when the arena is full and cannot grow.
    pub fn add_after(&mut self, value: T, index: usize) -> (r: Result<usize, ArenaError>)
        requires
            old(self).wf(),
        ensures
            match r {
                Ok(h) => final(self).is_insertion(
                    old(self),
                    old(self).position(index) + 1,
                    value,
                    h,
                ),
                Err(e) => *final(self) == *old(self) && e == (if !old(self).is_live(index) {
                    ArenaError::InvalidHandle
                } else {
                    ArenaError::CapacityOverflow
                }),
            },
            r is Err <==> !old(self).is_live(index) || old(self).exhausted(),
    {
        if !self.holds(index) {
            return Err(ArenaError::InvalidHandle);
        }
        proof {
            assert(self.live_at((self.place@)(index)));
        }
        let after: usize = self.array[index].after_index;
        self.insert_between(value, index, after, Ghost((self.place@)(index) + 1))
    }

    /// Inserts `value` at the tail.
    pub fn add_last(&mut self, value: T) -> (r: Result<usize, ArenaError>)
        requires
            old(self).wf(),
        ensures
            match r {
                Ok(h) => final(self).is_insertion(
                    old(self),
                    old(self).handles().len() as int,
                    value,
                    h,
                ),
                Err(e) => *final(self) == *old(self) && e == ArenaError::CapacityOverflow,
            },
            r is Err <==> old(self).exhausted(),
    {
        let last: usize = self.last_index;
        self.insert_between(value, last, NO_INDEX, Ghost(self.live@.len() as int))
    }

    /// The node that `index` names, when it is live.
    pub fn get(&self, index: usize) -> (r: Result<&ArenaLinkedListNode<T>, ArenaError>)
        requires
            self.wf(),
        ensures
            match r {
                Ok(node) => self.is_live(index) && *node == self.node(index),
                Err(e) => !self.is_live(index) && e == ArenaError::InvalidHandle,
            },
    {
        if !self.holds(index) {
            return Err(ArenaError::InvalidHandle);
        }
        Ok(&self.array[index])
    }

    /// Unlinks the live node `index` and puts its slot at the head of the
    /// free chain.
    ///
    /// Fails, and leaves the list as it is, when `index` names no live node.
    pub fn remove(&mut self, index: usize) -> (r: Result<(), ArenaError>)
        requires
            old(self).wf(),
        ensures
            match r {
                Ok(_) => old(self).is_live(index) && final(self).is_removal(old(self), index),
                Err(e) => {
                    &&& !old(self).is_live(index)
                    &&& e == ArenaError::InvalidHandle
                    &&& *final(self) == *old(self)
                },
            },
    {
        if !self.holds(index) {
            return Err(ArenaError::InvalidHandle);
        }
        let ghost p = (self.place@)(index);
        let ghost mid = *self;
        proof {
            assert(mid.live_at(p));
            if p > 0 {
                assert(mid.live_at(p - 1));
            }
            if p + 1 < mid.live@.len() {
                assert(mid.live_at(p + 1));
            }
        }
        let first_free: usize = self.first_free_node_index;
        let node = &mut self.array[index];
        let node_after: usize = node.after_index;
        let node_before: usize = node.before_index;
        node.value = None;
        node.before_index = NO_INDEX;
        node.after_index = first_free;
        self.first_free_node_index = index;
        if node_before == NO_INDEX {
            self.first_index = node_after;
        } else {
            let before_node = &mut self.array[node_before];
            before_node.after_index = node_after;
        }
        if node_after == NO_INDEX {
            self.last_index = node_before;
        } else {
            let after_node = &mut self.array[node_after];
            after_node.before_index = node_before;
        }
        self.count -= 1;
        self.live = Ghost(self.live@.remove(p));
        self.free = Ghost(seq![index] + self.free@);
        self.place = Ghost(
            |h: usize|
                if (mid.place@)(h) > p {
                    (mid.place@)(h) - 1
                } else {
                    (mid.place@)(h)
                },
        );
        proof {
            assert forall|q: int| 0 <= q < self.live@.len() implies #[trigger] self.live_at(q) by {
                let q0 = if q < p {
                    q
                } else {
                    q + 1
                };
                assert(mid.live_at(q0));
                if q0 > 0 {
                    assert(mid.live_at(q0 - 1));
                }
                if q0 + 1 < mid.live@.len() {
                    assert(mid.live_at(q0 + 1));
                }
            }
            assert forall|q: int| 0 <= q < self.free@.len() implies #[trigger] self.free_at(q) by {
                if q > 0 {
                    assert(mid.free_at(q - 1));
                }
                if q > 1 {
                    assert(mid.free_at(q - 2));
                }
                if q < mid.free@.len() {
                    assert(mid.free_at(q));
                }
            }
            assert(self.free@.no_duplicates()) by {
                assert forall|i: int, j: int|
                    0 <= i < self.free@.len() && 0 <= j < self.free@.len() && i != j implies self.free@[i]
                    != self.free@[j] by {
                    if i > 0 {
                        assert(mid.free_at(i - 1));
                    }
                    if j > 0 {
                        assert(mid.free_at(j - 1));
                    }
                }
            }
            assert(self.inv(None));
            assert(self@ =~= old(self)@.remove(p)) by {
                assert forall|q: int| 0 <= q < self.live@.len() implies self@[q] == old(
                    self,
                )@.remove(p)[q] by {
                    let q0 = if q < p {
                        q
                    } else {
                        q + 1
                    };
                    assert(mid.live_at(q0));
                }
            }
        }
        Ok(())
    }
}


impl<T> ArenaLinkedList<T> {
    /// The node at position `p` is live, knows its position, and its links
    /// name its neighbours in `handles()`.
    pub open spec fn linked_at(&self, p: int) -> bool {
        let h = self.handles()[p];
        &&& self.is_live(h)
        &&& self.position(h) == p
        &&& self.node(h).spec_before_index() == (if p == 0 {
            NO_INDEX
        } else {
            self.handles()[p - 1]
        })
        &&& self.node(h).spec_after_index() == (if p == self.handles().len() - 1 {
            NO_INDEX
        } else {
            self.handles()[p + 1]
        })
    }

    /// The handles met by following the links from `from`, at most `fuel` of them.
    pub open spec fn traversal(&self, from: usize, fuel: nat) -> Seq<usize>
        decreases fuel,
    {
        if from == NO_INDEX || fuel == 0 {
            Seq::empty()
        } else {
            seq![from] + self.traversal(self.node(from).spec_after_index(), (fuel - 1) as nat)
        }
    }

    /// What the invariant says of the model: the live handles and the free
    /// chain are disjoint and fill the arena, a handle is live exactly when it
    /// is in `handles()`, and the links follow `handles()`.
    pub proof fn lemma_wf(&self)
        requires
            self.wf(),
        ensures
            self.spec_count() == self.handles().len(),
            self.handles().len() + self.free_handles().len() == self.capacity(),
            1 <= self.capacity() <= usize::MAX,
            self.handles().no_duplicates(),
            self.free_handles().no_duplicates(),
            forall|h: usize| self.is_live(h) <==> self.handles().contains(h),
            forall|h: usize|
                self.is_live(h) ==> 0 <= #[trigger] self.position(h) < self.handles().len()
                    && self.handles()[self.position(h)] == h,
            forall|p: int| 0 <= p < self.handles().len() ==> #[trigger] self.linked_at(p),
            forall|q: int|
                0 <= q < self.free_handles().len() ==> (#[trigger] self.free_handles()[q])
                    < self.capacity() && !self.is_live(self.free_handles()[q]),
            self.first() == (if self.handles().len() == 0 {
                NO_INDEX
            } else {
                self.handles()[0]
            }),
            self.last() == (if self.handles().len() == 0 {
                NO_INDEX
            } else {
                self.handles().last()
            }),
            self.first_free() == (if self.free_handles().len() == 0 {
                NO_INDEX
            } else {
                self.free_handles()[0]
            }),
    {
        assert forall|p: int| 0 <= p < self.handles().len() implies #[trigger] self.linked_at(
            p,
        ) by {
            assert(self.live_at(p));
        }
        assert forall|q: int| 0 <= q < self.free_handles().len() implies (
        #[trigger] self.free_handles()[q]) < self.capacity() && !self.is_live(
            self.free_handles()[q],
        ) by {
            assert(self.free_at(q));
        }
        assert forall|i: int, j: int|
            0 <= i < self.live@.len() && 0 <= j < self.live@.len() && i != j implies self.live@[i]
            != self.live@[j] by {
            assert(self.live_at(i));
            assert(self.live_at(j));
        }
        assert forall|h: usize| self.handles().contains(h) implies self.is_live(h) by {
            let p = choose|p: int| 0 <= p < self.live@.len() && self.live@[p] == h;
            assert(self.live_at(p));
        }
    }

    /// The count is the number of live nodes.
    pub proof fn lemma_count_is_number_of_live_nodes(&self)
        requires
            self.wf(),
        ensures
            Set::new(|h: usize| self.is_live(h)).finite(),
            Set::new(|h: usize| self.is_live(h)).len() == self.spec_count(),
    {
        self.lemma_wf();
        self.handles().unique_seq_to_set();
        assert(Set::new(|h: usize| self.is_live(h)) =~= self.handles().to_set());
    }

    /// Following the links from position `p` visits the rest of `handles()`.
    proof fn lemma_traversal_from(&self, p: int, fuel: nat)
        requires
            self.wf(),
            0 <= p <= self.handles().len(),
            fuel >= self.handles().len() - p,
        ensures
            self.traversal(
                if p == self.handles().len() {
                    NO_INDEX
                } else {
                    self.handles()[p]
                },
                fuel,
            ) == self.handles().skip(p),
        decreases self.handles().len() - p,
    {
        self.lemma_wf();
        if p < self.handles().len() {
            assert(self.linked_at(p));
            self.lemma_traversal_from(p + 1, (fuel - 1) as nat);
            assert(self.handles().skip(p) =~= seq![self.handles()[p]] + self.handles().skip(
                p + 1,
            ));
        } else {
            assert(self.handles().skip(p) =~= Seq::<usize>::empty());
        }
    }

    /// Following the links from the head visits exactly the live nodes, in
    /// the order of `handles()`.
    pub proof fn lemma_traversal_visits_live_nodes_in_order(&self)
        requires
            self.wf(),
        ensures
            self.traversal(self.first(), self.capacity()) == self.handles(),
            forall|h: usize| self.is_live(h) <==> self.handles().contains(h),
    {
        self.lemma_wf();
        self.lemma_traversal_from(0, self.capacity());
        assert(self.handles().skip(0) =~= self.handles());
    }

    /// A cursor at the head of the list.
    pub fn iter(&self) -> (cursor: Enumerator<'_, T>)
        requires
            self.wf(),
        ensures
            cursor.wf(),
            cursor.list() == *self,
            cursor.position() == 0,
    {
        Enumerator { list: self, index: self.first_index, pos: Ghost(0) }
    }
}

/// A forward cursor over the values of a list.
pub struct Enumerator<'a, T> {
    list: &'a ArenaLinkedList<T>,
    index: usize,
    pos: Ghost<int>,
}

impl<'a, T> Enumerator<'a, T> {
    /// The list that the cursor walks.
    pub closed spec fn list(&self) -> ArenaLinkedList<T> {
        *self.list
    }

    /// How many values the cursor has passed.
    pub closed spec fn position(&self) -> int {
        self.pos@
    }

    /// The cursor stands on the node at `position()`, or past the tail.
    pub closed spec fn wf(&self) -> bool {
        &&& self.list.wf()
        &&& 0 <= self.pos@ <= self.list.live@.len()
        &&& self.index == (if self.pos@ == self.list.live@.len() {
            NO_INDEX
        } else {
            self.list.live@[self.pos@]
        })
    }

    /// The value under the cursor, which then moves on; `None` past the tail.
    pub fn next(&mut self) -> (r: Option<&'a T>)
        requires
            old(self).wf(),
        ensures
            final(self).wf(),
            final(self).list() == old(self).list(),
            old(self).position() < old(self).list()@.len() ==> r == Some(
                &old(self).list()@[old(self).position()],
            ) && final(self).position() == old(self).position() + 1,
            old(self).position() >= old(self).list()@.len() ==> r is None && final(self).position()
                == old(self).position(),
    {
        proof {
            if self.pos@ < self.list.live@.len() {
                assert(self.list.live_at(self.pos@));
            }
        }
        if self.index == NO_INDEX {
            return None;
        }
        proof {
            if self.pos@ + 1 < self.list.live@.len() {
                assert(self.list.live_at(self.pos@ + 1));
            }
        }
        let list: &'a ArenaLinkedList<T> = self.list;
        let node = &list.array[self.index];
        self.index = node.after_index;
        self.pos = Ghost(self.pos@ + 1);
        node.value.as_ref()
    }
}

} // verus!
