//! Bounded FIFO vector: rejects (or, in overwrite mode, evicts the oldest
//! item) once `capacity` items are stored instead of growing unbounded.

use crate::tools::ring_buffer::{
    evicted_count, keep_last, lemma_keep_last_push, overwrite_push, PushRangeOverwriteResult,
};
use std::collections::VecDeque;
use vstd::prelude::*;

verus! {

/// Bounded ring vector on top of a preallocated `VecDeque`. Unlike
/// `SyncQueue`, `push` fails once `capacity` items are stored instead of
/// growing unbounded, so callers can detect and count dropped items. The
/// methods that change the vector take `&mut self`: callers that share it
/// between threads hold it behind a lock of their choice.
#[derive(Debug)]
pub struct SyncRingVector<T> {
    vector: VecDeque<T>,
    capacity: usize,
}

impl<T> View for SyncRingVector<T> {
    type V = Seq<T>;

    /// The stored items, oldest first.
    closed spec fn view(&self) -> Seq<T> {
        self.vector@
    }
}

impl<T> SyncRingVector<T> {
    /// The number of items the vector can hold.
    pub closed spec fn max_items(&self) -> nat {
        self.capacity as nat
    }

    /// Well-formedness: never more items than the capacity.
    pub closed spec fn wf(&self) -> bool {
        self.vector@.len() <= self.capacity
    }

    /// A well-formed vector never holds more than its capacity.
    pub proof fn lemma_size_bounded(&self)
        requires
            self.wf(),
        ensures
            self@.len() <= self.max_items(),
    {
    }

    /// Creates a new SyncRingVector, preallocating storage for `capacity` items.
    pub fn new(capacity: usize) -> (r: Self)
        ensures
            r.wf(),
            r@ == Seq::<T>::empty(),
            r.max_items() == capacity,
    {
        SyncRingVector { vector: VecDeque::with_capacity(capacity), capacity }
    }

    /// Adds an item to the back of the vector unless it is already full.
    /// Returns true if the item was pushed, false if it was rejected.
    pub fn push(&mut self, item: T) -> (pushed: bool)
        requires
            old(self).wf(),
        ensures
            final(self).wf(),
            final(self).max_items() == old(self).max_items(),
            pushed == (old(self)@.len() < old(self).max_items()),
            final(self)@ == (if pushed {
                old(self)@.push(item)
            } else {
                old(self)@
            }),
    {
        if self.vector.len() >= self.capacity {
            return false;
        }
        self.vector.push_back(item);
        true
    }

    /// Removes and returns an item from the front of the vector.
    pub fn pop_front(&mut self) -> (r: Option<T>)
        requires
            old(self).wf(),
        ensures
            final(self).wf(),
            final(self).max_items() == old(self).max_items(),
            r == (if old(self)@.len() == 0 {
                None
            } else {
                Some(old(self)@[0])
            }),
            final(self)@ == (if old(self)@.len() == 0 {
                old(self)@
            } else {
                old(self)@.drop_first()
            }),
    {
        let r = self.vector.pop_front();
        proof {
            if old(self)@.len() > 0 {
                assert(self@ =~= old(self)@.drop_first());
            }
        }
        r
    }

    /// Alias for `pop_front`, provided for queue-compatible container usage.
    pub fn front_pop(&mut self) -> (r: Option<T>)
        requires
            old(self).wf(),
        ensures
            final(self).wf(),
            final(self).max_items() == old(self).max_items(),
            r == (if old(self)@.len() == 0 {
                None
            } else {
                Some(old(self)@[0])
            }),
            final(self)@ == (if old(self)@.len() == 0 {
                old(self)@
            } else {
                old(self)@.drop_first()
            }),
    {
        self.pop_front()
    }

    /// Adds an item to the back of the vector, evicting the oldest item once
    /// full instead of rejecting the new one. Returns true if an existing
    /// item was evicted to make room. A vector of capacity zero keeps
    /// nothing and returns false.
    pub fn push_overwrite(&mut self, item: T) -> (evicted: bool)
        requires
            old(self).wf(),
        ensures
            final(self).wf(),
            final(self).max_items() == old(self).max_items(),
            old(self).max_items() == 0 ==> !evicted && final(self)@ == old(self)@,
            old(self).max_items() > 0 ==> {
                &&& evicted == (old(self)@.len() == old(self).max_items())
                &&& final(self)@ == overwrite_push(old(self)@, item, old(self).max_items())
            },
    {
        if self.capacity == 0 {
            return false;
        }
        let evicted = if self.vector.len() >= self.capacity {
            self.vector.pop_front();
            true
        } else {
            false
        };
        self.vector.push_back(item);
        proof {
            if evicted {
                assert(self@ =~= old(self)@.drop_first().push(item));
            }
        }
        evicted
    }

    /// Pushes items in order, stopping once the vector is full.
    /// Returns the number of items actually inserted.
    pub fn push_range(&mut self, items: Vec<T>) -> (inserted: usize)
        requires
            old(self).wf(),
        ensures
            final(self).wf(),
            final(self).max_items() == old(self).max_items(),
            inserted == vstd::math::min(
                items@.len() as int,
                old(self).max_items() - old(self)@.len(),
            ),
            final(self)@ == old(self)@ + items@.take(inserted as int),
    {
        let mut inserted: usize = 0;
        let mut full = false;
        let ghost all = items@;
        for item in iter: items
            invariant
                self.wf(),
                self.capacity == old(self).capacity,
                iter.seq() == all,
                inserted <= iter.index(),
                full ==> old(self)@.len() + inserted == self.capacity,
                !full ==> inserted == iter.index(),
                self@ == old(self)@ + all.take(inserted as int),
                old(self)@.len() + inserted <= self.capacity,
        {
            if !full {
                if self.vector.len() >= self.capacity {
                    full = true;
                } else {
                    self.vector.push_back(item);
                    inserted = inserted + 1;
                    proof {
                        assert(all.take(inserted as int) =~= all.take(inserted - 1).push(
                            all[inserted - 1],
                        ));
                    }
                }
            }
        }
        inserted
    }

    /// Pushes items in order in overwrite mode: once full, each new item
    /// evicts the oldest one instead of being rejected. A vector of capacity
    /// zero keeps nothing and reports no insertion.
    pub fn push_range_overwrite(&mut self, items: Vec<T>) -> (result: PushRangeOverwriteResult)
        requires
            old(self).wf(),
        ensures
            final(self).wf(),
            final(self).max_items() == old(self).max_items(),
            old(self).max_items() == 0 ==> {
                &&& result.inserted == 0
                &&& result.overwritten == 0
                &&& final(self)@ == old(self)@
            },
            old(self).max_items() > 0 ==> {
                &&& result.inserted == items@.len()
                &&& result.overwritten == evicted_count(
                    old(self)@.len(),
                    items@.len(),
                    old(self).max_items(),
                )
                &&& final(self)@ == keep_last(old(self)@ + items@, old(self).max_items())
            },
    {
        let mut result = PushRangeOverwriteResult::default();
        if self.capacity == 0 {
            return result;
        }
        let ghost start = old(self)@;
        let ghost all = items@;
        let ghost cap = self.capacity as nat;
        proof {
            assert(start + all.take(0) =~= start);
            assert(all.len() == items.len());
        }
        for item in iter: items
            invariant
                self.wf(),
                self.capacity == cap,
                cap > 0,
                start.len() <= cap,
                iter.seq() == all,
                all.len() <= usize::MAX,
                iter.index() <= all.len(),
                result.inserted == iter.index(),
                result.overwritten == evicted_count(start.len(), iter.index() as nat, cap),
                self@ == keep_last(start + all.take(iter.index() as int), cap),
        {
            let ghost i = iter.index();
            proof {
                lemma_keep_last_push(start + all.take(i as int), item, cap);
                assert(start + all.take(i + 1) =~= (start + all.take(i as int)).push(item));
            }
            let ghost before = self@;
            if self.vector.len() >= self.capacity {
                self.vector.pop_front();
                result.overwritten = result.overwritten + 1;
            }
            self.vector.push_back(item);
            result.inserted = result.inserted + 1;
            proof {
                if before.len() >= cap {
                    assert(self@ =~= before.drop_first().push(item));
                }
            }
        }
        proof {
            assert(all.take(all.len() as int) =~= all);
        }
        result
    }

    /// Removes and returns up to `max_count` items from the front of the vector.
    pub fn pop_range(&mut self, max_count: usize) -> (popped: Vec<T>)
        requires
            old(self).wf(),
        ensures
            final(self).wf(),
            final(self).max_items() == old(self).max_items(),
            popped@ == old(self)@.take(vstd::math::min(max_count as int, old(self)@.len() as int)),
            final(self)@ == old(self)@.skip(vstd::math::min(max_count as int, old(self)@.len() as int)),
    {
        let count = if max_count < self.vector.len() {
            max_count
        } else {
            self.vector.len()
        };
        let mut popped: Vec<T> = Vec::with_capacity(count);
        while popped.len() < count
            invariant
                self.wf(),
                self.capacity == old(self).capacity,
                count <= old(self)@.len(),
                popped@.len() <= count,
                popped@ == old(self)@.take(popped@.len() as int),
                self@ == old(self)@.skip(popped@.len() as int),
            decreases count - popped@.len(),
        {
            match self.vector.pop_front() {
                Some(item) => {
                    popped.push(item);
                },
                None => {},
            }
            proof {
                assert(popped@ =~= old(self)@.take(popped@.len() as int));
                assert(self@ =~= old(self)@.skip(popped@.len() as int));
            }
        }
        popped
    }

    /// Checks if the vector is empty.
    pub fn is_empty(&self) -> (r: bool)
        ensures
            r == (self@.len() == 0),
    {
        self.vector.len() == 0
    }

    /// Checks if the vector reached its capacity.
    pub fn is_full(&self) -> (r: bool)
        ensures
            r == (self@.len() >= self.max_items()),
    {
        self.vector.len() >= self.capacity
    }

    /// Returns the number of items currently stored in the vector.
    pub fn size(&self) -> (r: usize)
        ensures
            r == self@.len(),
    {
        self.vector.len()
    }

    /// Returns the maximum number of items the vector can hold.
    pub fn capacity(&self) -> (r: usize)
        ensures
            r == self.max_items(),
    {
        self.capacity
    }

    /// Clears all items from the vector.
    pub fn clear(&mut self)
        requires
            old(self).wf(),
        ensures
            final(self).wf(),
            final(self).max_items() == old(self).max_items(),
            final(self)@ == Seq::<T>::empty(),
    {
        self.vector.clear();
    }

    /// Returns a copy of the front item of the vector.
    pub fn front(&self) -> (r: Option<T>) where T: Clone
        ensures
            self@.len() == 0 ==> r is None,
            self@.len() > 0 ==> r is Some && cloned(self@[0], r->0),
    {
        if self.vector.len() == 0 {
            None
        } else {
            Some(self.vector[0].clone())
        }
    }

    /// Returns a copy of the back item of the vector.
    pub fn back(&self) -> (r: Option<T>) where T: Clone
        ensures
            self@.len() == 0 ==> r is None,
            self@.len() > 0 ==> r is Some && cloned(self@[self@.len() - 1], r->0),
    {
        let n = self.vector.len();
        if n == 0 {
            None
        } else {
            Some(self.vector[n - 1].clone())
        }
    }
}

} // verus!
