//! Fixed-capacity ring buffer with the queue-compatible API of the other
//! containers, built on top of `RingBuffer`.

use crate::tools::ring_buffer::{
    evicted_count, keep_last, overwrite_push, PushRangeOverwriteResult, RingBuffer,
};
use vstd::prelude::*;

verus! {

/// Fixed-capacity ring buffer built on top of `RingBuffer`. `CAPACITY` is set
/// at compile time via a const generic parameter. The methods that change the
/// buffer take `&mut self`: callers that share it between threads hold it
/// behind a lock of their choice.
pub struct SyncRingBuffer<T, const CAPACITY: usize> {
    buffer: RingBuffer<T, CAPACITY>,
}

impl<T, const CAPACITY: usize> View for SyncRingBuffer<T, CAPACITY> {
    type V = Seq<T>;

    /// The stored items, oldest first.
    closed spec fn view(&self) -> Seq<T> {
        self.buffer@
    }
}

impl<T, const CAPACITY: usize> SyncRingBuffer<T, CAPACITY> {
    /// Well-formedness of the underlying ring.
    pub closed spec fn wf(&self) -> bool {
        self.buffer.wf()
    }

    /// A well-formed buffer never holds more than `CAPACITY` items.
    pub proof fn lemma_size_bounded(&self)
        requires
            self.wf(),
        ensures
            self@.len() <= CAPACITY,
    {
        self.buffer.lemma_size_bounded();
    }

    /// Creates a new, empty SyncRingBuffer with a fixed capacity of `CAPACITY`.
    pub fn new() -> (r: Self)
        ensures
            r.wf(),
            r@ == Seq::<T>::empty(),
    {
        SyncRingBuffer { buffer: RingBuffer::new() }
    }

    /// Returns the maximum number of items the ring buffer can hold.
    pub fn capacity(&self) -> (r: usize)
        ensures
            r == CAPACITY,
    {
        CAPACITY
    }

    /// Returns the number of items currently stored in the ring buffer.
    pub fn size(&self) -> (r: usize)
        ensures
            r == self@.len(),
    {
        self.buffer.size()
    }

    /// Checks if the ring buffer is empty.
    pub fn is_empty(&self) -> (r: bool)
        ensures
            r == (self@.len() == 0),
    {
        self.buffer.is_empty()
    }

    /// Checks if the ring buffer reached its capacity.
    pub fn is_full(&self) -> (r: bool)
        ensures
            r == (self@.len() == CAPACITY),
    {
        self.buffer.is_full()
    }

    /// Adds an item to the back of the ring buffer unless it is already full.
    /// Returns true if the item was pushed, false if it was rejected.
    pub fn push(&mut self, item: T) -> (pushed: bool)
        requires
            old(self).wf(),
        ensures
            final(self).wf(),
            pushed == (old(self)@.len() < CAPACITY),
            final(self)@ == (if pushed {
                old(self)@.push(item)
            } else {
                old(self)@
            }),
    {
        self.buffer.push(item)
    }

    /// Adds an item to the back of the ring buffer, evicting the oldest item
    /// once full instead of rejecting the new one. Returns true if an
    /// existing item was evicted to make room.
    pub fn push_overwrite(&mut self, item: T) -> (evicted: bool)
        requires
            old(self).wf(),
            CAPACITY > 0,
        ensures
            final(self).wf(),
            evicted == (old(self)@.len() == CAPACITY),
            final(self)@ == overwrite_push(old(self)@, item, CAPACITY as nat),
    {
        self.buffer.push_overwrite(item)
    }

    /// Pushes items in order, stopping once the ring buffer is full.
    /// Returns the number of items actually inserted.
    pub fn push_range(&mut self, items: Vec<T>) -> (inserted: usize)
        requires
            old(self).wf(),
        ensures
            final(self).wf(),
            inserted == vstd::math::min(items@.len() as int, CAPACITY - old(self)@.len()),
            final(self)@ == old(self)@ + items@.take(inserted as int),
    {
        self.buffer.push_range(items)
    }

    /// Pushes items in order in overwrite mode: once full, each new item
    /// evicts the oldest one instead of being rejected.
    pub fn push_range_overwrite(&mut self, items: Vec<T>) -> (result: PushRangeOverwriteResult)
        requires
            old(self).wf(),
            CAPACITY > 0 || items@.len() == 0,
        ensures
            final(self).wf(),
            result.inserted == items@.len(),
            result.overwritten == evicted_count(
                old(self)@.len(),
                items@.len(),
                CAPACITY as nat,
            ),
            final(self)@ == keep_last(old(self)@ + items@, CAPACITY as nat),
    {
        self.buffer.push_range_overwrite(items)
    }

    /// Removes and returns the item at the front of the ring buffer.
    pub fn pop(&mut self) -> (r: Option<T>)
        requires
            old(self).wf(),
        ensures
            final(self).wf(),
            r == (if old(self)@.len() == 0 {
                None
            } else {
                Some(old(self)@[0])
            }),
            final(self)@ == (if old(self)@.len() == 0 {
                old(self)@
            } else {
                old(self)@.drop_first()
            }),
    {
        self.buffer.pop()
    }

    /// Alias for `pop`, provided for queue-compatible container usage.
    pub fn front_pop(&mut self) -> (r: Option<T>)
        requires
            old(self).wf(),
        ensures
            final(self).wf(),
            r == (if old(self)@.len() == 0 {
                None
            } else {
                Some(old(self)@[0])
            }),
            final(self)@ == (if old(self)@.len() == 0 {
                old(self)@
            } else {
                old(self)@.drop_first()
            }),
    {
        self.pop()
    }

    /// Removes and returns up to `max_count` items from the front of the ring buffer.
    pub fn pop_range(&mut self, max_count: usize) -> (popped: Vec<T>)
        requires
            old(self).wf(),
        ensures
            final(self).wf(),
            popped@ == old(self)@.take(vstd::math::min(max_count as int, old(self)@.len() as int)),
            final(self)@ == old(self)@.skip(vstd::math::min(max_count as int, old(self)@.len() as int)),
    {
        self.buffer.pop_range(max_count)
    }

    /// Returns a copy of the front item of the ring buffer.
    pub fn front(&self) -> (r: Option<T>) where T: Clone
        requires
            self.wf(),
        ensures
            self@.len() == 0 ==> r is None,
            self@.len() > 0 ==> r is Some && cloned(self@[0], r->0),
    {
        match self.buffer.front() {
            Some(item) => Some(item.clone()),
            None => None,
        }
    }

    /// Returns a copy of the back item of the ring buffer.
    pub fn back(&self) -> (r: Option<T>) where T: Clone
        requires
            self.wf(),
        ensures
            self@.len() == 0 ==> r is None,
            self@.len() > 0 ==> r is Some && cloned(self@[self@.len() - 1], r->0),
    {
        match self.buffer.back() {
            Some(item) => Some(item.clone()),
            None => None,
        }
    }

    /// Clears all items from the ring buffer.
    pub fn clear(&mut self)
        requires
            old(self).wf(),
        ensures
            final(self).wf(),
            final(self)@ == Seq::<T>::empty(),
    {
        self.buffer.clear();
    }
}

impl<T, const CAPACITY: usize> Default for SyncRingBuffer<T, CAPACITY> {
    fn default() -> (r: Self)
        ensures
            r.wf(),
            r@ == Seq::<T>::empty(),
    {
        Self::new()
    }
}

} // verus!
