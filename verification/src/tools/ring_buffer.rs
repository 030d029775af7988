//! Fixed-capacity ring buffer with reject-on-full and overwrite-on-full
//! (evict oldest) push modes.

use vstd::prelude::*;

verus! {

/// Result of a batch push in overwrite mode: how many items were inserted and
/// how many pre-existing items were evicted to make room for them.
#[derive(Debug, Clone, Copy, PartialEq, Eq, Structural)]
pub struct PushRangeOverwriteResult {
    pub inserted: usize,
    pub overwritten: usize,
}

impl Default for PushRangeOverwriteResult {
    fn default() -> (r: Self)
        ensures
            r.inserted == 0,
            r.overwritten == 0,
    {
        PushRangeOverwriteResult { inserted: 0, overwritten: 0 }
    }
}

/// Slot of the element that lies `offset` places after `head` in a ring of
/// `capacity` slots (both `head` and `offset` below `capacity`).
pub open spec fn ring_position(head: int, offset: int, capacity: int) -> int {
    if head + offset < capacity {
        head + offset
    } else {
        head + offset - capacity
    }
}

/// The last `capacity` elements of `s` (all of `s` when it is short enough):
/// what a buffer of `capacity` slots holds after `s` was pushed in overwrite mode.
pub open spec fn keep_last<T>(s: Seq<T>, capacity: nat) -> Seq<T> {
    if s.len() <= capacity {
        s
    } else {
        s.subrange(s.len() - capacity, s.len() as int)
    }
}

/// Number of elements evicted when `pushed` items are pushed in overwrite mode
/// into a buffer of `capacity` slots that held `len` items.
pub open spec fn evicted_count(len: nat, pushed: nat, capacity: nat) -> nat {
    if len + pushed <= capacity {
        0
    } else {
        (len + pushed - capacity) as nat
    }
}

/// Contents after pushing `item` in overwrite mode into a buffer of `capacity` slots.
pub open spec fn overwrite_push<T>(s: Seq<T>, item: T, capacity: nat) -> Seq<T> {
    if s.len() >= capacity {
        s.drop_first().push(item)
    } else {
        s.push(item)
    }
}

/// `keep_last` grows one item at a time exactly as single overwrite pushes do.
pub proof fn lemma_keep_last_push<T>(s: Seq<T>, item: T, capacity: nat)
    requires
        capacity > 0,
    ensures
        keep_last(s.push(item), capacity) == overwrite_push(keep_last(s, capacity), item, capacity),
        keep_last(s, capacity).len() <= capacity,
{
    let w = keep_last(s, capacity);
    let lhs = keep_last(s.push(item), capacity);
    let rhs = overwrite_push(w, item, capacity);
    if s.len() + 1 <= capacity {
        assert(lhs =~= rhs);
    } else if s.len() <= capacity {
        assert(w == s);
        assert(s.len() == capacity);
        assert(lhs =~= rhs);
    } else {
        assert(lhs =~= rhs);
    }
}

/// Overwrite-mode pushes of `items`, one at a time, into a buffer holding `s`.
pub open spec fn overwrite_push_all<T>(s: Seq<T>, items: Seq<T>, capacity: nat) -> Seq<T>
    decreases items.len(),
{
    if items.len() == 0 {
        s
    } else {
        overwrite_push(overwrite_push_all(s, items.drop_last(), capacity), items.last(), capacity)
    }
}

/// Pushing a batch in overwrite mode is pushing its items one at a time: the
/// buffer ends up with the last `capacity` items of its old contents followed
/// by the batch, and every item beyond the capacity evicted one old item.
pub proof fn law_overwrite_batch_is_repeated_overwrite<T>(s: Seq<T>, items: Seq<T>, capacity: nat)
    requires
        capacity > 0,
        s.len() <= capacity,
    ensures
        overwrite_push_all(s, items, capacity) == keep_last(s + items, capacity),
        keep_last(s + items, capacity).len() + evicted_count(s.len(), items.len(), capacity) == s.len()
            + items.len(),
    decreases items.len(),
{
    if items.len() == 0 {
        assert(s + items =~= s);
    } else {
        let front = items.drop_last();
        law_overwrite_batch_is_repeated_overwrite(s, front, capacity);
        lemma_keep_last_push(s + front, items.last(), capacity);
        assert((s + front).push(items.last()) =~= s + items);
    }
}

/// In reject mode a full buffer is left unchanged and an item pushed into a
/// buffer with room comes out after every item already stored: the first
/// item popped from a buffer is the oldest one pushed.
pub proof fn law_fifo_order<T>(s: Seq<T>, item: T)
    ensures
        s.push(item).drop_first() == (if s.len() == 0 {
            s
        } else {
            s.drop_first().push(item)
        }),
        s.len() > 0 ==> s.push(item)[0] == s[0],
        s.len() == 0 ==> s.push(item)[0] == item,
{
    if s.len() == 0 {
        assert(s.push(item).drop_first() =~= s);
    } else {
        assert(s.push(item).drop_first() =~= s.drop_first().push(item));
    }
}

/// Fixed-capacity ring buffer (single owner). `CAPACITY` is set at compile
/// time via a const generic parameter.
pub struct RingBuffer<T, const CAPACITY: usize> {
    slots: Vec<Option<T>>,
    head: usize,
    len: usize,
}

impl<T, const CAPACITY: usize> View for RingBuffer<T, CAPACITY> {
    type V = Seq<T>;

    /// The stored items, oldest first.
    closed spec fn view(&self) -> Seq<T> {
        Seq::new(
            self.len as nat,
            |i: int| self.slots@[ring_position(self.head as int, i, CAPACITY as int)]->0,
        )
    }
}

impl<T, const CAPACITY: usize> RingBuffer<T, CAPACITY> {
    /// Well-formedness: one slot per unit of capacity, the live items occupy
    /// the `len` slots that follow `head` (wrapping around).
    pub closed spec fn wf(&self) -> bool {
        &&& self.slots@.len() == CAPACITY
        &&& self.len <= CAPACITY
        &&& (self.head < CAPACITY || (CAPACITY == 0 && self.head == 0))
        &&& forall|i: int|
            0 <= i < self.len ==> (#[trigger] self.slots@[ring_position(
                self.head as int,
                i,
                CAPACITY as int,
            )]) is Some
    }

    /// A well-formed buffer never holds more than `CAPACITY` items.
    pub proof fn lemma_size_bounded(&self)
        requires
            self.wf(),
        ensures
            self@.len() <= CAPACITY,
    {
    }

    /// Creates a new, empty RingBuffer with a fixed capacity of `CAPACITY`.
    pub fn new() -> (r: Self)
        ensures
            r.wf(),
            r@ == Seq::<T>::empty(),
    {
        let mut slots: Vec<Option<T>> = Vec::with_capacity(CAPACITY);
        let mut i: usize = 0;
        while i < CAPACITY
            invariant
                i <= CAPACITY,
                slots@.len() == i,
            decreases CAPACITY - i,
        {
            slots.push(None);
            i = i + 1;
        }
        let r = RingBuffer { slots, head: 0, len: 0 };
        assert(r@ =~= Seq::<T>::empty());
        r
    }

    /// Returns the maximum number of items the ring buffer can hold.
    pub fn capacity(&self) -> (r: usize)
        ensures
            r == CAPACITY,
    {
        CAPACITY
    }

    /// Returns the number of items currently stored in the ring buffer.
    pub fn size(&self) -> (r: usize)
        ensures
            r == self@.len(),
    {
        self.len
    }

    /// Checks if the ring buffer is empty.
    pub fn is_empty(&self) -> (r: bool)
        ensures
            r == (self@.len() == 0),
    {
        self.len == 0
    }

    /// Checks if the ring buffer reached its capacity.
    pub fn is_full(&self) -> (r: bool)
        ensures
            r == (self@.len() == CAPACITY),
    {
        self.len == CAPACITY
    }

    /// Slot holding the item `offset` places after the oldest one.
    fn slot_index(&self, offset: usize) -> (r: usize)
        requires
            self.wf(),
            offset < CAPACITY,
        ensures
            r == ring_position(self.head as int, offset as int, CAPACITY as int),
            r < CAPACITY,
    {
        if offset < CAPACITY - self.head {
            self.head + offset
        } else {
            offset - (CAPACITY - self.head)
        }
    }

    /// Index that follows `head` in the ring.
    fn next_head(head: usize) -> (r: usize)
        requires
            head < CAPACITY,
        ensures
            r == ring_position(head as int, 1, CAPACITY as int),
            r < CAPACITY,
    {
        if head + 1 < CAPACITY {
            head + 1
        } else {
            0
        }
    }

    /// Adds an item to the back of the ring buffer unless it is already full.
    /// Returns true if the item was pushed, false if it was rejected.
    pub fn push(&mut self, item: T) -> (pushed: bool)
        requires
            old(self).wf(),
        ensures
            final(self).wf(),
            pushed == (old(self)@.len() < CAPACITY),
            final(self)@ == (if pushed {
                old(self)@.push(item)
            } else {
                old(self)@
            }),
    {
        if self.is_full() {
            return false;
        }
        let index = self.slot_index(self.len);
        self.slots.set(index, Some(item));
        self.len = self.len + 1;
        assert(self@ =~= old(self)@.push(item));
        true
    }

    /// Adds an item to the back of the ring buffer, evicting the oldest item
    /// once full instead of rejecting the new one. Returns true if an
    /// existing item was evicted to make room.
    pub fn push_overwrite(&mut self, item: T) -> (evicted: bool)
        requires
            old(self).wf(),
            CAPACITY > 0,
        ensures
            final(self).wf(),
            evicted == (old(self)@.len() == CAPACITY),
            final(self)@ == overwrite_push(old(self)@, item, CAPACITY as nat),
    {
        if !self.is_full() {
            self.push(item);
            return false;
        }
        let head = self.head;
        self.slots.set(head, None);
        self.head = Self::next_head(head);
        self.len = self.len - 1;
        assert forall|i: int| 0 <= i < self.len implies (#[trigger] self.slots@[ring_position(
            self.head as int,
            i,
            CAPACITY as int,
        )]) is Some by {
            assert(old(self).slots@[ring_position(head as int, i + 1, CAPACITY as int)] is Some);
        }
        assert(self@ =~= old(self)@.drop_first());
        self.push(item);
        true
    }

    /// Pushes items in order, stopping once the ring buffer is full.
    /// Returns the number of items actually inserted.
    pub fn push_range(&mut self, items: Vec<T>) -> (inserted: usize)
        requires
            old(self).wf(),
        ensures
            final(self).wf(),
            inserted == vstd::math::min(items@.len() as int, CAPACITY - old(self)@.len()),
            final(self)@ == old(self)@ + items@.take(inserted as int),
    {
        let mut inserted: usize = 0;
        let mut full = false;
        let ghost all = items@;
        for item in iter: items
            invariant
                self.wf(),
                iter.seq() == all,
                inserted <= iter.index(),
                full ==> old(self)@.len() + inserted == CAPACITY,
                !full ==> inserted == iter.index(),
                self@ == old(self)@ + all.take(inserted as int),
                old(self)@.len() + inserted <= CAPACITY,
        {
            if !full {
                if self.push(item) {
                    inserted = inserted + 1;
                    proof {
                        assert(all.take(inserted as int) =~= all.take(inserted - 1).push(
                            all[inserted - 1],
                        ));
                    }
                } else {
                    full = true;
                }
            }
        }
        inserted
    }

    /// Pushes items in order in overwrite mode: once full, each new item
    /// evicts the oldest one instead of being rejected.
    pub fn push_range_overwrite(&mut self, items: Vec<T>) -> (result: PushRangeOverwriteResult)
        requires
            old(self).wf(),
            CAPACITY > 0 || items@.len() == 0,
        ensures
            final(self).wf(),
            result.inserted == items@.len(),
            result.overwritten == evicted_count(
                old(self)@.len(),
                items@.len(),
                CAPACITY as nat,
            ),
            final(self)@ == keep_last(old(self)@ + items@, CAPACITY as nat),
    {
        let mut result = PushRangeOverwriteResult::default();
        let ghost start = old(self)@;
        let ghost all = items@;
        proof {
            assert(start + all.take(0) =~= start);
            assert(all.len() == items.len());
        }
        for item in iter: items
            invariant
                self.wf(),
                old(self)@.len() <= CAPACITY,
                start == old(self)@,
                iter.seq() == all,
                CAPACITY > 0 || all.len() == 0,
                all.len() <= usize::MAX,
                iter.index() <= all.len(),
                result.inserted == iter.index(),
                result.overwritten == evicted_count(
                    start.len(),
                    iter.index() as nat,
                    CAPACITY as nat,
                ),
                self@ == keep_last(start + all.take(iter.index() as int), CAPACITY as nat),
        {
            let ghost i = iter.index();
            proof {
                lemma_keep_last_push(start + all.take(i as int), item, CAPACITY as nat);
                assert(start + all.take(i + 1) =~= (start + all.take(i as int)).push(item));
            }
            if self.push_overwrite(item) {
                result.overwritten = result.overwritten + 1;
            }
            result.inserted = result.inserted + 1;
        }
        proof {
            assert(all.take(all.len() as int) =~= all);
        }
        result
    }

    /// Removes and returns the item at the front of the ring buffer.
    pub fn pop(&mut self) -> (r: Option<T>)
        requires
            old(self).wf(),
        ensures
            final(self).wf(),
            r == (if old(self)@.len() == 0 {
                None
            } else {
                Some(old(self)@[0])
            }),
            final(self)@ == (if old(self)@.len() == 0 {
                old(self)@
            } else {
                old(self)@.drop_first()
            }),
    {
        if self.is_empty() {
            return None;
        }
        let head = self.head;
        let mut slot = None;
        std::mem::swap(&mut slot, &mut self.slots[head]);
        self.head = Self::next_head(head);
        self.len = self.len - 1;
        assert forall|i: int| 0 <= i < self.len implies (#[trigger] self.slots@[ring_position(
            self.head as int,
            i,
            CAPACITY as int,
        )]) is Some by {
            assert(old(self).slots@[ring_position(head as int, i + 1, CAPACITY as int)] is Some);
        }
        assert(self@ =~= old(self)@.drop_first());
        slot
    }

    /// Alias for `pop`, provided for queue-compatible container usage.
    pub fn front_pop(&mut self) -> (r: Option<T>)
        requires
            old(self).wf(),
        ensures
            final(self).wf(),
            r == (if old(self)@.len() == 0 {
                None
            } else {
                Some(old(self)@[0])
            }),
            final(self)@ == (if old(self)@.len() == 0 {
                old(self)@
            } else {
                old(self)@.drop_first()
            }),
    {
        self.pop()
    }

    /// Removes and returns up to `max_count` items from the front of the ring buffer.
    pub fn pop_range(&mut self, max_count: usize) -> (popped: Vec<T>)
        requires
            old(self).wf(),
        ensures
            final(self).wf(),
            popped@ == old(self)@.take(vstd::math::min(max_count as int, old(self)@.len() as int)),
            final(self)@ == old(self)@.skip(vstd::math::min(max_count as int, old(self)@.len() as int)),
    {
        let count = if max_count < self.len {
            max_count
        } else {
            self.len
        };
        let mut popped: Vec<T> = Vec::with_capacity(count);
        while popped.len() < count
            invariant
                self.wf(),
                count <= old(self)@.len(),
                popped@.len() <= count,
                popped@ == old(self)@.take(popped@.len() as int),
                self@ == old(self)@.skip(popped@.len() as int),
            decreases count - popped@.len(),
        {
            let item = self.pop();
            match item {
                Some(item) => {
                    popped.push(item);
                },
                None => {},
            }
            proof {
                assert(popped@ =~= old(self)@.take(popped@.len() as int));
                assert(self@ =~= old(self)@.skip(popped@.len() as int));
            }
        }
        popped
    }

    /// Returns a reference to the front item of the ring buffer.
    pub fn front(&self) -> (r: Option<&T>)
        requires
            self.wf(),
        ensures
            r == (if self@.len() == 0 {
                None
            } else {
                Some(&self@[0])
            }),
    {
        if self.is_empty() {
            None
        } else {
            self.slots[self.head].as_ref()
        }
    }

    /// Returns a reference to the back item of the ring buffer.
    pub fn back(&self) -> (r: Option<&T>)
        requires
            self.wf(),
        ensures
            r == (if self@.len() == 0 {
                None
            } else {
                Some(&self@[self@.len() - 1])
            }),
    {
        if self.is_empty() {
            None
        } else {
            let index = self.slot_index(self.len - 1);
            self.slots[index].as_ref()
        }
    }

    /// Clears all items from the ring buffer.
    pub fn clear(&mut self)
        requires
            old(self).wf(),
        ensures
            final(self).wf(),
            final(self)@ == Seq::<T>::empty(),
    {
        let mut i: usize = 0;
        while i < self.slots.len()
            invariant
                self.slots@.len() == CAPACITY,
                i <= CAPACITY,
            decreases CAPACITY - i,
        {
            self.slots.set(i, None);
            i = i + 1;
        }
        self.head = 0;
        self.len = 0;
        assert(self@ =~= Seq::<T>::empty());
    }
}

impl<T, const CAPACITY: usize> Default for RingBuffer<T, CAPACITY> {
    fn default() -> (r: Self)
        ensures
            r.wf(),
            r@ == Seq::<T>::empty(),
    {
        Self::new()
    }
}

} // verus!
