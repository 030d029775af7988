//! Unbounded FIFO queue with a queue-compatible batch API.

use std::collections::VecDeque;
use vstd::prelude::*;

verus! {

/// FIFO queue on top of `VecDeque`. The methods that change the queue take
/// `&mut self`: callers that share a queue between threads hold it behind a
/// lock of their choice.
#[derive(Debug)]
pub struct SyncQueue<T> {
    queue: VecDeque<T>,
}

impl<T> View for SyncQueue<T> {
    type V = Seq<T>;

    /// The queued items, front first.
    closed spec fn view(&self) -> Seq<T> {
        self.queue@
    }
}

impl<T> SyncQueue<T> {
    /// Creates a new, empty SyncQueue.
    pub fn new() -> (r: Self)
        ensures
            r@ == Seq::<T>::empty(),
    {
        SyncQueue { queue: VecDeque::new() }
    }

    /// Adds an item to the back of the queue.
    pub fn enqueue(&mut self, item: T)
        ensures
            final(self)@ == old(self)@.push(item),
    {
        self.queue.push_back(item);
    }

    /// Removes and returns an item from the front of the queue.
    pub fn dequeue(&mut self) -> (r: Option<T>)
        ensures
            r == (if old(self)@.len() == 0 {
                None
            } else {
                Some(old(self)@[0])
            }),
            final(self)@ == (if old(self)@.len() == 0 {
                old(self)@
            } else {
                old(self)@.drop_first()
            }),
    {
        let r = self.queue.pop_front();
        proof {
            if old(self)@.len() > 0 {
                assert(self@ =~= old(self)@.drop_first());
            }
        }
        r
    }

    /// Alias for `dequeue`, provided for queue-compatible container usage.
    pub fn front_pop(&mut self) -> (r: Option<T>)
        ensures
            r == (if old(self)@.len() == 0 {
                None
            } else {
                Some(old(self)@[0])
            }),
            final(self)@ == (if old(self)@.len() == 0 {
                old(self)@
            } else {
                old(self)@.drop_first()
            }),
    {
        self.dequeue()
    }

    /// Adds items to the back of the queue, in order.
    /// Returns the number of items inserted.
    pub fn push_range(&mut self, items: Vec<T>) -> (inserted: usize)
        ensures
            inserted == items@.len(),
            final(self)@ == old(self)@ + items@,
    {
        let mut inserted: usize = 0;
        let ghost all = items@;
        proof {
            assert(all.len() == items.len());
        }
        for item in iter: items
            invariant
                iter.seq() == all,
                all.len() <= usize::MAX,
                iter.index() <= all.len(),
                inserted == iter.index(),
                self@ == old(self)@ + all.take(iter.index() as int),
        {
            let ghost i = iter.index();
            self.queue.push_back(item);
            inserted = inserted + 1;
            proof {
                assert(all.take(i + 1) =~= all.take(i as int).push(item));
            }
        }
        proof {
            assert(all.take(all.len() as int) =~= all);
        }
        inserted
    }

    /// Removes and returns up to `max_count` items from the front of the queue.
    pub fn pop_range(&mut self, max_count: usize) -> (popped: Vec<T>)
        ensures
            popped@ == old(self)@.take(vstd::math::min(max_count as int, old(self)@.len() as int)),
            final(self)@ == old(self)@.skip(vstd::math::min(max_count as int, old(self)@.len() as int)),
    {
        let count = if max_count < self.queue.len() {
            max_count
        } else {
            self.queue.len()
        };
        let mut popped: Vec<T> = Vec::with_capacity(count);
        while popped.len() < count
            invariant
                count <= old(self)@.len(),
                popped@.len() <= count,
                popped@ == old(self)@.take(popped@.len() as int),
                self@ == old(self)@.skip(popped@.len() as int),
            decreases count - popped@.len(),
        {
            match self.queue.pop_front() {
                Some(item) => {
                    popped.push(item);
                },
                None => {},
            }
            proof {
                assert(popped@ =~= old(self)@.take(popped@.len() as int));
                assert(self@ =~= old(self)@.skip(popped@.len() as int));
            }
        }
        popped
    }

    /// Checks if the queue is empty.
    pub fn is_empty(&self) -> (r: bool)
        ensures
            r == (self@.len() == 0),
    {
        self.queue.len() == 0
    }

    /// Returns the size of the queue.
    pub fn size(&self) -> (r: usize)
        ensures
            r == self@.len(),
    {
        self.queue.len()
    }

    /// Clears all items from the queue.
    pub fn clear(&mut self)
        ensures
            final(self)@ == Seq::<T>::empty(),
    {
        self.queue.clear();
    }

    /// Returns a copy of the front item of the queue.
    pub fn front(&self) -> (r: Option<T>) where T: Clone
        ensures
            self@.len() == 0 ==> r is None,
            self@.len() > 0 ==> r is Some && cloned(self@[0], r->0),
    {
        if self.queue.len() == 0 {
            None
        } else {
            Some(self.queue[0].clone())
        }
    }

    /// Returns a copy of the back item of the queue.
    pub fn back(&self) -> (r: Option<T>) where T: Clone
        ensures
            self@.len() == 0 ==> r is None,
            self@.len() > 0 ==> r is Some && cloned(self@[self@.len() - 1], r->0),
    {
        let n = self.queue.len();
        if n == 0 {
            None
        } else {
            Some(self.queue[n - 1].clone())
        }
    }
}

impl<T> Default for SyncQueue<T> {
    fn default() -> (r: Self)
        ensures
            r@ == Seq::<T>::empty(),
    {
        Self::new()
    }
}

} // verus!
