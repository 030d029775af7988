//! Min-priority queue: the lowest-valued item comes out first.

use crate::tools::order::{lawful_order, lemma_order, less_than, order_le, order_lt};
use std::collections::VecDeque;
use vstd::prelude::*;

verus! {

/// Every item sorts before or with every later one.
pub open spec fn sorted_by_order<T: Ord>(s: Seq<T>) -> bool {
    forall|i: int, j: int| 0 <= i < j < s.len() ==> order_le(s[i], s[j])
}

/// `x` belongs at index `k` of the sorted `s`: after every item that sorts
/// before it or with it, before every item that sorts after it.
pub open spec fn insertion_point<T: Ord>(s: Seq<T>, k: int, x: T) -> bool {
    &&& 0 <= k <= s.len()
    &&& forall|i: int| 0 <= i < k ==> order_le(#[trigger] s[i], x)
    &&& forall|i: int| k <= i < s.len() ==> order_lt(x, #[trigger] s[i])
}

/// Inserting an item at its insertion point keeps a sequence sorted.
pub proof fn lemma_sorted_insert<T: Ord>(s: Seq<T>, k: int, x: T)
    requires
        lawful_order::<T>(),
        sorted_by_order(s),
        insertion_point(s, k, x),
    ensures
        sorted_by_order(s.insert(k, x)),
{
    let t = s.insert(k, x);
    assert forall|i: int, j: int| 0 <= i < j < t.len() implies order_le(t[i], t[j]) by {
        if i < k && j < k {
            assert(t[i] == s[i] && t[j] == s[j]);
        } else if i < k && j == k {
            assert(order_le(s[i], x));
        } else if i < k {
            assert(order_le(s[i], x));
            assert(order_lt(x, s[j - 1]));
            lemma_order(s[i], x, s[j - 1]);
            lemma_order(s[i], s[j - 1], x);
        } else if i == k {
            assert(order_lt(x, s[j - 1]));
            lemma_order(x, s[j - 1], x);
        } else {
            assert(t[i] == s[i - 1] && t[j] == s[j - 1]);
        }
    }
}

/// Index at which `item` is inserted into the sorted `s`: after every item
/// that does not sort after it, so equal items come out first in, first out.
pub fn find_insertion_point<T: Ord>(s: &VecDeque<T>, item: &T) -> (k: usize)
    requires
        lawful_order::<T>() ==> sorted_by_order(s@),
    ensures
        k <= s@.len(),
        lawful_order::<T>() ==> insertion_point(s@, k as int, *item),
{
    let n = s.len();
    let mut k: usize = 0;
    let mut found = false;
    while !found && k < n
        invariant
            n == s@.len(),
            k <= n,
            lawful_order::<T>() ==> sorted_by_order(s@),
            lawful_order::<T>() ==> forall|i: int| 0 <= i < k ==> order_le(#[trigger] s@[i], *item),
            found ==> k < n && (lawful_order::<T>() ==> order_lt(*item, s@[k as int])),
        decreases n - k + (if found { 0int } else { 1int }),
    {
        if less_than(item, &s[k]) {
            found = true;
        } else {
            proof {
                if lawful_order::<T>() {
                    lemma_order(*item, s@[k as int], *item);
                }
            }
            k = k + 1;
        }
    }
    proof {
        if lawful_order::<T>() && k < n {
            assert forall|i: int| k <= i < s@.len() implies order_lt(*item, #[trigger] s@[i]) by {
                if i > k {
                    assert(order_le(s@[k as int], s@[i]));
                    lemma_order(*item, s@[k as int], s@[i]);
                }
            }
        }
    }
    k
}

/// Priority queue kept as a sequence sorted from lowest to highest value.
/// Default behavior is a min-heap (lowest value popped first). The methods
/// that change the queue take `&mut self`: callers that share it between
/// threads hold it behind a lock of their choice.
#[derive(Debug)]
pub struct SyncPriorityQueue<T> {
    heap: VecDeque<T>,
}

impl<T> View for SyncPriorityQueue<T> {
    type V = Seq<T>;

    /// The items in the order they come out: lowest first.
    closed spec fn view(&self) -> Seq<T> {
        self.heap@
    }
}

impl<T: Ord> SyncPriorityQueue<T> {
    /// Well-formedness: with a lawful `Ord`, the items are sorted.
    pub closed spec fn wf(&self) -> bool {
        lawful_order::<T>() ==> sorted_by_order(self.heap@)
    }

    /// With a lawful `Ord`, a well-formed queue lists its items in order.
    pub proof fn lemma_sorted(&self)
        requires
            self.wf(),
            lawful_order::<T>(),
        ensures
            sorted_by_order(self@),
    {
    }

    /// Creates a new, empty SyncPriorityQueue.
    pub fn new() -> (r: Self)
        ensures
            r.wf(),
            r@ == Seq::<T>::empty(),
    {
        SyncPriorityQueue { heap: VecDeque::new() }
    }

    /// Adds an item to the priority queue, after the items that do not sort
    /// after it.
    pub fn push(&mut self, item: T)
        requires
            old(self).wf(),
        ensures
            final(self).wf(),
            exists|k: int|
                0 <= k <= old(self)@.len() && final(self)@ == #[trigger] old(self)@.insert(k, item)
                    && (lawful_order::<T>() ==> insertion_point(old(self)@, k, item)),
    {
        let k = find_insertion_point(&self.heap, &item);
        proof {
            if lawful_order::<T>() {
                lemma_sorted_insert(self.heap@, k as int, item);
            }
        }
        self.heap.insert(k, item);
        assert(0 <= k <= old(self)@.len() && self@ == old(self)@.insert(k as int, item) && (
        lawful_order::<T>() ==> insertion_point(old(self)@, k as int, item)));
    }

    /// Removes and returns the highest-priority (lowest-valued) item.
    pub fn top_pop(&mut self) -> (r: Option<T>)
        requires
            old(self).wf(),
        ensures
            final(self).wf(),
            r == (if old(self)@.len() == 0 {
                None
            } else {
                Some(old(self)@[0])
            }),
            final(self)@ == (if old(self)@.len() == 0 {
                old(self)@
            } else {
                old(self)@.drop_first()
            }),
            lawful_order::<T>() && old(self)@.len() > 0 ==> forall|i: int|
                0 <= i < old(self)@.len() ==> order_le(old(self)@[0], #[trigger] old(self)@[i]),
    {
        proof {
            if lawful_order::<T>() && self.heap@.len() > 0 {
                lemma_order(self.heap@[0], self.heap@[0], self.heap@[0]);
            }
        }
        let r = self.heap.pop_front();
        proof {
            if old(self)@.len() > 0 {
                assert(self@ =~= old(self)@.drop_first());
            }
        }
        r
    }

    /// Returns a copy of the highest-priority (lowest-valued) item.
    pub fn top(&self) -> (r: Option<T>) where T: Clone
        requires
            self.wf(),
        ensures
            self@.len() == 0 ==> r is None,
            self@.len() > 0 ==> r is Some && cloned(self@[0], r->0),
            lawful_order::<T>() && self@.len() > 0 ==> forall|i: int|
                0 <= i < self@.len() ==> order_le(self@[0], #[trigger] self@[i]),
    {
        proof {
            if lawful_order::<T>() && self.heap@.len() > 0 {
                lemma_order(self.heap@[0], self.heap@[0], self.heap@[0]);
            }
        }
        if self.heap.len() == 0 {
            None
        } else {
            Some(self.heap[0].clone())
        }
    }

    /// Alias for `top`, provided for queue-compatible container usage.
    pub fn front(&self) -> (r: Option<T>) where T: Clone
        requires
            self.wf(),
        ensures
            self@.len() == 0 ==> r is None,
            self@.len() > 0 ==> r is Some && cloned(self@[0], r->0),
            lawful_order::<T>() && self@.len() > 0 ==> forall|i: int|
                0 <= i < self@.len() ==> order_le(self@[0], #[trigger] self@[i]),
    {
        self.top()
    }

    /// Alias for `top_pop`, provided for queue-compatible container usage.
    pub fn front_pop(&mut self) -> (r: Option<T>)
        requires
            old(self).wf(),
        ensures
            final(self).wf(),
            r == (if old(self)@.len() == 0 {
                None
            } else {
                Some(old(self)@[0])
            }),
            final(self)@ == (if old(self)@.len() == 0 {
                old(self)@
            } else {
                old(self)@.drop_first()
            }),
            lawful_order::<T>() && old(self)@.len() > 0 ==> forall|i: int|
                0 <= i < old(self)@.len() ==> order_le(old(self)@[0], #[trigger] old(self)@[i]),
    {
        self.top_pop()
    }

    /// Checks if the priority queue is empty.
    pub fn is_empty(&self) -> (r: bool)
        ensures
            r == (self@.len() == 0),
    {
        self.heap.len() == 0
    }

    /// Returns the number of items in the priority queue.
    pub fn size(&self) -> (r: usize)
        ensures
            r == self@.len(),
    {
        self.heap.len()
    }

    /// Clears all items from the priority queue.
    pub fn clear(&mut self)
        ensures
            final(self).wf(),
            final(self)@ == Seq::<T>::empty(),
    {
        self.heap.clear();
    }
}

impl<T: Ord> Default for SyncPriorityQueue<T> {
    fn default() -> (r: Self)
        ensures
            r.wf(),
            r@ == Seq::<T>::empty(),
    {
        Self::new()
    }
}

} // verus!
