//! Chronological list with the same API as `TimeList`, meant to be shared.

use crate::tools::order::{lawful_order, order_le};
use crate::tools::time_list::{time_insertion_point, sorted_by_time, TimeEntry, TimeList};
use vstd::prelude::*;

verus! {

/// Adapter over `TimeList`: a chronological list keyed by timestamp, always
/// exposing the earliest entry first. The methods that change the list take
/// `&mut self`: callers that share it between threads hold it behind a lock
/// of their choice.
pub struct SyncTimeList<Timestamp: Ord, Value> {
    list: TimeList<Timestamp, Value>,
}

impl<Timestamp: Ord, Value> View for SyncTimeList<Timestamp, Value> {
    type V = Seq<(Timestamp, Value)>;

    /// The entries in the order they come out: earliest first.
    closed spec fn view(&self) -> Seq<(Timestamp, Value)> {
        self.list@
    }
}

impl<Timestamp: Ord, Value> SyncTimeList<Timestamp, Value> {
    /// Well-formedness of the underlying list.
    pub closed spec fn wf(&self) -> bool {
        self.list.wf()
    }

    /// With a lawful `Ord`, a well-formed list lists its entries in time order.
    pub proof fn lemma_sorted(&self)
        requires
            self.wf(),
            lawful_order::<Timestamp>(),
        ensures
            sorted_by_time(self@),
    {
        self.list.lemma_sorted();
    }

    /// Creates a new, empty SyncTimeList.
    pub fn new() -> (r: Self)
        ensures
            r.wf(),
            r@ == Seq::<(Timestamp, Value)>::empty(),
    {
        SyncTimeList { list: TimeList::new() }
    }

    /// Adds a (timestamp, value) entry to the list, after the entries stamped
    /// no later than it.
    pub fn push(&mut self, timestamp: Timestamp, value: Value)
        requires
            old(self).wf(),
        ensures
            final(self).wf(),
            exists|k: int|
                0 <= k <= old(self)@.len() && final(self)@ == #[trigger] old(self)@.insert(
                    k,
                    (timestamp, value),
                ) && (lawful_order::<Timestamp>() ==> time_insertion_point(
                    old(self)@,
                    k,
                    timestamp,
                )),
    {
        let ghost before = self.list@;
        self.list.push(timestamp, value);
        proof {
            let k = choose|k: int|
                0 <= k <= before.len() && self.list@ == #[trigger] before.insert(
                    k,
                    (timestamp, value),
                ) && (lawful_order::<Timestamp>() ==> time_insertion_point(before, k, timestamp));
            assert(0 <= k <= old(self)@.len() && self@ == old(self)@.insert(k, (timestamp, value))
                && (lawful_order::<Timestamp>() ==> time_insertion_point(
                old(self)@,
                k,
                timestamp,
            )));
        }
    }

    /// Returns a copy of the earliest entry without removing it.
    pub fn top(&self) -> (r: Option<TimeEntry<Timestamp, Value>>) where
        Timestamp: Clone,
        Value: Clone,

        requires
            self.wf(),
        ensures
            self@.len() == 0 ==> r is None,
            self@.len() > 0 ==> r is Some && cloned(self@[0].0, (r->0).0) && cloned(
                self@[0].1,
                (r->0).1,
            ),
            lawful_order::<Timestamp>() && self@.len() > 0 ==> forall|i: int|
                0 <= i < self@.len() ==> order_le(self@[0].0, #[trigger] self@[i].0),
    {
        self.list.top()
    }

    /// Removes the earliest entry, if any, without returning it.
    pub fn pop(&mut self)
        requires
            old(self).wf(),
        ensures
            final(self).wf(),
            final(self)@ == (if old(self)@.len() == 0 {
                old(self)@
            } else {
                old(self)@.drop_first()
            }),
    {
        self.list.pop();
    }

    /// Removes and returns the earliest entry.
    pub fn top_pop(&mut self) -> (r: Option<TimeEntry<Timestamp, Value>>)
        requires
            old(self).wf(),
        ensures
            final(self).wf(),
            r == (if old(self)@.len() == 0 {
                None
            } else {
                Some(old(self)@[0])
            }),
            final(self)@ == (if old(self)@.len() == 0 {
                old(self)@
            } else {
                old(self)@.drop_first()
            }),
            lawful_order::<Timestamp>() && old(self)@.len() > 0 ==> forall|i: int|
                0 <= i < old(self)@.len() ==> order_le(old(self)@[0].0, #[trigger] old(self)@[i].0),
    {
        self.list.top_pop()
    }

    /// Checks if the list is empty.
    pub fn is_empty(&self) -> (r: bool)
        ensures
            r == (self@.len() == 0),
    {
        self.list.is_empty()
    }

    /// Returns the number of entries in the list.
    pub fn size(&self) -> (r: usize)
        ensures
            r == self@.len(),
    {
        self.list.size()
    }

    /// Clears all entries from the list.
    pub fn clear(&mut self)
        ensures
            final(self).wf(),
            final(self)@ == Seq::<(Timestamp, Value)>::empty(),
    {
        self.list.clear();
    }

    /// Returns copies of all entries, earliest first, without draining the list.
    pub fn snapshot_sorted(&self) -> (r: Vec<TimeEntry<Timestamp, Value>>) where
        Timestamp: Clone,
        Value: Clone,

        ensures
            r@.len() == self@.len(),
            forall|i: int|
                0 <= i < self@.len() ==> cloned(self@[i].0, (#[trigger] r@[i]).0) && cloned(
                    self@[i].1,
                    r@[i].1,
                ),
    {
        self.list.snapshot_sorted()
    }
}

impl<Timestamp: Ord, Value> Default for SyncTimeList<Timestamp, Value> {
    fn default() -> (r: Self)
        ensures
            r.wf(),
            r@ == Seq::<(Timestamp, Value)>::empty(),
    {
        Self::new()
    }
}

} // verus!
