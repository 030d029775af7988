//! Chronological list: (timestamp, value) entries, earliest timestamp first.

use crate::tools::order::{lawful_order, lemma_order, less_than, order_le, order_lt};
use std::collections::VecDeque;
use vstd::prelude::*;

verus! {

/// Type alias for a (timestamp, value) entry.
pub type TimeEntry<Timestamp, Value> = (Timestamp, Value);

/// Every entry's timestamp sorts before or with every later entry's.
pub open spec fn sorted_by_time<Ts: Ord, V>(s: Seq<(Ts, V)>) -> bool {
    forall|i: int, j: int| 0 <= i < j < s.len() ==> order_le(s[i].0, s[j].0)
}

/// An entry stamped `ts` belongs at index `k` of the sorted `s`: after every
/// entry stamped no later, before every entry stamped later.
pub open spec fn time_insertion_point<Ts: Ord, V>(s: Seq<(Ts, V)>, k: int, ts: Ts) -> bool {
    &&& 0 <= k <= s.len()
    &&& forall|i: int| 0 <= i < k ==> order_le(#[trigger] s[i].0, ts)
    &&& forall|i: int| k <= i < s.len() ==> order_lt(ts, #[trigger] s[i].0)
}

/// Inserting an entry at its insertion point keeps the list sorted.
pub proof fn lemma_sorted_time_insert<Ts: Ord, V>(s: Seq<(Ts, V)>, k: int, e: (Ts, V))
    requires
        lawful_order::<Ts>(),
        sorted_by_time(s),
        time_insertion_point(s, k, e.0),
    ensures
        sorted_by_time(s.insert(k, e)),
{
    let t = s.insert(k, e);
    let x = e.0;
    assert forall|i: int, j: int| 0 <= i < j < t.len() implies order_le(t[i].0, t[j].0) by {
        if i < k && j < k {
            assert(t[i] == s[i] && t[j] == s[j]);
        } else if i < k && j == k {
            assert(order_le(s[i].0, x));
        } else if i < k {
            assert(order_le(s[i].0, x));
            assert(order_lt(x, s[j - 1].0));
            lemma_order(s[i].0, x, s[j - 1].0);
            lemma_order(s[i].0, s[j - 1].0, x);
        } else if i == k {
            assert(order_lt(x, s[j - 1].0));
            lemma_order(x, s[j - 1].0, x);
        } else {
            assert(t[i] == s[i - 1] && t[j] == s[j - 1]);
        }
    }
}

/// Non-thread-safe chronological list: stores (timestamp, value) entries and
/// always exposes the earliest timestamp first. `Timestamp` must be `Ord`
/// (e.g. an integral tick count or `std::time::Instant`); `Value` has no
/// ordering requirement. Entries with equal timestamps come out in the
/// order they were pushed.
pub struct TimeList<Timestamp: Ord, Value> {
    entries: VecDeque<(Timestamp, Value)>,
}

impl<Timestamp: Ord, Value> View for TimeList<Timestamp, Value> {
    type V = Seq<(Timestamp, Value)>;

    /// The entries in the order they come out: earliest first.
    closed spec fn view(&self) -> Seq<(Timestamp, Value)> {
        self.entries@
    }
}

impl<Timestamp: Ord, Value> TimeList<Timestamp, Value> {
    /// Well-formedness: with a lawful `Ord`, the entries are in time order.
    pub closed spec fn wf(&self) -> bool {
        lawful_order::<Timestamp>() ==> sorted_by_time(self.entries@)
    }

    /// With a lawful `Ord`, a well-formed list lists its entries in time order.
    pub proof fn lemma_sorted(&self)
        requires
            self.wf(),
            lawful_order::<Timestamp>(),
        ensures
            sorted_by_time(self@),
    {
    }

    /// Creates a new, empty TimeList.
    pub fn new() -> (r: Self)
        ensures
            r.wf(),
            r@ == Seq::<(Timestamp, Value)>::empty(),
    {
        TimeList { entries: VecDeque::new() }
    }

    /// Adds a (timestamp, value) entry to the list, after the entries stamped
    /// no later than it.
    pub fn push(&mut self, timestamp: Timestamp, value: Value)
        requires
            old(self).wf(),
        ensures
            final(self).wf(),
            exists|k: int|
                0 <= k <= old(self)@.len() && final(self)@ == #[trigger] old(self)@.insert(
                    k,
                    (timestamp, value),
                ) && (lawful_order::<Timestamp>() ==> time_insertion_point(
                    old(self)@,
                    k,
                    timestamp,
                )),
    {
        let n = self.entries.len();
        let mut k: usize = 0;
        let mut found = false;
        while !found && k < n
            invariant
                n == self.entries@.len(),
                self.entries@ == old(self).entries@,
                k <= n,
                lawful_order::<Timestamp>() ==> sorted_by_time(self.entries@),
                lawful_order::<Timestamp>() ==> forall|i: int|
                    0 <= i < k ==> order_le(#[trigger] self.entries@[i].0, timestamp),
                found ==> k < n && (lawful_order::<Timestamp>() ==> order_lt(
                    timestamp,
                    self.entries@[k as int].0,
                )),
            decreases n - k + (if found {
                0int
            } else {
                1int
            }),
        {
            if less_than(&timestamp, &self.entries[k].0) {
                found = true;
            } else {
                proof {
                    if lawful_order::<Timestamp>() {
                        lemma_order(timestamp, self.entries@[k as int].0, timestamp);
                    }
                }
                k = k + 1;
            }
        }
        let ghost s = self.entries@;
        proof {
            if lawful_order::<Timestamp>() && k < n {
                assert forall|i: int| k <= i < s.len() implies order_lt(
                    timestamp,
                    #[trigger] s[i].0,
                ) by {
                    if i > k {
                        assert(order_le(s[k as int].0, s[i].0));
                        lemma_order(timestamp, s[k as int].0, s[i].0);
                    }
                }
            }
            if lawful_order::<Timestamp>() {
                lemma_sorted_time_insert(s, k as int, (timestamp, value));
            }
        }
        self.entries.insert(k, (timestamp, value));
        assert(0 <= k <= old(self)@.len() && self@ == old(self)@.insert(
            k as int,
            (timestamp, value),
        ) && (lawful_order::<Timestamp>() ==> time_insertion_point(
            old(self)@,
            k as int,
            timestamp,
        )));
    }

    /// Returns a copy of the earliest entry without removing it.
    pub fn top(&self) -> (r: Option<TimeEntry<Timestamp, Value>>) where
        Timestamp: Clone,
        Value: Clone,

        requires
            self.wf(),
        ensures
            self@.len() == 0 ==> r is None,
            self@.len() > 0 ==> r is Some && cloned(self@[0].0, (r->0).0) && cloned(
                self@[0].1,
                (r->0).1,
            ),
            lawful_order::<Timestamp>() && self@.len() > 0 ==> forall|i: int|
                0 <= i < self@.len() ==> order_le(self@[0].0, #[trigger] self@[i].0),
    {
        proof {
            if lawful_order::<Timestamp>() && self.entries@.len() > 0 {
                lemma_order(self.entries@[0].0, self.entries@[0].0, self.entries@[0].0);
            }
        }
        if self.entries.len() == 0 {
            None
        } else {
            let entry = &self.entries[0];
            Some((entry.0.clone(), entry.1.clone()))
        }
    }

    /// Removes the earliest entry, if any, without returning it.
    pub fn pop(&mut self)
        requires
            old(self).wf(),
        ensures
            final(self).wf(),
            final(self)@ == (if old(self)@.len() == 0 {
                old(self)@
            } else {
                old(self)@.drop_first()
            }),
    {
        let _ = self.entries.pop_front();
        proof {
            if old(self)@.len() > 0 {
                assert(self@ =~= old(self)@.drop_first());
            }
        }
    }

    /// Removes and returns the earliest entry.
    pub fn top_pop(&mut self) -> (r: Option<TimeEntry<Timestamp, Value>>)
        requires
            old(self).wf(),
        ensures
            final(self).wf(),
            r == (if old(self)@.len() == 0 {
                None
            } else {
                Some(old(self)@[0])
            }),
            final(self)@ == (if old(self)@.len() == 0 {
                old(self)@
            } else {
                old(self)@.drop_first()
            }),
            lawful_order::<Timestamp>() && old(self)@.len() > 0 ==> forall|i: int|
                0 <= i < old(self)@.len() ==> order_le(old(self)@[0].0, #[trigger] old(self)@[i].0),
    {
        proof {
            if lawful_order::<Timestamp>() && self.entries@.len() > 0 {
                lemma_order(self.entries@[0].0, self.entries@[0].0, self.entries@[0].0);
            }
        }
        let r = self.entries.pop_front();
        proof {
            if old(self)@.len() > 0 {
                assert(self@ =~= old(self)@.drop_first());
            }
        }
        r
    }

    /// Checks if the list is empty.
    pub fn is_empty(&self) -> (r: bool)
        ensures
            r == (self@.len() == 0),
    {
        self.entries.len() == 0
    }

    /// Returns the number of entries in the list.
    pub fn size(&self) -> (r: usize)
        ensures
            r == self@.len(),
    {
        self.entries.len()
    }

    /// Clears all entries from the list.
    pub fn clear(&mut self)
        ensures
            final(self).wf(),
            final(self)@ == Seq::<(Timestamp, Value)>::empty(),
    {
        self.entries.clear();
    }

    /// Returns copies of all entries, earliest first, without draining the list.
    pub fn snapshot_sorted(&self) -> (r: Vec<TimeEntry<Timestamp, Value>>) where
        Timestamp: Clone,
        Value: Clone,

        ensures
            r@.len() == self@.len(),
            forall|i: int|
                0 <= i < self@.len() ==> cloned(self@[i].0, (#[trigger] r@[i]).0) && cloned(
                    self@[i].1,
                    r@[i].1,
                ),
    {
        let n = self.entries.len();
        let mut r: Vec<TimeEntry<Timestamp, Value>> = Vec::with_capacity(n);
        let mut i: usize = 0;
        while i < n
            invariant
                n == self@.len(),
                i <= n,
                r@.len() == i,
                forall|j: int|
                    0 <= j < i ==> cloned(self@[j].0, (#[trigger] r@[j]).0) && cloned(
                        self@[j].1,
                        r@[j].1,
                    ),
            decreases n - i,
        {
            let entry = &self.entries[i];
            r.push((entry.0.clone(), entry.1.clone()));
            i = i + 1;
        }
        r
    }
}

impl<Timestamp: Ord, Value> Default for TimeList<Timestamp, Value> {
    fn default() -> (r: Self)
        ensures
            r.wf(),
            r@ == Seq::<(Timestamp, Value)>::empty(),
    {
        Self::new()
    }
}

} // verus!
