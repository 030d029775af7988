//! Histogram of occurrences, tracking the value seen most often.

use crate::tools::order::{lawful_order, lemma_order, less_than, order_le, order_lt};
use crate::tools::sync_dictionary::{cloned_entries, hash_entries};
use std::collections::HashMap;
use std::hash::Hash;
use vstd::multiset::Multiset;
use vstd::prelude::*;
use vstd::std_specs::hash::obeys_key_model;

verus! {

/// The number of occurrences of `value` recorded in `counts`.
pub open spec fn count_of<T>(counts: Map<T, usize>, value: T) -> nat {
    if counts.contains_key(value) {
        counts[value] as nat
    } else {
        0
    }
}

/// Sum of the counts of the `(value, count)` entries whose value sorts
/// before `v` (strictly before, when `strict`; before or with it otherwise).
pub open spec fn count_before<T: Ord>(entries: Seq<(T, usize)>, v: T, strict: bool) -> nat
    decreases entries.len(),
{
    if entries.len() == 0 {
        0
    } else {
        let e = entries.last();
        let counted = if strict {
            order_lt(e.0, v)
        } else {
            order_le(e.0, v)
        };
        count_before(entries.drop_last(), v, strict) + (if counted {
            e.1 as nat
        } else {
            0
        })
    }
}

/// `v` is the median of `total` counted values: at most half of them sort
/// strictly before it, and more than half sort before it or with it.
pub open spec fn is_median<T: Ord>(entries: Seq<(T, usize)>, total: nat, v: T) -> bool {
    count_before(entries, v, true) <= total / 2 < count_before(entries, v, false)
}

/// Under a lawful order, the values sorting before or with `a` also sort
/// strictly before any `b` above `a`.
proof fn lemma_count_before_monotone<T: Ord>(entries: Seq<(T, usize)>, a: T, b: T)
    requires
        lawful_order::<T>(),
        order_lt(a, b),
    ensures
        count_before(entries, a, false) <= count_before(entries, b, true),
    decreases entries.len(),
{
    if entries.len() > 0 {
        lemma_count_before_monotone(entries.drop_last(), a, b);
        lemma_order(entries.last().0, a, b);
    }
}

/// Under a lawful order, two medians of the same counts sort equal: the
/// median is unique.
pub proof fn law_median_is_unique<T: Ord>(entries: Seq<(T, usize)>, total: nat, a: T, b: T)
    requires
        lawful_order::<T>(),
        is_median(entries, total, a),
        is_median(entries, total, b),
    ensures
        order_le(a, b),
        order_le(b, a),
{
    if order_lt(a, b) {
        lemma_count_before_monotone(entries, a, b);
    }
    if order_lt(b, a) {
        lemma_count_before_monotone(entries, b, a);
    }
    lemma_order(a, b, a);
    lemma_order(b, a, b);
}

/// `r` is a clone of the value of the first entry that is the median, or
/// `None` when no entry is.
pub open spec fn median_result<T: Ord + Clone>(
    entries: Seq<(T, usize)>,
    total: nat,
    r: Option<T>,
) -> bool {
    match r {
        Some(v) => exists|i: int|
            0 <= i < entries.len() && cloned(entries[i].0, v) && #[trigger] is_median(
                entries,
                total,
                entries[i].0,
            ),
        None => forall|i: int|
            0 <= i < entries.len() ==> !#[trigger] is_median(entries, total, entries[i].0),
    }
}

/// Whether the counts of the entries sorting before `v` (strictly, when
/// `strict`) add up to more than `limit`.
fn counts_exceed<T: Ord>(entries: &Vec<(T, usize)>, v: &T, strict: bool, limit: usize) -> (r: bool)
    ensures
        lawful_order::<T>() ==> r == (count_before(entries@, *v, strict) > limit),
{
    let n = entries.len();
    let mut sum: u128 = 0;
    let mut j: usize = 0;
    while j < n
        invariant
            n == entries@.len(),
            j <= n,
            lawful_order::<T>() ==> sum == count_before(entries@.take(j as int), *v, strict),
            sum <= j * (usize::MAX as u128),
        decreases n - j,
    {
        let e = &entries[j];
        let counted = if strict {
            less_than(&e.0, v)
        } else {
            !less_than(v, &e.0)
        };
        proof {
            if lawful_order::<T>() {
                lemma_order(e.0, *v, e.0);
                lemma_order(*v, e.0, *v);
                assert(entries@.take(j + 1).drop_last() =~= entries@.take(j as int));
            }
            assert(sum + usize::MAX <= (j + 1) * (usize::MAX as u128)) by (nonlinear_arith)
                requires
                    sum <= j * (usize::MAX as u128),
            ;
        }
        if counted {
            sum = sum + e.1 as u128;
        }
        j = j + 1;
    }
    proof {
        assert(entries@.take(n as int) =~= entries@);
    }
    sum > limit as u128
}

/// Clone of the value of the first entry that is the median of `total`
/// counted values, if any.
fn median_entry<T: Ord + Clone>(entries: &Vec<(T, usize)>, total: usize) -> (r: Option<T>)
    ensures
        lawful_order::<T>() ==> median_result(entries@, total as nat, r),
{
    let mid = total / 2;
    let n = entries.len();
    let mut i: usize = 0;
    while i < n
        invariant
            n == entries@.len(),
            i <= n,
            mid == total / 2,
            lawful_order::<T>() ==> forall|k: int|
                0 <= k < i ==> !#[trigger] is_median(entries@, total as nat, entries@[k].0),
        decreases n - i,
    {
        let v = &entries[i].0;
        let below = counts_exceed(entries, v, true, mid);
        let up_to = counts_exceed(entries, v, false, mid);
        if !below && up_to {
            let r = v.clone();
            proof {
                if lawful_order::<T>() {
                    assert(is_median(entries@, total as nat, entries@[i as int].0));
                }
            }
            return Some(r);
        }
        i = i + 1;
    }
    None
}

/// The values recorded in `counts` as a multiset: each value as many times
/// as its count.
pub open spec fn samples_of<T>(counts: Map<T, usize>) -> Multiset<T> {
    Multiset::from_map(counts.map_values(|c: usize| c as nat))
}

/// A simple histogram to track occurrences of values.
#[derive(Debug)]
pub struct Histogram<T> {
    occurences: HashMap<T, usize>,
    total_count: usize,
    top_occurence: Option<(T, usize)>,
    top_value: Option<T>,
}

impl<T: Hash + Eq + Clone + Ord> Histogram<T> {
    /// The number of occurrences recorded for each value.
    pub closed spec fn counts(&self) -> Map<T, usize> {
        self.occurences@
    }

    /// The number of values added since creation or the last clear.
    pub closed spec fn total(&self) -> nat {
        self.total_count as nat
    }

    /// The value that first reached the highest count, with that count.
    pub closed spec fn top(&self) -> Option<(T, usize)> {
        self.top_occurence
    }

    /// The value that first reached the highest count.
    pub closed spec fn top_val(&self) -> Option<T> {
        self.top_value
    }

    /// The values hash and compare as their view does (true of the
    /// primitive integer types), so the counts are those of a map.
    pub open spec fn keys_lawful() -> bool {
        obeys_key_model::<T>()
    }

    /// Well-formedness: with lawful keys, every recorded count is positive
    /// and at most the total, and the top count is the highest count,
    /// reached by some value.
    pub closed spec fn wf(&self) -> bool {
        &&& (self.top_occurence is Some <==> self.top_value is Some)
        &&& self.top_occurence matches Some(t) ==> cloned(self.top_value->0, t.0)
        &&& Self::keys_lawful() ==> {
            &&& self.occurences@.dom().finite()
            &&& self.total_count == samples_of(self.occurences@).len()
            &&& forall|k: T|
                #[trigger] self.occurences@.contains_key(k) ==> 1 <= self.occurences@[k]
                    <= self.total_count
            &&& self.top_occurence is None ==> self.occurences@ == Map::<T, usize>::empty()
            &&& self.top_occurence matches Some(t) ==> {
                &&& forall|k: T|
                    #[trigger] self.occurences@.contains_key(k) ==> self.occurences@[k] <= t.1
                &&& exists|k: T|
                    #[trigger] self.occurences@.contains_key(k) && self.occurences@[k] == t.1
                        && cloned(self.top_value->0, k)
            }
        }
    }

    /// No recorded value makes no sample.
    proof fn lemma_no_samples()
        ensures
            samples_of(Map::<T, usize>::empty()).len() == 0,
    {
        broadcast use vstd::multiset::group_multiset_axioms;
        let m = Map::<T, usize>::empty();
        assert(m.map_values(|c: usize| c as nat).dom() =~= Set::<T>::empty());
        assert(samples_of(m) =~= Multiset::<T>::empty());
    }

    /// With lawful keys, the total is the number of recorded samples: the
    /// counts add up to it, so the histogram records nothing, and has no top
    /// value, exactly when the total is zero.
    pub proof fn lemma_total_is_sample_count(&self)
        requires
            self.wf(),
            Self::keys_lawful(),
        ensures
            self.total() == samples_of(self.counts()).len(),
            forall|k: T| #[trigger] samples_of(self.counts()).count(k) == count_of(self.counts(), k),
            self.total() == 0 <==> self.counts() == Map::<T, usize>::empty(),
            self.top() is None <==> self.total() == 0,
    {
        broadcast use vstd::multiset::group_multiset_axioms;
        let m = self.occurences@;
        let ms = samples_of(m);
        assert forall|k: T| #[trigger] ms.count(k) == count_of(m, k) by {
            assert(m.map_values(|c: usize| c as nat).dom() =~= m.dom());
        }
        if self.total_count == 0 {
            vstd::multiset::lemma_multiset_empty_len(ms);
            if !(m =~= Map::<T, usize>::empty()) {
                let k = choose|k: T| m.contains_key(k);
                assert(ms.count(k) == m[k]);
            }
        }
        if m =~= Map::<T, usize>::empty() {
            assert(ms =~= Multiset::<T>::empty());
        }
        self.lemma_top_is_highest();
        if self.top() is Some {
            let t = self.top()->0;
            let w = choose|w: T| #[trigger] self.counts().contains_key(w) && self.counts()[w] == t.1;
            assert(self.counts().contains_key(w));
        }
    }

    /// With lawful keys, the top count is the highest count of any value
    /// and is reached by some value; there is no top only when nothing was
    /// recorded.
    pub proof fn lemma_top_is_highest(&self)
        requires
            self.wf(),
            Self::keys_lawful(),
        ensures
            self.top() is None ==> self.counts() == Map::<T, usize>::empty(),
            self.top() matches Some(t) ==> {
                &&& forall|k: T| #[trigger] self.counts().contains_key(k) ==> self.counts()[k] <= t.1
                &&& self.top_val() matches Some(v)
                &&& cloned(v, t.0)
                &&& exists|k: T|
                    #[trigger] self.counts().contains_key(k) && self.counts()[k] == t.1 && cloned(v, k)
            },
            forall|k: T| #[trigger] self.counts().contains_key(k) ==> 1 <= self.counts()[k] <= self.total(),
    {
        let top = self.top_occurence;
        match top {
            Some(t) => {
                let v = self.top_value->0;
                let w = choose|w: T|
                    #[trigger] self.occurences@.contains_key(w) && self.occurences@[w] == t.1
                        && cloned(v, w);
                assert(self.counts().contains_key(w) && self.counts()[w] == t.1 && cloned(v, w));
            },
            None => {},
        }
    }

    /// Creates a new, empty Histogram.
    pub fn new() -> (r: Self)
        ensures
            r.wf(),
            r.counts() == Map::<T, usize>::empty(),
            r.total() == 0,
            r.top() is None,
            r.top_val() is None,
    {
        proof {
            Self::lemma_no_samples();
        }
        Histogram {
            occurences: HashMap::new(),
            total_count: 0,
            top_occurence: None,
            top_value: None,
        }
    }

    /// Adds a value to the histogram: its count grows by one, and it becomes
    /// the top value when its count now exceeds the top count.
    pub fn add(&mut self, value: T)
        requires
            old(self).wf(),
            old(self).total() < usize::MAX,
        ensures
            final(self).wf(),
            final(self).total() == old(self).total() + 1,
            Self::keys_lawful() ==> exists|k: T|
                {
                    &&& cloned(value, k)
                    &&& final(self).counts() == #[trigger] old(self).counts().insert(
                        k,
                        (count_of(old(self).counts(), k) + 1) as usize,
                    )
                    &&& samples_of(final(self).counts()) == samples_of(old(self).counts()).insert(k)
                    &&& if old(self).top() is None || count_of(old(self).counts(), k) + 1 > (old(
                        self,
                    ).top()->0).1 {
                        &&& final(self).top() matches Some(t)
                        &&& cloned(value, t.0)
                        &&& t.1 == count_of(old(self).counts(), k) + 1
                        &&& final(self).top_val() == Some(value)
                    } else {
                        &&& final(self).top() == old(self).top()
                        &&& final(self).top_val() == old(self).top_val()
                    }
                },
    {
        let key = value.clone();
        let current: usize = match self.occurences.get(&key) {
            Some(c) => *c,
            None => 0,
        };
        // A count never reaches `usize::MAX` while the total stays below it.
        let count: usize = if current < usize::MAX {
            current + 1
        } else {
            current
        };
        let ghost old_counts = self.occurences@;
        let ghost k = key;
        self.occurences.insert(key, count);
        self.total_count = self.total_count + 1;
        let replace = match &self.top_occurence {
            Some(top) => count > top.1,
            None => true,
        };
        if replace {
            self.top_occurence = Some((value.clone(), count));
            self.top_value = Some(value);
        }
        proof {
            if Self::keys_lawful() {
                assert(count == count_of(old_counts, k) + 1);
                assert forall|j: T| #[trigger]
                    self.occurences@.contains_key(j) implies 1 <= self.occurences@[j]
                    <= self.total_count by {
                    if j != k {
                        assert(old_counts.contains_key(j));
                    }
                }
                let top = self.top_occurence;
                match top {
                    Some(t) => {
                        assert forall|j: T| #[trigger]
                            self.occurences@.contains_key(j) implies self.occurences@[j]
                            <= t.1 by {
                            if j != k {
                                assert(old_counts.contains_key(j));
                            }
                        }
                        if replace {
                            assert(self.occurences@.contains_key(k) && self.occurences@[k] == t.1
                                && cloned(self.top_value->0, k));
                        } else {
                            let w = choose|w: T|
                                #[trigger] old_counts.contains_key(w) && old_counts[w] == t.1
                                    && cloned(self.top_value->0, w);
                            if w == k {
                                assert(old_counts[k] + 1 <= t.1);
                                assert(false);
                            }
                            assert(self.occurences@.contains_key(w) && self.occurences@[w] == t.1
                                && cloned(self.top_value->0, w));
                        }
                    },
                    None => {},
                }
                assert(self.occurences@ == old_counts.insert(k, count));
                assert(samples_of(self.occurences@) =~= samples_of(old_counts).insert(k)) by {
                    broadcast use vstd::multiset::group_multiset_axioms;
                    let nm = self.occurences@.map_values(|c: usize| c as nat);
                    let om = old_counts.map_values(|c: usize| c as nat);
                    assert(nm.dom() =~= self.occurences@.dom());
                    assert(om.dom() =~= old_counts.dom());
                }
                assert(samples_of(self.occurences@).len() == samples_of(old_counts).len() + 1) by {
                    broadcast use vstd::multiset::group_multiset_axioms;
                }
                assert(cloned(value, k));
                assert(self.counts() == old(self).counts().insert(
                    k,
                    (count_of(old(self).counts(), k) + 1) as usize,
                ));
            }
        }
    }

    /// Returns the total count of values in the histogram.
    pub fn total_count(&self) -> (r: usize)
        ensures
            r == self.total(),
    {
        self.total_count
    }

    /// Returns the value with the highest occurrence (the first to reach it).
    pub fn top_value(&self) -> (r: Option<&T>)
        ensures
            r == (match self.top_val() {
                Some(v) => Some(&v),
                None => None,
            }),
    {
        self.top_value.as_ref()
    }

    /// Returns the count of the value with the highest occurrence.
    pub fn top_count(&self) -> (r: Option<usize>)
        ensures
            r == (match self.top() {
                Some(t) => Some(t.1),
                None => None,
            }),
    {
        match &self.top_occurence {
            Some(top) => Some(top.1),
            None => None,
        }
    }

    /// Returns the value with the highest occurrence along with its count.
    pub fn top_value_with_count(&self) -> (r: Option<(&T, usize)>)
        ensures
            r == (match self.top() {
                Some(t) => Some((&t.0, t.1)),
                None => None,
            }),
    {
        match &self.top_occurence {
            Some(top) => Some((&top.0, top.1)),
            None => None,
        }
    }

    /// Clones of the recorded (value, count) pairs, in no particular order.
    pub fn occurrences(&self) -> (r: Vec<(T, usize)>)
        ensures
            Self::keys_lawful() ==> cloned_entries(r@, self.counts()),
    {
        hash_entries(&self.occurences)
    }

    /// Clone of the median of the recorded values: the value, among those
    /// recorded, at most half of the samples sort strictly before and more
    /// than half sort before or with (`None` when nothing was recorded).
    pub fn median_value(&self) -> (r: Option<T>)
        ensures
            Self::keys_lawful() && lawful_order::<T>() ==> exists|entries: Seq<(T, usize)>|
                cloned_entries(entries, self.counts()) && #[trigger] median_result(
                    entries,
                    self.total(),
                    r,
                ),
    {
        let entries = hash_entries(&self.occurences);
        let r = median_entry(&entries, self.total_count);
        proof {
            if Self::keys_lawful() && lawful_order::<T>() {
                assert(cloned_entries(entries@, self.counts()) && median_result(
                    entries@,
                    self.total(),
                    r,
                ));
            }
        }
        r
    }

    /// Clears the histogram.
    pub fn clear(&mut self)
        ensures
            final(self).wf(),
            final(self).counts() == Map::<T, usize>::empty(),
            final(self).total() == 0,
            final(self).top() is None,
            final(self).top_val() is None,
    {
        proof {
            Self::lemma_no_samples();
        }
        self.occurences.clear();
        self.total_count = 0;
        self.top_occurence = None;
        self.top_value = None;
    }
}

impl<T: Hash + Eq + Clone + Ord> Default for Histogram<T> {
    fn default() -> (r: Self)
        ensures
            r.wf(),
            r.counts() == Map::<T, usize>::empty(),
            r.total() == 0,
            r.top() is None,
            r.top_val() is None,
    {
        Self::new()
    }
}

} // verus!
