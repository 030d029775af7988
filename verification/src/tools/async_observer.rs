//! Asynchronous observer: stores the events it is informed of until they are
//! popped, in a pluggable store (unbounded FIFO queue, bounded FIFO vector or
//! ring, or priority queue), and counts the events a bounded store dropped.

use crate::tools::order::{lawful_order, lemma_order, less_than, order_lt};
use std::collections::VecDeque;
use crate::tools::sync_queue::SyncQueue;
use crate::tools::sync_ring_vector::SyncRingVector;
use vstd::prelude::*;
use vstd::utf8::encode_utf8;

verus! {

/// Type alias for an event entry: (topic, event, origin).
pub type EventEntry<Topic, Evt> = (Topic, Evt, String);

/// Decides the delivery order of a priority-ordered store.
pub trait EntryOrder<E>: Send + Sync {
    /// The order answers as `before` says (for the entry priority: the
    /// topic and event `Ord` implementations are lawful).
    spec fn is_lawful(&self) -> bool;

    /// Whether `a` is delivered before `b`.
    spec fn before(&self, a: E, b: E) -> bool;

    /// Whether `a` is delivered before `b`.
    fn less(&self, a: &E, b: &E) -> (r: bool)
        ensures
            self.is_lawful() ==> r == self.before(*a, *b),
    ;
}

/// `a` sorts strictly before `b` byte by byte: at the first byte where they
/// differ `a` has the smaller one, or `a` is a proper prefix of `b`.
pub open spec fn bytes_lt(a: Seq<u8>, b: Seq<u8>) -> bool
    decreases a.len(),
{
    if a.len() == 0 {
        b.len() > 0
    } else if b.len() == 0 {
        false
    } else if a[0] < b[0] {
        true
    } else if a[0] > b[0] {
        false
    } else {
        bytes_lt(a.drop_first(), b.drop_first())
    }
}

/// The byte order is asymmetric and transitive.
pub proof fn lemma_bytes_lt_strict(a: Seq<u8>, b: Seq<u8>, c: Seq<u8>)
    ensures
        bytes_lt(a, b) ==> !bytes_lt(b, a),
        bytes_lt(a, b) && bytes_lt(b, c) ==> bytes_lt(a, c),
    decreases a.len(),
{
    if a.len() > 0 && b.len() > 0 {
        let c_rest = if c.len() > 0 {
            c.drop_first()
        } else {
            c
        };
        lemma_bytes_lt_strict(a.drop_first(), b.drop_first(), c_rest);
    }
}

/// Whether `a` sorts strictly before `b` byte by byte.
pub fn bytes_less(a: &[u8], b: &[u8]) -> (r: bool)
    ensures
        r == bytes_lt(a@, b@),
{
    let mut i: usize = 0;
    proof {
        assert(a@.skip(0) =~= a@);
        assert(b@.skip(0) =~= b@);
    }
    while i < a.len() && i < b.len()
        invariant
            i <= a@.len(),
            i <= b@.len(),
            bytes_lt(a@, b@) == bytes_lt(a@.skip(i as int), b@.skip(i as int)),
        decreases a@.len() - i,
    {
        if a[i] != b[i] {
            return a[i] < b[i];
        }
        proof {
            assert(a@.skip(i as int).drop_first() =~= a@.skip(i + 1));
            assert(b@.skip(i as int).drop_first() =~= b@.skip(i + 1));
        }
        i = i + 1;
    }
    i < b.len()
}

/// Priority of an event entry: the order of (topic, event, origin) tuples,
/// comparing topics, then events, by their `Ord`, then origins byte by byte
/// (as `String` orders them).
pub open spec fn entry_before<Topic: Ord, Evt: Ord>(
    a: EventEntry<Topic, Evt>,
    b: EventEntry<Topic, Evt>,
) -> bool {
    if order_lt(a.0, b.0) {
        true
    } else if order_lt(b.0, a.0) {
        false
    } else if order_lt(a.1, b.1) {
        true
    } else if order_lt(b.1, a.1) {
        false
    } else {
        bytes_lt(encode_utf8(a.2@), encode_utf8(b.2@))
    }
}

/// With lawful topic and event orders, the entry priority is asymmetric and
/// transitive.
pub proof fn lemma_entry_before_strict<Topic: Ord, Evt: Ord>(
    a: EventEntry<Topic, Evt>,
    b: EventEntry<Topic, Evt>,
    c: EventEntry<Topic, Evt>,
)
    requires
        lawful_order::<Topic>(),
        lawful_order::<Evt>(),
    ensures
        entry_before(a, b) ==> !entry_before(b, a),
        entry_before(a, b) && entry_before(b, c) ==> entry_before(a, c),
{
    lemma_order(a.0, b.0, c.0);
    lemma_order(a.0, c.0, b.0);
    lemma_order(b.0, a.0, c.0);
    lemma_order(b.0, c.0, a.0);
    lemma_order(c.0, a.0, b.0);
    lemma_order(c.0, b.0, a.0);
    lemma_order(a.1, b.1, c.1);
    lemma_order(a.1, c.1, b.1);
    lemma_order(b.1, a.1, c.1);
    lemma_order(b.1, c.1, a.1);
    lemma_order(c.1, a.1, b.1);
    lemma_order(c.1, b.1, a.1);
    lemma_bytes_lt_strict(encode_utf8(a.2@), encode_utf8(b.2@), encode_utf8(c.2@));
}

/// Delivers entries lowest first by their priority (`entry_before`).
pub struct EntryPriority;

impl<Topic: Ord, Evt: Ord> EntryOrder<EventEntry<Topic, Evt>> for EntryPriority {
    open spec fn is_lawful(&self) -> bool {
        lawful_order::<Topic>() && lawful_order::<Evt>()
    }

    open spec fn before(&self, a: EventEntry<Topic, Evt>, b: EventEntry<Topic, Evt>) -> bool {
        entry_before(a, b)
    }

    fn less(&self, a: &EventEntry<Topic, Evt>, b: &EventEntry<Topic, Evt>) -> (r: bool) {
        if less_than(&a.0, &b.0) {
            true
        } else if less_than(&b.0, &a.0) {
            false
        } else if less_than(&a.1, &b.1) {
            true
        } else if less_than(&b.1, &a.1) {
            false
        } else {
            bytes_less(a.2.as_str().as_bytes(), b.2.as_str().as_bytes())
        }
    }
}

/// Pluggable event storage of an observer.
#[verifier::reject_recursive_types(E)]
enum EventStore<E> {
    /// Unbounded FIFO queue: never rejects an entry.
    Unbounded(SyncQueue<E>),
    /// Bounded FIFO vector: rejects entries once full.
    Bounded(SyncRingVector<E>),
    /// Priority-ordered store: entries kept in delivery order, a new entry
    /// placed after those the order does not deliver after it.
    Prioritized(VecDeque<E>, Box<dyn EntryOrder<E>>),
}

impl<E> EventStore<E> {
    /// The stored entries, in the order they are popped.
    spec fn items(&self) -> Seq<E> {
        match *self {
            EventStore::Unbounded(q) => q@,
            EventStore::Bounded(v) => v@,
            EventStore::Prioritized(q, _) => q@,
        }
    }

    /// The store delivers `a` before `b` (never, for a FIFO store).
    spec fn delivers_before(&self, a: E, b: E) -> bool {
        match *self {
            EventStore::Prioritized(_, o) => o.before(a, b),
            _ => false,
        }
    }

    /// The delivery order answers as `before` says and is a strict order:
    /// asymmetric and transitive (always, for a FIFO store).
    spec fn order_lawful(&self) -> bool {
        match *self {
            EventStore::Prioritized(_, o) => {
                &&& o.is_lawful()
                &&& forall|a: E, b: E| #[trigger] o.before(a, b) ==> !o.before(b, a)
                &&& forall|a: E, b: E, c: E|
                    #[trigger] o.before(a, b) && #[trigger] o.before(b, c) ==> o.before(a, c)
            },
            _ => true,
        }
    }

    /// No stored entry is delivered before one ahead of it.
    spec fn in_delivery_order(&self) -> bool {
        forall|i: int, j: int|
            0 <= i < j < self.items().len() ==> !self.delivers_before(
                #[trigger] self.items()[j],
                #[trigger] self.items()[i],
            )
    }

    /// Inserts `entry` into a priority-ordered store, behind every entry it
    /// is not delivered before and ahead of the first one it is delivered
    /// before; returns the index.
    fn insert_in_order(&mut self, entry: E) -> (k: usize)
        requires
            *old(self) is Prioritized,
            old(self).order_lawful() ==> old(self).in_delivery_order(),
        ensures
            *final(self) is Prioritized,
            final(self).order_lawful() == old(self).order_lawful(),
            forall|a: E, b: E| #[trigger] final(self).delivers_before(a, b) == old(self).delivers_before(a, b),
            k <= old(self).items().len(),
            final(self).items() == old(self).items().insert(k as int, entry),
            old(self).order_lawful() ==> {
                &&& forall|i: int| 0 <= i < k ==> !old(self).delivers_before(entry, #[trigger] old(self).items()[i])
                &&& k < old(self).items().len() ==> old(self).delivers_before(entry, old(self).items()[k as int])
            },
            final(self).order_lawful() ==> final(self).in_delivery_order(),
    {
        let ghost pre = *self;
        match self {
            EventStore::Prioritized(q, order) => {
                let n = q.len();
                let mut k: usize = 0;
                let mut found = false;
                while !found && k < n
                    invariant
                        n == q@.len(),
                        q@ == pre.items(),
                        k <= n,
                        order.is_lawful() ==> forall|i: int| 0 <= i < k ==> !order.before(entry, #[trigger] q@[i]),
                        found ==> k < n && (order.is_lawful() ==> order.before(entry, q@[k as int])),
                    decreases n - k + (if found {
                        0int
                    } else {
                        1int
                    }),
                {
                    if order.less(&entry, &q[k]) {
                        found = true;
                    } else {
                        k = k + 1;
                    }
                }
                let ghost s = q@;
                q.insert(k, entry);
                proof {
                    if pre.order_lawful() {
                        let t = s.insert(k as int, entry);
                        assert forall|i: int, j: int| 0 <= i < j < t.len() implies !order.before(
                            #[trigger] t[j],
                            #[trigger] t[i],
                        ) by {
                            if j < k {
                                assert(t[i] == s[i] && t[j] == s[j]);
                            } else if j == k {
                                assert(t[i] == s[i]);
                            } else if i < k {
                                assert(t[i] == s[i] && t[j] == s[j - 1]);
                            } else if i == k {
                                assert(t[j] == s[j - 1]);
                                if j - 1 > k && order.before(s[j - 1], entry) {
                                    assert(!order.before(s[j - 1], s[k as int]));
                                }
                            } else {
                                assert(t[i] == s[i - 1] && t[j] == s[j - 1]);
                            }
                        }
                    }
                }
                k
            },
            _ => {
                proof {
                    assert(false);
                }
                0
            },
        }
    }
}

/// `entry` records the topic, event and origin it was made from.
pub open spec fn records<Topic: Clone, Evt: Clone>(
    entry: EventEntry<Topic, Evt>,
    topic: Topic,
    event: Evt,
    origin: Seq<char>,
) -> bool {
    &&& cloned(topic, entry.0)
    &&& cloned(event, entry.1)
    &&& entry.2@ == origin
}

/// The counter after one more dropped event (it wraps around at `usize::MAX`).
pub open spec fn next_count(count: nat) -> nat {
    if count == usize::MAX {
        0
    } else {
        count + 1
    }
}

/// Observer that queues the events it is informed of until they are popped.
/// Bounded observers count the events they dropped. The methods that change
/// the observer take `&mut self`: callers that share it between threads hold
/// it behind a lock of their choice.
#[verifier::reject_recursive_types(Topic)]
#[verifier::reject_recursive_types(Evt)]
pub struct AsyncObserver<Topic, Evt> {
    event_queue: EventStore<EventEntry<Topic, Evt>>,
    overflow_count: usize,
}

impl<Topic, Evt> AsyncObserver<Topic, Evt> {
    /// The queued events, in the order they are popped.
    pub closed spec fn events(&self) -> Seq<EventEntry<Topic, Evt>> {
        self.event_queue.items()
    }

    /// Number of events dropped since the counter was last consumed.
    pub closed spec fn overflow(&self) -> nat {
        self.overflow_count as nat
    }

    /// Most events the store keeps at once (`None`: unbounded).
    pub closed spec fn limit(&self) -> Option<nat> {
        match &self.event_queue {
            EventStore::Bounded(v) => Some(v.max_items()),
            _ => None,
        }
    }

    /// Events are popped in arrival order.
    pub closed spec fn is_fifo(&self) -> bool {
        !(self.event_queue is Prioritized)
    }

    /// The store delivers `a` before `b` (never, for a FIFO store).
    pub closed spec fn delivers_before(&self, a: EventEntry<Topic, Evt>, b: EventEntry<Topic, Evt>) -> bool {
        self.event_queue.delivers_before(a, b)
    }

    /// The store's delivery order is a lawful strict order (always, for a
    /// FIFO store).
    pub closed spec fn order_lawful(&self) -> bool {
        self.event_queue.order_lawful()
    }

    /// `self` has the same capacity limit and delivery order as `other`.
    pub open spec fn keeps_policy_of(&self, other: &Self) -> bool {
        &&& self.limit() == other.limit()
        &&& self.is_fifo() == other.is_fifo()
        &&& self.order_lawful() == other.order_lawful()
        &&& forall|a: EventEntry<Topic, Evt>, b: EventEntry<Topic, Evt>|
            #[trigger] self.delivers_before(a, b) == other.delivers_before(a, b)
    }

    /// `k` is where a new `entry` is stored: behind every queued event it is
    /// not delivered before, ahead of the first one it is delivered before
    /// (at the back, for a FIFO store).
    pub open spec fn is_slot_for(&self, entry: EventEntry<Topic, Evt>, k: int) -> bool {
        &&& 0 <= k <= self.events().len()
        &&& self.order_lawful() ==> {
            &&& forall|i: int| 0 <= i < k ==> !self.delivers_before(entry, #[trigger] self.events()[i])
            &&& k < self.events().len() ==> self.delivers_before(entry, self.events()[k])
        }
        &&& self.is_fifo() ==> k == self.events().len()
    }

    /// The store's internal invariant holds.
    pub closed spec fn wf(&self) -> bool {
        match self.event_queue {
            EventStore::Unbounded(q) => true,
            EventStore::Bounded(v) => v.wf(),
            EventStore::Prioritized(q, o) => self.event_queue.order_lawful()
                ==> self.event_queue.in_delivery_order(),
        }
    }

    /// The store has room for one more event.
    pub open spec fn has_room(&self) -> bool {
        match self.limit() {
            None => true,
            Some(n) => self.events().len() < n,
        }
    }

    /// With a lawful order, no queued event is delivered before one ahead of
    /// it: events come out in delivery order.
    pub proof fn lemma_delivery_order(&self)
        requires
            self.wf(),
            self.order_lawful(),
        ensures
            forall|i: int, j: int|
                0 <= i < j < self.events().len() ==> !self.delivers_before(
                    #[trigger] self.events()[j],
                    #[trigger] self.events()[i],
                ),
    {
    }

    /// An unbounded observer always has room: every event it is informed of
    /// is stored, and its overflow count never grows.
    pub proof fn law_unbounded_store_always_has_room(&self)
        requires
            self.limit() is None,
        ensures
            self.has_room(),
    {
    }

    /// A bounded observer never holds more events than its limit.
    pub proof fn lemma_limit_respected(&self)
        requires
            self.wf(),
        ensures
            self.limit() matches Some(n) ==> self.events().len() <= n,
    {
        match &self.event_queue {
            EventStore::Bounded(v) => v.lemma_size_bounded(),
            _ => {},
        }
    }

    /// Removes and returns the first event (in pop order), if any.
    fn dequeue(&mut self) -> (r: Option<EventEntry<Topic, Evt>>)
        requires
            old(self).wf(),
        ensures
            final(self).wf(),
            final(self).overflow() == old(self).overflow(),
            final(self).keeps_policy_of(old(self)),
            r == (if old(self).events().len() == 0 {
                None
            } else {
                Some(old(self).events()[0])
            }),
            final(self).events() == (if old(self).events().len() == 0 {
                old(self).events()
            } else {
                old(self).events().drop_first()
            }),
    {
        match &mut self.event_queue {
            EventStore::Unbounded(q) => q.dequeue(),
            EventStore::Bounded(v) => v.pop_front(),
            EventStore::Prioritized(q, _) => {
                let r = q.pop_front();
                proof {
                    if old(self).events().len() > 0 {
                        assert(q@ =~= old(self).events().drop_first());
                    }
                }
                r
            },
        }
    }

    /// Pops all events, in pop order.
    pub fn pop_all_events(&mut self) -> (r: Vec<EventEntry<Topic, Evt>>)
        requires
            old(self).wf(),
        ensures
            final(self).wf(),
            final(self).overflow() == old(self).overflow(),
            final(self).keeps_policy_of(old(self)),
            r@ == old(self).events(),
            final(self).events() == Seq::<EventEntry<Topic, Evt>>::empty(),
    {
        let mut events: Vec<EventEntry<Topic, Evt>> = Vec::new();
        loop
            invariant
                self.wf(),
                self.overflow() == old(self).overflow(),
                self.keeps_policy_of(old(self)),
                events@ + self.events() == old(self).events(),
            decreases self.events().len(),
        {
            let ghost before = self.events();
            match self.dequeue() {
                Some(event) => {
                    events.push(event);
                    assert(events@ + self.events() =~= old(self).events()) by {
                        assert(before =~= seq![event] + before.drop_first());
                    }
                },
                None => {
                    assert(events@ =~= old(self).events());
                    return events;
                },
            }
        }
    }

    /// Pops the first event (in pop order).
    pub fn pop_first_event(&mut self) -> (r: Option<EventEntry<Topic, Evt>>)
        requires
            old(self).wf(),
        ensures
            final(self).wf(),
            final(self).overflow() == old(self).overflow(),
            final(self).keeps_policy_of(old(self)),
            r == (if old(self).events().len() == 0 {
                None
            } else {
                Some(old(self).events()[0])
            }),
            final(self).events() == (if old(self).events().len() == 0 {
                old(self).events()
            } else {
                old(self).events().drop_first()
            }),
    {
        self.dequeue()
    }

    /// Pops every event and returns the last one (in pop order).
    pub fn pop_last_event(&mut self) -> (r: Option<EventEntry<Topic, Evt>>)
        requires
            old(self).wf(),
        ensures
            final(self).wf(),
            final(self).overflow() == old(self).overflow(),
            final(self).keeps_policy_of(old(self)),
            r == (if old(self).events().len() == 0 {
                None
            } else {
                Some(old(self).events().last())
            }),
            final(self).events() == Seq::<EventEntry<Topic, Evt>>::empty(),
    {
        let mut last_event: Option<EventEntry<Topic, Evt>> = None;
        let ghost popped: Seq<EventEntry<Topic, Evt>> = Seq::empty();
        loop
            invariant
                self.wf(),
                self.overflow() == old(self).overflow(),
                self.keeps_policy_of(old(self)),
                popped + self.events() == old(self).events(),
                last_event == (if popped.len() == 0 {
                    None
                } else {
                    Some(popped.last())
                }),
            decreases self.events().len(),
        {
            let ghost before = self.events();
            match self.dequeue() {
                Some(event) => {
                    proof {
                        assert(before =~= seq![event] + before.drop_first());
                        assert(popped.push(event) + self.events() =~= old(self).events());
                        popped = popped.push(event);
                    }
                    last_event = Some(event);
                },
                None => {
                    assert(popped =~= old(self).events());
                    return last_event;
                },
            }
        }
    }

    /// Checks if there are events in the event queue.
    pub fn has_events(&self) -> (r: bool)
        ensures
            r == (self.events().len() > 0),
    {
        !self.is_store_empty()
    }

    fn is_store_empty(&self) -> (r: bool)
        ensures
            r == (self.events().len() == 0),
    {
        match &self.event_queue {
            EventStore::Unbounded(q) => q.is_empty(),
            EventStore::Bounded(v) => v.is_empty(),
            EventStore::Prioritized(q, _) => q.len() == 0,
        }
    }

    /// Returns the number of events in the event queue.
    pub fn number_of_events(&self) -> (r: usize)
        ensures
            r == self.events().len(),
    {
        match &self.event_queue {
            EventStore::Unbounded(q) => q.size(),
            EventStore::Bounded(v) => v.size(),
            EventStore::Prioritized(q, _) => q.len(),
        }
    }

    /// Returns true if at least one event was dropped due to queue overflow.
    pub fn has_queue_overflow(&self) -> (r: bool)
        ensures
            r == (self.overflow() != 0),
    {
        self.overflow_count != 0
    }

    /// Returns the number of events dropped due to queue overflow so far.
    pub fn queue_overflow_count(&self) -> (r: usize)
        ensures
            r == self.overflow(),
    {
        self.overflow_count
    }

    /// Returns the number of dropped events and resets the overflow counter to zero.
    pub fn consume_queue_overflow_count(&mut self) -> (r: usize)
        ensures
            r == old(self).overflow(),
            final(self).overflow() == 0,
            final(self).events() == old(self).events(),
            final(self).wf() == old(self).wf(),
            final(self).keeps_policy_of(old(self)),
    {
        let count = self.overflow_count;
        self.overflow_count = 0;
        count
    }

    /// Stores one entry. Returns false when the store rejected it (full).
    fn store(&mut self, entry: EventEntry<Topic, Evt>) -> (r: bool)
        requires
            old(self).wf(),
        ensures
            final(self).wf(),
            final(self).overflow() == old(self).overflow(),
            final(self).keeps_policy_of(old(self)),
            r == old(self).has_room(),
            r ==> exists|k: int|
                old(self).is_slot_for(entry, k) && final(self).events() == #[trigger] old(
                    self,
                ).events().insert(k, entry),
            !r ==> final(self).events() == old(self).events(),
    {
        let ghost before = self.events();
        let r = match &mut self.event_queue {
            EventStore::Unbounded(q) => {
                q.enqueue(entry);
                true
            },
            EventStore::Bounded(v) => v.push(entry),
            EventStore::Prioritized(..) => {
                self.event_queue.insert_in_order(entry);
                true
            },
        };
        proof {
            if r && self.is_fifo() {
                assert(before.insert(before.len() as int, entry) =~= before.push(entry));
                assert(self.events() == before.insert(before.len() as int, entry));
            }
        }
        r
    }
}

impl<Topic: Clone, Evt: Clone> AsyncObserver<Topic, Evt> {
    /// Informs the observer of an event: the (topic, event, origin) entry is
    /// stored, or counted as dropped when a bounded store is full.
    pub fn inform(&mut self, topic: &Topic, event: &Evt, origin: &str)
        requires
            old(self).wf(),
        ensures
            final(self).wf(),
            final(self).keeps_policy_of(old(self)),
            old(self).has_room() ==> {
                &&& final(self).overflow() == old(self).overflow()
                &&& exists|k: int|
                    old(self).is_slot_for(final(self).events()[k], k) && final(self).events()
                        == #[trigger] old(self).events().insert(k, final(self).events()[k])
                        && records(final(self).events()[k], *topic, *event, origin@)
            },
            !old(self).has_room() ==> {
                &&& final(self).events() == old(self).events()
                &&& final(self).overflow() == next_count(old(self).overflow())
            },
    {
        let record = (topic.clone(), event.clone(), origin.to_string());
        let ghost entry = record;
        if self.store(record) {
            proof {
                let k = choose|k: int|
                    old(self).is_slot_for(entry, k) && self.events() == #[trigger] old(
                        self,
                    ).events().insert(k, entry);
                assert(self.events()[k] == entry);
            }
        } else {
            if self.overflow_count == usize::MAX {
                self.overflow_count = 0;
            } else {
                self.overflow_count = self.overflow_count + 1;
            }
        }
    }
}

impl<Topic: 'static, Evt: 'static> AsyncObserver<Topic, Evt> {
    /// Creates a new AsyncObserver backed by an unbounded `SyncQueue`.
    pub fn new() -> (r: Self)
        ensures
            r.wf(),
            r.events() == Seq::<EventEntry<Topic, Evt>>::empty(),
            r.overflow() == 0,
            r.limit() is None,
            r.is_fifo(),
    {
        AsyncObserver { event_queue: EventStore::Unbounded(SyncQueue::new()), overflow_count: 0 }
    }

    /// Creates a new AsyncObserver backed by a bounded `SyncRingVector`. Once
    /// the vector reaches `queue_capacity`, further events are dropped and
    /// counted as overflow.
    pub fn with_capacity(queue_capacity: usize) -> (r: Self)
        ensures
            r.wf(),
            r.events() == Seq::<EventEntry<Topic, Evt>>::empty(),
            r.overflow() == 0,
            r.limit() == Some(queue_capacity as nat),
            r.is_fifo(),
    {
        AsyncObserver {
            event_queue: EventStore::Bounded(SyncRingVector::new(queue_capacity)),
            overflow_count: 0,
        }
    }

    /// Creates a new AsyncObserver backed by a fixed-capacity ring of
    /// `CAPACITY` slots. Once it holds `CAPACITY` events, further events are
    /// dropped and counted as overflow.
    pub fn with_ring_buffer_capacity<const CAPACITY: usize>() -> (r: Self)
        ensures
            r.wf(),
            r.events() == Seq::<EventEntry<Topic, Evt>>::empty(),
            r.overflow() == 0,
            r.limit() == Some(CAPACITY as nat),
            r.is_fifo(),
    {
        AsyncObserver {
            event_queue: EventStore::Bounded(SyncRingVector::new(CAPACITY)),
            overflow_count: 0,
        }
    }
}

impl<Topic: Ord + 'static, Evt: Ord + 'static> AsyncObserver<Topic, Evt> {
    /// Creates a new AsyncObserver backed by a priority queue, delivering
    /// events in priority order (lowest first, by the order of the
    /// (topic, event, origin) entry) instead of FIFO order.
    pub fn with_priority() -> (r: Self)
        ensures
            r.wf(),
            r.events() == Seq::<EventEntry<Topic, Evt>>::empty(),
            r.overflow() == 0,
            r.limit() is None,
            !r.is_fifo(),
            lawful_order::<Topic>() && lawful_order::<Evt>() ==> r.order_lawful(),
            forall|a: EventEntry<Topic, Evt>, b: EventEntry<Topic, Evt>|
                #[trigger] r.delivers_before(a, b) == entry_before(a, b),
    {
        let r = AsyncObserver {
            event_queue: EventStore::Prioritized(VecDeque::new(), Box::new(EntryPriority)),
            overflow_count: 0,
        };
        proof {
            if lawful_order::<Topic>() && lawful_order::<Evt>() {
                assert forall|a: EventEntry<Topic, Evt>, b: EventEntry<Topic, Evt>, c: EventEntry<Topic, Evt>|
                    entry_before(a, b) && entry_before(b, c) implies entry_before(a, c) by {
                    lemma_entry_before_strict(a, b, c);
                }
                assert forall|a: EventEntry<Topic, Evt>, b: EventEntry<Topic, Evt>|
                    entry_before(a, b) implies !entry_before(b, a) by {
                    lemma_entry_before_strict(a, b, a);
                }
            }
        }
        r
    }
}

impl<Topic: 'static, Evt: 'static> Default for AsyncObserver<Topic, Evt> {
    fn default() -> (r: Self)
        ensures
            r.wf(),
            r.events() == Seq::<EventEntry<Topic, Evt>>::empty(),
            r.overflow() == 0,
            r.limit() is None,
            r.is_fifo(),
    {
        Self::new()
    }
}

} // verus!
