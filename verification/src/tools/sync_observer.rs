//! Subscription bookkeeping of an observable subject: which observers and
//! which named handlers each topic reaches, in subscription order. The
//! observers and handlers are held as opaque values; the subject that owns
//! this table calls them when it publishes.

use std::vec::Vec;
use vstd::prelude::*;
use vstd::std_specs::cmp::PartialEqSpec;

verus! {

/// The observers of `subs` subscribed to `topic`, in subscription order.
pub open spec fn observers_for<Topic: PartialEq, O>(subs: Seq<(Topic, u64, O)>, topic: Topic) -> Seq<O>
    decreases subs.len(),
{
    if subs.len() == 0 {
        Seq::empty()
    } else {
        let front = observers_for(subs.drop_last(), topic);
        if subs.last().0.eq_spec(&topic) {
            front.push(subs.last().2)
        } else {
            front
        }
    }
}

/// `subs` without the subscriptions of observer `id` to `topic`, the others
/// kept in order.
pub open spec fn without_observer<Topic: PartialEq, O>(
    subs: Seq<(Topic, u64, O)>,
    topic: Topic,
    id: u64,
) -> Seq<(Topic, u64, O)>
    decreases subs.len(),
{
    if subs.len() == 0 {
        subs
    } else {
        let front = without_observer(subs.drop_last(), topic, id);
        if subs.last().0.eq_spec(&topic) && subs.last().1 == id {
            front
        } else {
            front.push(subs.last())
        }
    }
}

/// The handlers of `subs` subscribed to `topic`, in subscription order.
pub open spec fn handlers_for<Topic: PartialEq, H>(subs: Seq<(Topic, String, H)>, topic: Topic) -> Seq<H>
    decreases subs.len(),
{
    if subs.len() == 0 {
        Seq::empty()
    } else {
        let front = handlers_for(subs.drop_last(), topic);
        if subs.last().0.eq_spec(&topic) {
            front.push(subs.last().2)
        } else {
            front
        }
    }
}

/// `subs` without the handlers named `name` subscribed to `topic`, the
/// others kept in order.
pub open spec fn without_handler<Topic: PartialEq, H>(
    subs: Seq<(Topic, String, H)>,
    topic: Topic,
    name: Seq<char>,
) -> Seq<(Topic, String, H)>
    decreases subs.len(),
{
    if subs.len() == 0 {
        subs
    } else {
        let front = without_handler(subs.drop_last(), topic, name);
        if subs.last().0.eq_spec(&topic) && subs.last().1@ == name {
            front
        } else {
            front.push(subs.last())
        }
    }
}

/// After observer `id` is unsubscribed from `topic`, none of its
/// subscriptions to `topic` remains.
pub proof fn law_unsubscribed_observer_is_gone<Topic: PartialEq, O>(
    subs: Seq<(Topic, u64, O)>,
    topic: Topic,
    id: u64,
)
    ensures
        forall|i: int|
            0 <= i < without_observer(subs, topic, id).len() ==> !(
            #[trigger] without_observer(subs, topic, id)[i]).0.eq_spec(&topic)
                || without_observer(subs, topic, id)[i].1 != id,
    decreases subs.len(),
{
    if subs.len() > 0 {
        law_unsubscribed_observer_is_gone(subs.drop_last(), topic, id);
        let front = without_observer(subs.drop_last(), topic, id);
        let r = without_observer(subs, topic, id);
        assert forall|i: int| 0 <= i < r.len() implies !(#[trigger] r[i]).0.eq_spec(&topic)
            || r[i].1 != id by {
            if i < front.len() {
                assert(r[i] == front[i]);
            }
        }
    }
}

/// After the handlers named `name` are unsubscribed from `topic`, none of
/// them remains subscribed to `topic`.
pub proof fn law_unsubscribed_handler_is_gone<Topic: PartialEq, H>(
    subs: Seq<(Topic, String, H)>,
    topic: Topic,
    name: Seq<char>,
)
    ensures
        forall|i: int|
            0 <= i < without_handler(subs, topic, name).len() ==> !(
            #[trigger] without_handler(subs, topic, name)[i]).0.eq_spec(&topic)
                || without_handler(subs, topic, name)[i].1@ != name,
    decreases subs.len(),
{
    if subs.len() > 0 {
        law_unsubscribed_handler_is_gone(subs.drop_last(), topic, name);
        let front = without_handler(subs.drop_last(), topic, name);
        let r = without_handler(subs, topic, name);
        assert forall|i: int| 0 <= i < r.len() implies !(#[trigger] r[i]).0.eq_spec(&topic)
            || r[i].1@ != name by {
            if i < front.len() {
                assert(r[i] == front[i]);
            }
        }
    }
}

/// A new subscription to a topic is reached last by a publication on that
/// topic, after the observers subscribed before it.
pub proof fn law_new_observer_is_reached_last<Topic: PartialEq, O>(
    subs: Seq<(Topic, u64, O)>,
    topic: Topic,
    id: u64,
    observer: O,
)
    requires
        topic.eq_spec(&topic),
    ensures
        observers_for(subs.push((topic, id, observer)), topic) == observers_for(subs, topic).push(
            observer,
        ),
{
    assert(subs.push((topic, id, observer)).drop_last() =~= subs);
}

/// A publication on `topic` reaches exactly the handlers subscribed under a
/// topic equal to it, in subscription order: none without subscriptions, a
/// new subscription under another topic is not reached, and one under an
/// equal topic is reached last.
pub proof fn law_handlers_reached_by_topic<Topic: PartialEq, H>(
    subs: Seq<(Topic, String, H)>,
    topic: Topic,
    other: Topic,
    name: String,
    handler: H,
)
    ensures
        handlers_for(Seq::<(Topic, String, H)>::empty(), topic) == Seq::<H>::empty(),
        !other.eq_spec(&topic) ==> handlers_for(subs.push((other, name, handler)), topic)
            == handlers_for(subs, topic),
        other.eq_spec(&topic) ==> handlers_for(subs.push((other, name, handler)), topic)
            == handlers_for(subs, topic).push(handler),
{
    assert(subs.push((other, name, handler)).drop_last() =~= subs);
}

/// A publication on `topic` reaches exactly the observers subscribed under a
/// topic equal to it, in subscription order: none without subscriptions, a
/// new subscription under another topic is not reached, and one under an
/// equal topic is reached last.
pub proof fn law_observers_reached_by_topic<Topic: PartialEq, O>(
    subs: Seq<(Topic, u64, O)>,
    topic: Topic,
    other: Topic,
    id: u64,
    observer: O,
)
    ensures
        observers_for(Seq::<(Topic, u64, O)>::empty(), topic) == Seq::<O>::empty(),
        !other.eq_spec(&topic) ==> observers_for(subs.push((other, id, observer)), topic)
            == observers_for(subs, topic),
        other.eq_spec(&topic) ==> observers_for(subs.push((other, id, observer)), topic)
            == observers_for(subs, topic).push(observer),
{
    assert(subs.push((other, id, observer)).drop_last() =~= subs);
}

/// Some subscription of `subs` under a topic equal to `topic` holds `x`.
pub open spec fn subscribed_under<Topic: PartialEq, N, X>(subs: Seq<(Topic, N, X)>, topic: Topic, x: X) -> bool {
    exists|i: int| 0 <= i < subs.len() && subs[i].0.eq_spec(&topic) && subs[i].2 == x
}

/// Every handler a publication on `topic` reaches was subscribed under a
/// topic equal to it, and no more handlers are reached than subscribed.
pub proof fn law_reached_handler_was_subscribed<Topic: PartialEq, H>(
    subs: Seq<(Topic, String, H)>,
    topic: Topic,
)
    ensures
        handlers_for(subs, topic).len() <= subs.len(),
        forall|j: int|
            0 <= j < handlers_for(subs, topic).len() ==> subscribed_under(
                subs,
                topic,
                #[trigger] handlers_for(subs, topic)[j],
            ),
    decreases subs.len(),
{
    if subs.len() > 0 {
        let front = subs.drop_last();
        law_reached_handler_was_subscribed(front, topic);
        let r = handlers_for(subs, topic);
        assert forall|j: int| 0 <= j < r.len() implies subscribed_under(subs, topic, #[trigger] r[j]) by {
            if j < handlers_for(front, topic).len() {
                assert(subscribed_under(front, topic, handlers_for(front, topic)[j]));
                let i = choose|i: int|
                    0 <= i < front.len() && front[i].0.eq_spec(&topic) && front[i].2
                        == handlers_for(front, topic)[j];
                assert(subs[i] == front[i]);
            } else {
                assert(subs[subs.len() - 1] == subs.last());
            }
        }
    }
}

/// Every observer a publication on `topic` reaches was subscribed under a
/// topic equal to it, and no more observers are reached than subscribed.
pub proof fn law_reached_observer_was_subscribed<Topic: PartialEq, O>(
    subs: Seq<(Topic, u64, O)>,
    topic: Topic,
)
    ensures
        observers_for(subs, topic).len() <= subs.len(),
        forall|j: int|
            0 <= j < observers_for(subs, topic).len() ==> subscribed_under(
                subs,
                topic,
                #[trigger] observers_for(subs, topic)[j],
            ),
    decreases subs.len(),
{
    if subs.len() > 0 {
        let front = subs.drop_last();
        law_reached_observer_was_subscribed(front, topic);
        let r = observers_for(subs, topic);
        assert forall|j: int| 0 <= j < r.len() implies subscribed_under(subs, topic, #[trigger] r[j]) by {
            if j < observers_for(front, topic).len() {
                assert(subscribed_under(front, topic, observers_for(front, topic)[j]));
                let i = choose|i: int|
                    0 <= i < front.len() && front[i].0.eq_spec(&topic) && front[i].2
                        == observers_for(front, topic)[j];
                assert(subs[i] == front[i]);
            } else {
                assert(subs[subs.len() - 1] == subs.last());
            }
        }
    }
}

/// Unsubscribing the handlers named `name` from `topic` keeps every other
/// subscription: one under a topic not equal to `topic`, or with another
/// name.
pub proof fn law_unsubscribe_handler_keeps_others<Topic: PartialEq, H>(
    subs: Seq<(Topic, String, H)>,
    topic: Topic,
    name: Seq<char>,
)
    ensures
        forall|i: int|
            0 <= i < subs.len() && (!subs[i].0.eq_spec(&topic) || subs[i].1@ != name)
                ==> without_handler(subs, topic, name).contains(#[trigger] subs[i]),
    decreases subs.len(),
{
    if subs.len() > 0 {
        let front = subs.drop_last();
        law_unsubscribe_handler_keeps_others(front, topic, name);
        let r = without_handler(subs, topic, name);
        let f = without_handler(front, topic, name);
        assert forall|i: int|
            0 <= i < subs.len() && (!subs[i].0.eq_spec(&topic) || subs[i].1@ != name)
                implies r.contains(#[trigger] subs[i]) by {
            if i < front.len() {
                assert(subs[i] == front[i]);
                assert(f.contains(front[i]));
                let k = choose|k: int| 0 <= k < f.len() && f[k] == front[i];
                if r != f {
                    assert(r[k] == f[k]);
                }
            } else {
                assert(r[r.len() - 1] == subs.last());
            }
        }
    }
}

/// Unsubscribing observer `id` from `topic` keeps every other subscription:
/// one under a topic not equal to `topic`, or of another observer.
pub proof fn law_unsubscribe_keeps_others<Topic: PartialEq, O>(
    subs: Seq<(Topic, u64, O)>,
    topic: Topic,
    id: u64,
)
    ensures
        forall|i: int|
            0 <= i < subs.len() && (!subs[i].0.eq_spec(&topic) || subs[i].1 != id)
                ==> without_observer(subs, topic, id).contains(#[trigger] subs[i]),
    decreases subs.len(),
{
    if subs.len() > 0 {
        let front = subs.drop_last();
        law_unsubscribe_keeps_others(front, topic, id);
        let r = without_observer(subs, topic, id);
        let f = without_observer(front, topic, id);
        assert forall|i: int|
            0 <= i < subs.len() && (!subs[i].0.eq_spec(&topic) || subs[i].1 != id)
                implies r.contains(#[trigger] subs[i]) by {
            if i < front.len() {
                assert(subs[i] == front[i]);
                assert(f.contains(front[i]));
                let k = choose|k: int| 0 <= k < f.len() && f[k] == front[i];
                if r != f {
                    assert(r[k] == f[k]);
                }
            } else {
                assert(r[r.len() - 1] == subs.last());
            }
        }
    }
}

/// Subscriptions of a subject: observers (with the id by which they are
/// unsubscribed) and named handlers, each under a topic, in subscription
/// order. Topics are told apart by their `PartialEq`; what the table says
/// of them holds when that `PartialEq` follows its specification
/// (`obeys_eq_spec`).
pub struct SubjectRegistry<Topic, O, H> {
    observers: Vec<(Topic, u64, O)>,
    handlers: Vec<(Topic, String, H)>,
}

impl<Topic: PartialEq, O, H> SubjectRegistry<Topic, O, H> {
    /// The observer subscriptions, in subscription order.
    pub closed spec fn observer_subs(&self) -> Seq<(Topic, u64, O)> {
        self.observers@
    }

    /// The handler subscriptions, in subscription order.
    pub closed spec fn handler_subs(&self) -> Seq<(Topic, String, H)> {
        self.handlers@
    }

    /// Creates a table with no subscription.
    pub fn new() -> (r: Self)
        ensures
            r.observer_subs() == Seq::<(Topic, u64, O)>::empty(),
            r.handler_subs() == Seq::<(Topic, String, H)>::empty(),
    {
        SubjectRegistry { observers: Vec::new(), handlers: Vec::new() }
    }

    /// Subscribes observer `observer`, known by `id`, to `topic`.
    pub fn subscribe(&mut self, topic: Topic, id: u64, observer: O)
        ensures
            final(self).observer_subs() == old(self).observer_subs().push((topic, id, observer)),
            final(self).handler_subs() == old(self).handler_subs(),
    {
        self.observers.push((topic, id, observer));
    }

    /// Unsubscribes every subscription of observer `id` to `topic`, keeping
    /// the other subscriptions in order.
    pub fn unsubscribe(&mut self, topic: &Topic, id: u64)
        ensures
            Topic::obeys_eq_spec() ==> final(self).observer_subs() == without_observer(
                old(self).observer_subs(),
                *topic,
                id,
            ),
            final(self).handler_subs() == old(self).handler_subs(),
    {
        let mut old_subs: Vec<(Topic, u64, O)> = Vec::new();
        std::mem::swap(&mut old_subs, &mut self.observers);
        let ghost s = old_subs@;
        proof {
            assert(s.take(0) =~= Seq::<(Topic, u64, O)>::empty());
        }
        for entry in it: old_subs
            invariant
                it.seq() == s,
                it.index() <= s.len(),
                self.handlers@ == old(self).handlers@,
                Topic::obeys_eq_spec() ==> self.observers@ == without_observer(
                    s.take(it.index()),
                    *topic,
                    id,
                ),
        {
            let ghost i = it.index();
            let matched = entry.0 == *topic && entry.1 == id;
            if !matched {
                self.observers.push(entry);
            }
            proof {
                assert(s.take(i + 1).drop_last() =~= s.take(i));
            }
        }
        proof {
            assert(s.take(s.len() as int) =~= s);
        }
    }

    /// Subscribes handler `handler`, named `name`, to `topic`.
    pub fn subscribe_handler(&mut self, topic: Topic, name: String, handler: H)
        ensures
            final(self).handler_subs() == old(self).handler_subs().push((topic, name, handler)),
            final(self).observer_subs() == old(self).observer_subs(),
    {
        self.handlers.push((topic, name, handler));
    }

    /// Unsubscribes every handler named `name` from `topic`, keeping the other
    /// subscriptions in order.
    pub fn unsubscribe_handler(&mut self, topic: &Topic, name: &String)
        ensures
            Topic::obeys_eq_spec() ==> final(self).handler_subs() == without_handler(
                old(self).handler_subs(),
                *topic,
                name@,
            ),
            final(self).observer_subs() == old(self).observer_subs(),
    {
        let mut old_subs: Vec<(Topic, String, H)> = Vec::new();
        std::mem::swap(&mut old_subs, &mut self.handlers);
        let ghost s = old_subs@;
        proof {
            assert(s.take(0) =~= Seq::<(Topic, String, H)>::empty());
        }
        for entry in it: old_subs
            invariant
                it.seq() == s,
                it.index() <= s.len(),
                self.observers@ == old(self).observers@,
                Topic::obeys_eq_spec() ==> self.handlers@ == without_handler(
                    s.take(it.index()),
                    *topic,
                    name@,
                ),
        {
            let ghost i = it.index();
            let matched = entry.0 == *topic && entry.1 == *name;
            if !matched {
                self.handlers.push(entry);
            }
            proof {
                assert(s.take(i + 1).drop_last() =~= s.take(i));
            }
        }
        proof {
            assert(s.take(s.len() as int) =~= s);
        }
    }

    /// The observers subscribed to `topic`, in subscription order.
    pub fn observers_of(&self, topic: &Topic) -> (r: Vec<&O>)
        ensures
            Topic::obeys_eq_spec() ==> r@.len() == observers_for(self.observer_subs(), *topic).len(),
            Topic::obeys_eq_spec() ==> forall|j: int|
                0 <= j < r@.len() ==> *r@[j] == observers_for(self.observer_subs(), *topic)[j],
    {
        let mut r: Vec<&O> = Vec::new();
        let n = self.observers.len();
        let mut i: usize = 0;
        while i < n
            invariant
                n == self.observers@.len(),
                i <= n,
                Topic::obeys_eq_spec() ==> r@.len() == observers_for(
                    self.observers@.take(i as int),
                    *topic,
                ).len(),
                Topic::obeys_eq_spec() ==> forall|j: int|
                    0 <= j < r@.len() ==> *r@[j] == observers_for(
                        self.observers@.take(i as int),
                        *topic,
                    )[j],
            decreases n - i,
        {
            let entry = &self.observers[i];
            proof {
                assert(self.observers@.take(i + 1).drop_last() =~= self.observers@.take(i as int));
            }
            if entry.0 == *topic {
                r.push(&entry.2);
            }
            i = i + 1;
        }
        proof {
            assert(self.observers@.take(n as int) =~= self.observers@);
        }
        r
    }

    /// The handlers subscribed to `topic`, in subscription order.
    pub fn handlers_of(&self, topic: &Topic) -> (r: Vec<&H>)
        ensures
            Topic::obeys_eq_spec() ==> r@.len() == handlers_for(self.handler_subs(), *topic).len(),
            Topic::obeys_eq_spec() ==> forall|j: int|
                0 <= j < r@.len() ==> *r@[j] == handlers_for(self.handler_subs(), *topic)[j],
    {
        let mut r: Vec<&H> = Vec::new();
        let n = self.handlers.len();
        let mut i: usize = 0;
        while i < n
            invariant
                n == self.handlers@.len(),
                i <= n,
                Topic::obeys_eq_spec() ==> r@.len() == handlers_for(
                    self.handlers@.take(i as int),
                    *topic,
                ).len(),
                Topic::obeys_eq_spec() ==> forall|j: int|
                    0 <= j < r@.len() ==> *r@[j] == handlers_for(
                        self.handlers@.take(i as int),
                        *topic,
                    )[j],
            decreases n - i,
        {
            let entry = &self.handlers[i];
            proof {
                assert(self.handlers@.take(i + 1).drop_last() =~= self.handlers@.take(i as int));
            }
            if entry.0 == *topic {
                r.push(&entry.2);
            }
            i = i + 1;
        }
        proof {
            assert(self.handlers@.take(n as int) =~= self.handlers@);
        }
        r
    }
}

} // verus!
