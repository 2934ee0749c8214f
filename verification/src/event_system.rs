//! Publishing events to the plugins that subscribed to them.
//!
//! Subscriptions are kept in the order in which they were made. An event
//! goes to every subscription of its type, in that order, and a handler
//! that fails does not keep the event from the handlers after it. `H` is
//! the type of the handlers.

pub mod predefined;

use vstd::prelude::*;
use vstd::string::*;
use crate::error::Error;
use crate::text::{lemma_names_push, names_of, str_eq};

verus! {

/// `serde_json::Value`, the payload of an event. Nothing is known of what a
/// payload holds.
#[verifier::external_type_specification]
#[verifier::external_body]
pub struct ExJsonValue(serde_json::Value);

/// `Clone` of `serde_json::Value` copies a payload. Nothing is claimed of the copy.
pub assume_specification[ <serde_json::Value as Clone>::clone ](v: &serde_json::Value) -> serde_json::Value;

/// The payload of an event.
pub type EventData = serde_json::Value;

/// An event.
#[derive(Debug, Clone)]
pub struct Event {
    /// The type of the event.
    pub event_type: String,
    /// The payload.
    pub data: EventData,
    /// When the event was made, in milliseconds since the Unix epoch.
    pub timestamp: i64,
    /// Where the event comes from: a plugin name, or `system`.
    pub source: String,
}

/// The time now, in milliseconds since the Unix epoch, as
/// `chrono::Utc::now().timestamp_millis()` gives it. Nothing is claimed of
/// it. The call fails where the system clock reads a time before that epoch.
#[verifier::external_body]
fn now_millis() -> i64 {
    chrono::Utc::now().timestamp_millis()
}

impl Event {
    /// An event of type `event_type` from `source`, made at `timestamp`.
    pub fn at(event_type: &str, data: EventData, timestamp: i64, source: &str) -> (r: Self)
        ensures
            r.event_type@ == event_type@,
            r.data == data,
            r.timestamp == timestamp,
            r.source@ == source@,
    {
        Event {
            event_type: String::from_str(event_type),
            data,
            timestamp,
            source: String::from_str(source),
        }
    }

    /// An event of type `event_type` from `source`, made now.
    pub fn new(event_type: &str, data: EventData, source: &str) -> (r: Self)
        ensures
            r.event_type@ == event_type@,
            r.data == data,
            r.source@ == source@,
    {
        Event::at(event_type, data, now_millis(), source)
    }

    /// An event of type `event_type` from the system, made now.
    pub fn system(event_type: &str, data: EventData) -> (r: Self)
        ensures
            r.event_type@ == event_type@,
            r.data == data,
            r.source@ == "system"@,
    {
        Event::new(event_type, data, "system")
    }

    /// An event of type `event_type` from the plugin `plugin_name`, made now.
    pub fn plugin(event_type: &str, data: EventData, plugin_name: &str) -> (r: Self)
        ensures
            r.event_type@ == event_type@,
            r.data == data,
            r.source@ == plugin_name@,
    {
        Event::new(event_type, data, plugin_name)
    }
}

/// A subscription of one subscriber to one type of event.
pub struct EventSubscription<H> {
    /// The type of event.
    pub event_type: String,
    /// What handles the events.
    pub handler: H,
    /// Who subscribed: a plugin name.
    pub subscriber: String,
}

impl<H> EventSubscription<H> {
    /// A subscription of `subscriber` to `event_type`.
    pub fn new(event_type: &str, handler: H, subscriber: &str) -> (r: Self)
        ensures
            r.event_type@ == event_type@,
            r.handler == handler,
            r.subscriber@ == subscriber@,
    {
        EventSubscription {
            event_type: String::from_str(event_type),
            handler,
            subscriber: String::from_str(subscriber),
        }
    }
}

/// Counts that describe an event bus.
#[derive(Debug, Clone)]
pub struct EventBusStats {
    /// Number of event types with a subscription.
    pub total_event_types: usize,
    /// Number of subscriptions.
    pub total_subscriptions: usize,
    /// Number of receivers of the broadcast channel.
    pub broadcast_receivers: usize,
}

/// The subscriptions of `subs` to the type `event_type`, in order.
pub open spec fn subscriptions_to<H>(subs: Seq<EventSubscription<H>>, event_type: Seq<char>) -> Seq<
    EventSubscription<H>,
>
    decreases subs.len(),
{
    if subs.len() == 0 {
        Seq::empty()
    } else if subs.last().event_type@ == event_type {
        subscriptions_to(subs.drop_last(), event_type).push(subs.last())
    } else {
        subscriptions_to(subs.drop_last(), event_type)
    }
}

/// Whether `s` is a subscription of `subscriber` to the type `event_type`,
/// or to any type where none is given.
pub open spec fn is_subscription_of<H>(
    s: EventSubscription<H>,
    event_type: Option<Seq<char>>,
    subscriber: Seq<char>,
) -> bool {
    s.subscriber@ == subscriber && match event_type {
        Some(t) => s.event_type@ == t,
        None => true,
    }
}

/// The subscriptions of `subs` without those of `subscriber` to the type
/// `event_type`, or to any type where none is given; in order.
pub open spec fn without<H>(
    subs: Seq<EventSubscription<H>>,
    event_type: Option<Seq<char>>,
    subscriber: Seq<char>,
) -> Seq<EventSubscription<H>>
    decreases subs.len(),
{
    if subs.len() == 0 {
        Seq::empty()
    } else if is_subscription_of(subs.last(), event_type, subscriber) {
        without(subs.drop_last(), event_type, subscriber)
    } else {
        without(subs.drop_last(), event_type, subscriber).push(subs.last())
    }
}

/// The subscribers of `subs`, in order.
pub open spec fn subscribers_of<H>(subs: Seq<EventSubscription<H>>) -> Seq<Seq<char>> {
    subs.map_values(|s: EventSubscription<H>| s.subscriber@)
}

/// Whether `subs` holds a subscription to the type `event_type`.
pub open spec fn has_type<H>(subs: Seq<EventSubscription<H>>, event_type: Seq<char>) -> bool {
    exists|i: int| 0 <= i < subs.len() && (#[trigger] subs[i]).event_type@ == event_type
}

/// The types that `subs` holds subscriptions to, each once, in the order
/// in which they first occur.
pub open spec fn types_of<H>(subs: Seq<EventSubscription<H>>) -> Seq<Seq<char>>
    decreases subs.len(),
{
    if subs.len() == 0 {
        Seq::empty()
    } else if has_type(subs.drop_last(), subs.last().event_type@) {
        types_of(subs.drop_last())
    } else {
        types_of(subs.drop_last()).push(subs.last().event_type@)
    }
}

proof fn lemma_types_len<H>(subs: Seq<EventSubscription<H>>)
    ensures
        types_of(subs).len() <= subs.len(),
    decreases subs.len(),
{
    if subs.len() > 0 {
        lemma_types_len(subs.drop_last());
    }
}

/// The subscriptions of all subscribers, in the order in which they were made.
pub struct EventBus<H> {
    subscriptions: Vec<EventSubscription<H>>,
}

impl<H> View for EventBus<H> {
    type V = Seq<EventSubscription<H>>;

    closed spec fn view(&self) -> Seq<EventSubscription<H>> {
        self.subscriptions@
    }
}

impl<H: Fn(&Event) -> Result<(), Error>> EventBus<H> {
    /// Whether `handler` can be called with every event.
    pub open spec fn accepts_all(handler: H) -> bool {
        forall|e: &Event| #[trigger] call_requires(handler, (e,))
    }

    /// Every handler can be called with every event.
    pub open spec fn wf(&self) -> bool {
        forall|i: int| 0 <= i < self@.len() ==> Self::accepts_all((#[trigger] self@[i]).handler)
    }

    /// A bus without subscriptions.
    pub fn new() -> (r: Self)
        ensures
            r@.len() == 0,
            r.wf(),
    {
        EventBus { subscriptions: Vec::new() }
    }

    /// Subscribes `subscriber` to the events of type `event_type`.
    pub fn subscribe(&mut self, event_type: &str, handler: H, subscriber: &str) -> (r: Result<
        (),
        Error,
    >)
        requires
            old(self).wf(),
            Self::accepts_all(handler),
        ensures
            r is Ok,
            final(self).wf(),
            final(self)@.len() == old(self)@.len() + 1,
            final(self)@.drop_last() == old(self)@,
            final(self)@.last().event_type@ == event_type@,
            final(self)@.last().handler == handler,
            final(self)@.last().subscriber@ == subscriber@,
    {
        self.subscriptions.push(EventSubscription::new(event_type, handler, subscriber));
        assert(self@.drop_last() =~= old(self)@);
        assert forall|i: int| 0 <= i < self@.len() implies Self::accepts_all(
            (#[trigger] self@[i]).handler,
        ) by {
            if i < old(self)@.len() {
                assert(self@[i] == old(self)@[i]);
            }
        }
        Ok(())
    }

    /// Removes the subscriptions of `subscriber` to `event_type`, or to any
    /// type where none is given, keeping the others in order.
    fn remove_where(&mut self, event_type: Option<&str>, subscriber: &str)
        requires
            old(self).wf(),
        ensures
            final(self).wf(),
            final(self)@ == without(
                old(self)@,
                match event_type {
                    Some(t) => Some(t@),
                    None => None,
                },
                subscriber@,
            ),
    {
        let ghost wanted: Option<Seq<char>> = match event_type {
            Some(t) => Some(t@),
            None => None,
        };
        let ghost all = self@;
        let mut i: usize = 0;
        let ghost mut done: int = 0;
        proof {
            assert(all.take(0) =~= Seq::<EventSubscription<H>>::empty());
            assert(all.skip(0) =~= all);
            assert(self@.take(0) =~= Seq::<EventSubscription<H>>::empty());
        }
        while i < self.subscriptions.len()
            invariant
                all == old(self)@,
                old(self).wf(),
                wanted == match event_type {
                    Some(t) => Some(t@),
                    None => None::<Seq<char>>,
                },
                0 <= done <= all.len(),
                i <= self@.len(),
                self@.len() - i == all.len() - done,
                self@.take(i as int) == without(all.take(done), wanted, subscriber@),
                self@.skip(i as int) == all.skip(done),
            decreases self@.len() - i,
        {
            let ghost current = self@;
            assert(current[i as int] == current.skip(i as int)[0]);
            assert(current[i as int] == all[done]);
            assert(all.take(done + 1).drop_last() =~= all.take(done));
            assert(all.take(done + 1).last() == all[done]);
            assert(all.skip(done).skip(1) =~= all.skip(done + 1));
            assert(current.skip(i as int).skip(1) =~= current.skip(i + 1));
            let same_subscriber = str_eq(self.subscriptions[i].subscriber.as_str(), subscriber);
            let same_type = match event_type {
                Some(t) => str_eq(self.subscriptions[i].event_type.as_str(), t),
                None => true,
            };
            if same_subscriber && same_type {
                let _ = self.subscriptions.remove(i);
                proof {
                    assert(self@.take(i as int) =~= current.take(i as int));
                    assert(self@.skip(i as int) =~= current.skip(i + 1));
                    done = done + 1;
                }
            } else {
                proof {
                    assert(self@.take(i + 1) =~= current.take(i as int).push(current[i as int]));
                    done = done + 1;
                }
                i = i + 1;
            }
        }
        proof {
            assert(self@.take(i as int) =~= self@);
            assert(all.take(done) =~= all);
            assert forall|k: int| 0 <= k < self@.len() implies Self::accepts_all(
                (#[trigger] self@[k]).handler,
            ) by {
                Self::lemma_without_from(all, wanted, subscriber@, k);
                let j = choose|j: int|
                    0 <= j < all.len() && all[j] == without(all, wanted, subscriber@)[k];
                assert(Self::accepts_all(old(self)@[j].handler));
            }
        }
    }

    /// Every subscription that stays is one of those that were there.
    proof fn lemma_without_from(
        subs: Seq<EventSubscription<H>>,
        event_type: Option<Seq<char>>,
        subscriber: Seq<char>,
        k: int,
    )
        requires
            0 <= k < without(subs, event_type, subscriber).len(),
        ensures
            exists|j: int| 0 <= j < subs.len() && subs[j] == without(subs, event_type, subscriber)[k],
        decreases subs.len(),
    {
        if subs.len() > 0 {
            let rest = without(subs.drop_last(), event_type, subscriber);
            if !is_subscription_of(subs.last(), event_type, subscriber) && k == rest.len() {
                assert(subs[subs.len() - 1] == without(subs, event_type, subscriber)[k]);
            } else {
                Self::lemma_without_from(subs.drop_last(), event_type, subscriber, k);
                let j = choose|j: int|
                    0 <= j < subs.drop_last().len() && subs.drop_last()[j] == rest[k];
                assert(subs[j] == without(subs, event_type, subscriber)[k]);
            }
        }
    }

    /// Removes the subscriptions of `subscriber` to the events of type
    /// `event_type`. The others stay, in order.
    pub fn unsubscribe(&mut self, event_type: &str, subscriber: &str) -> (r: Result<(), Error>)
        requires
            old(self).wf(),
        ensures
            r is Ok,
            final(self).wf(),
            final(self)@ == without(old(self)@, Some(event_type@), subscriber@),
    {
        self.remove_where(Some(event_type), subscriber);
        Ok(())
    }

    /// Removes every subscription of `subscriber`. The others stay, in order.
    pub fn unsubscribe_all(&mut self, subscriber: &str) -> (r: Result<(), Error>)
        requires
            old(self).wf(),
        ensures
            r is Ok,
            final(self).wf(),
            final(self)@ == without(old(self)@, None, subscriber@),
    {
        self.remove_where(None, subscriber);
        Ok(())
    }

    /// Hands `event` to the handler of every subscription of its type, in
    /// the order of the subscriptions, and returns what each handler
    /// returned. A handler that fails does not stop the others.
    pub fn dispatch(&self, event: &Event) -> (r: Vec<Result<(), Error>>)
        requires
            self.wf(),
        ensures
            r@.len() == subscriptions_to(self@, event.event_type@).len(),
            forall|k: int|
                0 <= k < r@.len() ==> call_ensures(
                    subscriptions_to(self@, event.event_type@)[k].handler,
                    (event,),
                    #[trigger] r@[k],
                ),
    {
        let mut out: Vec<Result<(), Error>> = Vec::new();
        let mut i: usize = 0;
        assert(self@.take(0) =~= Seq::<EventSubscription<H>>::empty());
        while i < self.subscriptions.len()
            invariant
                self.wf(),
                i <= self@.len(),
                out@.len() == subscriptions_to(self@.take(i as int), event.event_type@).len(),
                forall|k: int|
                    0 <= k < out@.len() ==> call_ensures(
                        subscriptions_to(self@.take(i as int), event.event_type@)[k].handler,
                        (event,),
                        #[trigger] out@[k],
                    ),
            decreases self@.len() - i,
        {
            assert(self@.take(i + 1).drop_last() =~= self@.take(i as int));
            assert(self@.take(i + 1).last() == self@[i as int]);
            if str_eq(self.subscriptions[i].event_type.as_str(), event.event_type.as_str()) {
                assert(Self::accepts_all(self@[i as int].handler));
                let handler = &self.subscriptions[i].handler;
                let outcome = handler(event);
                out.push(outcome);
            }
            i = i + 1;
        }
        assert(self@.take(i as int) =~= self@);
        out
    }

    /// Publishes `event`: every handler subscribed to its type is run, in
    /// the order of the subscriptions. Failures of handlers are absorbed.
    pub fn emit(&self, event: Event) -> (r: Result<(), Error>)
        requires
            self.wf(),
        ensures
            r is Ok,
            exists|outcomes: Seq<Result<(), Error>>|
                outcomes.len() == subscriptions_to(self@, event.event_type@).len() && forall|k: int|
                    0 <= k < outcomes.len() ==> call_ensures(
                        subscriptions_to(self@, event.event_type@)[k].handler,
                        (&event,),
                        #[trigger] outcomes[k],
                    ),
    {
        let outcomes = self.dispatch(&event);
        assert(outcomes@.len() == subscriptions_to(self@, event.event_type@).len() && forall|k: int|
            0 <= k < outcomes@.len() ==> call_ensures(
                subscriptions_to(self@, event.event_type@)[k].handler,
                (&event,),
                #[trigger] outcomes@[k],
            ));
        Ok(())
    }

    /// The types that have a subscription, each once, in the order in
    /// which they were first subscribed to.
    pub fn get_event_types(&self) -> (r: Vec<String>)
        ensures
            names_of(r@) == types_of(self@),
    {
        let mut out: Vec<String> = Vec::new();
        let mut i: usize = 0;
        assert(self@.take(0) =~= Seq::<EventSubscription<H>>::empty());
        assert(names_of(out@) =~= Seq::<Seq<char>>::empty());
        while i < self.subscriptions.len()
            invariant
                i <= self@.len(),
                names_of(out@) == types_of(self@.take(i as int)),
            decreases self@.len() - i,
        {
            let ghost before = self@.take(i as int);
            assert(self@.take(i + 1).drop_last() =~= before);
            assert(self@.take(i + 1).last() == self@[i as int]);
            let mut seen = false;
            let mut j: usize = 0;
            while j < i
                invariant
                    j <= i,
                    i < self@.len(),
                    before == self@.take(i as int),
                    seen == exists|k: int|
                        0 <= k < j && (#[trigger] before[k]).event_type@ == self@[i as int].event_type@,
                decreases i - j,
            {
                if str_eq(
                    self.subscriptions[j].event_type.as_str(),
                    self.subscriptions[i].event_type.as_str(),
                ) {
                    assert(before[j as int].event_type@ == self@[i as int].event_type@);
                    seen = true;
                }
                j = j + 1;
            }
            assert(seen == has_type(before, self@[i as int].event_type@));
            if !seen {
                let name = self.subscriptions[i].event_type.clone();
                proof {
                    lemma_names_push(out@, name);
                }
                out.push(name);
            }
            i = i + 1;
        }
        assert(self@.take(i as int) =~= self@);
        out
    }

    /// The subscribers to the events of type `event_type`, in the order of
    /// their subscriptions.
    pub fn get_subscribers(&self, event_type: &str) -> (r: Vec<String>)
        ensures
            names_of(r@) == subscribers_of(subscriptions_to(self@, event_type@)),
    {
        let mut out: Vec<String> = Vec::new();
        let mut i: usize = 0;
        assert(self@.take(0) =~= Seq::<EventSubscription<H>>::empty());
        assert(names_of(out@) =~= subscribers_of(subscriptions_to(self@.take(0), event_type@)));
        while i < self.subscriptions.len()
            invariant
                i <= self@.len(),
                names_of(out@) == subscribers_of(subscriptions_to(self@.take(i as int), event_type@)),
            decreases self@.len() - i,
        {
            assert(self@.take(i + 1).drop_last() =~= self@.take(i as int));
            assert(self@.take(i + 1).last() == self@[i as int]);
            if str_eq(self.subscriptions[i].event_type.as_str(), event_type) {
                let name = self.subscriptions[i].subscriber.clone();
                proof {
                    lemma_names_push(out@, name);
                    let rest = subscriptions_to(self@.take(i as int), event_type@);
                    assert(subscribers_of(rest.push(self@[i as int])) =~= subscribers_of(rest).push(
                        name@,
                    ));
                }
                out.push(name);
            }
            i = i + 1;
        }
        assert(self@.take(i as int) =~= self@);
        out
    }

    /// Whether the events of type `event_type` have a subscriber.
    pub fn has_subscribers(&self, event_type: &str) -> (r: bool)
        ensures
            r == has_type(self@, event_type@),
    {
        let mut i: usize = 0;
        while i < self.subscriptions.len()
            invariant
                i <= self@.len(),
                forall|k: int| 0 <= k < i ==> (#[trigger] self@[k]).event_type@ != event_type@,
            decreases self@.len() - i,
        {
            if str_eq(self.subscriptions[i].event_type.as_str(), event_type) {
                assert(self@[i as int].event_type@ == event_type@);
                return true;
            }
            i = i + 1;
        }
        false
    }

    /// Counts that describe the bus; the host supplies the number of
    /// receivers of its broadcast channel.
    pub fn stats(&self, broadcast_receivers: usize) -> (r: EventBusStats)
        ensures
            r.total_event_types == types_of(self@).len(),
            r.total_subscriptions == self@.len(),
            r.broadcast_receivers == broadcast_receivers,
    {
        let types = self.get_event_types();
        assert(names_of(types@).len() == types@.len());
        EventBusStats {
            total_event_types: types.len(),
            total_subscriptions: self.subscriptions.len(),
            broadcast_receivers,
        }
    }
}

} // verus!
