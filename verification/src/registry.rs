//! Subscriber registry: tracks the outbound queues of currently connected
//! clients and fans each broadcast entry out to every matching subscriber.
//!
//! Each subscriber owns a bounded outbound queue. Broadcast is non-blocking
//! with respect to slow consumers: a subscriber whose queue is full at
//! delivery time is silently removed, so one bad subscriber can never stall
//! the producer or the other subscribers. The registry keeps a ghost log of
//! every event ever broadcast; the well-formedness invariant states that what
//! a live subscriber has taken so far plus what still waits in its queue is
//! exactly the sequence of matching events since it registered — each event
//! delivered exactly once, in order.

use vstd::prelude::*;
use vstd::seq_lib::*;

use crate::kernel::{KernelMessage, LogEntryView};

verus! {

/// The kind of event a subscriber is interested in. Kernel-buffer events are
/// the only kind this service produces.
#[derive(Clone, Copy, Debug, PartialEq, Eq, Structural)]
pub enum WebsocketEventType {
    KernelBuffer,
}

/// One broadcast event, as recorded in the registry's ghost event log.
pub ghost struct EventRecord {
    pub event_type: WebsocketEventType,
    pub entry: LogEntryView,
}

/// Mathematical model of one subscriber.
pub ghost struct SubscriberView {
    /// Stable identifier handed out at registration.
    pub id: nat,
    /// Event kind this subscriber receives.
    pub event_type: WebsocketEventType,
    /// Bound on the outbound queue.
    pub capacity: nat,
    /// Entries delivered but not yet taken by the subscriber's session.
    pub queue: Seq<LogEntryView>,
    /// Length of the registry's event log at registration time.
    pub joined_at: nat,
    /// Entries the subscriber's session has already taken.
    pub taken: Seq<LogEntryView>,
}

/// A live subscriber: a bounded outbound queue tagged with an event type.
pub struct Subscriber {
    id: usize,
    event_type: WebsocketEventType,
    capacity: usize,
    queue: Vec<KernelMessage>,
    joined_at: Ghost<nat>,
    taken: Ghost<Seq<LogEntryView>>,
}

impl View for Subscriber {
    type V = SubscriberView;

    closed spec fn view(&self) -> SubscriberView {
        SubscriberView {
            id: self.id as nat,
            event_type: self.event_type,
            capacity: self.capacity as nat,
            queue: self.queue.deep_view(),
            joined_at: self.joined_at@,
            taken: self.taken@,
        }
    }
}

impl DeepView for Subscriber {
    type V = SubscriberView;

    open spec fn deep_view(&self) -> SubscriberView {
        self.view()
    }
}

/// Mathematical model of the registry.
pub ghost struct RegistryView {
    pub subscribers: Seq<SubscriberView>,
    pub next_id: nat,
    pub events: Seq<EventRecord>,
}

/// The entries of the matching events among `events`, in order.
pub open spec fn events_for(events: Seq<EventRecord>, t: WebsocketEventType) -> Seq<LogEntryView> {
    events.filter(|r: EventRecord| r.event_type == t).map_values(|r: EventRecord| r.entry)
}

/// A filtered singleton is itself when the element passes and empty when it
/// does not.
pub(crate) proof fn lemma_filter_singleton<A>(x: A, pred: spec_fn(A) -> bool)
    ensures
        seq![x].filter(pred) == if pred(x) {
            seq![x]
        } else {
            Seq::<A>::empty()
        },
{
    reveal(Seq::filter);
    let s = seq![x];
    assert(s.drop_last() =~= Seq::<A>::empty());
    assert(Seq::<A>::empty().filter(pred) =~= Seq::<A>::empty());
    if pred(x) {
        assert(s.filter(pred) =~= seq![x]);
    } else {
        assert(s.filter(pred) =~= Seq::<A>::empty());
    }
}

/// Filtering distributes over appending one element at the end.
pub(crate) proof fn lemma_filter_push<A>(s: Seq<A>, x: A, pred: spec_fn(A) -> bool)
    ensures
        s.push(x).filter(pred) == if pred(x) {
            s.filter(pred).push(x)
        } else {
            s.filter(pred)
        },
{
    assert(s.push(x) =~= s + seq![x]);
    Seq::<A>::filter_distributes_over_add(s, seq![x], pred);
    lemma_filter_singleton(x, pred);
    if pred(x) {
        assert(s.filter(pred) + seq![x] =~= s.filter(pred).push(x));
    } else {
        assert(s.filter(pred) + Seq::<A>::empty() =~= s.filter(pred));
    }
}

/// A sequence every element of which passes the predicate filters to itself.
pub(crate) proof fn lemma_filter_all<A>(s: Seq<A>, pred: spec_fn(A) -> bool)
    requires
        forall|i: int| 0 <= i < s.len() ==> pred(#[trigger] s[i]),
    ensures
        s.filter(pred) == s,
    decreases s.len(),
{
    if s.len() == 0 {
        reveal(Seq::filter);
        assert(s.filter(pred) =~= s);
    } else {
        lemma_filter_all(s.drop_last(), pred);
        lemma_filter_push(s.drop_last(), s.last(), pred);
        assert(s.drop_last().push(s.last()) =~= s);
    }
}

/// Mapping values distributes over appending one element at the end.
pub(crate) proof fn lemma_map_values_push<A, B>(s: Seq<A>, x: A, f: spec_fn(A) -> B)
    ensures
        s.push(x).map_values(f) == s.map_values(f).push(f(x)),
{
    assert(s.push(x).map_values(f) =~= s.map_values(f).push(f(x)));
}

/// Broadcasting one more matching event extends the matching entries, seen
/// from any point at or before the end of the log, by exactly that entry; a
/// non-matching event changes nothing.
pub(crate) proof fn lemma_events_for_push(evs: Seq<EventRecord>, j: int, r: EventRecord, t: WebsocketEventType)
    requires
        0 <= j <= evs.len(),
    ensures
        events_for(evs.push(r).skip(j), t) == if r.event_type == t {
            events_for(evs.skip(j), t).push(r.entry)
        } else {
            events_for(evs.skip(j), t)
        },
{
    let pred = |rec: EventRecord| rec.event_type == t;
    assert(evs.push(r).skip(j) =~= evs.skip(j).push(r));
    lemma_filter_push(evs.skip(j), r, pred);
    if r.event_type == t {
        lemma_map_values_push(evs.skip(j).filter(pred), r, |rec: EventRecord| rec.entry);
    }
}

impl SubscriberView {
    /// Exactly-once delivery, per subscriber: what the subscriber has taken,
    /// followed by what still waits in its queue, is exactly the sequence of
    /// matching events broadcast since it registered.
    pub open spec fn wf(self, events: Seq<EventRecord>, next_id: nat) -> bool {
        &&& self.id < next_id
        &&& self.queue.len() <= self.capacity
        &&& self.joined_at <= events.len()
        &&& self.taken + self.queue == events_for(
            events.skip(self.joined_at as int),
            self.event_type,
        )
    }

    /// This subscriber after an event of kind `t` was delivered: a matching
    /// subscriber has the entry appended to its queue, any other is
    /// untouched.
    pub open spec fn delivered(self, t: WebsocketEventType, e: LogEntryView) -> SubscriberView {
        if self.event_type == t {
            SubscriberView { queue: self.queue.push(e), ..self }
        } else {
            self
        }
    }

    /// Whether this subscriber outlives a broadcast of kind `t`: delivery
    /// fails only when the event matches and the queue is already full.
    pub open spec fn survives(self, t: WebsocketEventType) -> bool {
        self.event_type != t || self.queue.len() < self.capacity
    }

    /// This subscriber after its session took everything waiting in the
    /// queue: the queue empties into `taken`; nothing is lost or reordered.
    pub open spec fn flushed(self) -> SubscriberView {
        SubscriberView { queue: Seq::empty(), taken: self.taken + self.queue, ..self }
    }
}

impl RegistryView {
    /// The registry after one broadcast of an event of kind `t` carrying
    /// `e`: the event is logged, every matching subscriber with room gets `e`
    /// appended to its queue, every matching subscriber whose queue is full
    /// is removed, and every other subscriber is untouched.
    pub open spec fn after_broadcast(self, t: WebsocketEventType, e: LogEntryView) -> RegistryView {
        RegistryView {
            subscribers: self.subscribers.filter(|s: SubscriberView| s.survives(t)).map_values(
                |s: SubscriberView| s.delivered(t, e),
            ),
            next_id: self.next_id,
            events: self.events.push(EventRecord { event_type: t, entry: e }),
        }
    }

    /// Every subscriber is well formed and identifiers are unique.
    pub open spec fn wf(self) -> bool {
        &&& forall|i: int|
            0 <= i < self.subscribers.len() ==> (#[trigger] self.subscribers[i]).wf(
                self.events,
                self.next_id,
            )
        &&& forall|i: int, j: int|
            0 <= i < j < self.subscribers.len() ==> self.subscribers[i].id
                != self.subscribers[j].id
    }
}

/// Tracks the currently registered subscribers. The lock that guards the
/// registry is the caller's one exclusive reference; no operation here ever
/// blocks on a subscriber.
pub struct Registry {
    subscribers: Vec<Subscriber>,
    next_id: usize,
    events: Ghost<Seq<EventRecord>>,
}

impl View for Registry {
    type V = RegistryView;

    closed spec fn view(&self) -> RegistryView {
        RegistryView {
            subscribers: self.subscribers.deep_view(),
            next_id: self.next_id as nat,
            events: self.events@,
        }
    }
}

impl Registry {
    /// An empty registry.
    pub fn new() -> (r: Registry)
        ensures
            r@.wf(),
            r@.subscribers == Seq::<SubscriberView>::empty(),
            r@.next_id == 0,
            r@.events == Seq::<EventRecord>::empty(),
    {
        let r = Registry { subscribers: Vec::new(), next_id: 0, events: Ghost(Seq::empty()) };
        proof {
            assert(r@.subscribers =~= Seq::<SubscriberView>::empty());
        }
        r
    }

    /// Adds a subscriber with an empty outbound queue bounded by `capacity`
    /// and returns its stable identifier.
    pub fn register(&mut self, event_type: WebsocketEventType, capacity: usize) -> (id: usize)
        requires
            old(self)@.wf(),
            old(self)@.next_id < usize::MAX,
        ensures
            final(self)@.wf(),
            id == old(self)@.next_id,
            final(self)@.next_id == old(self)@.next_id + 1,
            final(self)@.events == old(self)@.events,
            final(self)@.subscribers == old(self)@.subscribers.push(
                SubscriberView {
                    id: id as nat,
                    event_type,
                    capacity: capacity as nat,
                    queue: Seq::empty(),
                    joined_at: old(self)@.events.len(),
                    taken: Seq::empty(),
                },
            ),
    {
        let id = self.next_id;
        let sub = Subscriber {
            id,
            event_type,
            capacity,
            queue: Vec::new(),
            joined_at: Ghost(self.events@.len()),
            taken: Ghost(Seq::empty()),
        };
        proof {
            let evs = self.events@;
            assert(evs.skip(evs.len() as int) =~= Seq::<EventRecord>::empty());
            Seq::<EventRecord>::empty().lemma_all_neg_filter_empty(
                |r: EventRecord| r.event_type == event_type,
            );
            assert(sub@.taken + sub@.queue =~= events_for(
                evs.skip(sub@.joined_at as int),
                event_type,
            ));
        }
        self.subscribers.push(sub);
        self.next_id = id + 1;
        proof {
            assert(self@.subscribers =~= old(self)@.subscribers.push(
                SubscriberView {
                    id: id as nat,
                    event_type,
                    capacity: capacity as nat,
                    queue: Seq::empty(),
                    joined_at: old(self)@.events.len(),
                    taken: Seq::empty(),
                },
            ));
            assert forall|i: int| 0 <= i < self@.subscribers.len() implies (
            #[trigger] self@.subscribers[i]).wf(self@.events, self@.next_id) by {
                if i < old(self)@.subscribers.len() {
                    assert(old(self)@.subscribers[i].wf(old(self)@.events, old(self)@.next_id));
                }
            }
        }
        id
    }

    /// Attempts to deliver `entry` to every registered subscriber whose
    /// event type matches. Delivery never blocks: a matching subscriber whose
    /// queue is full is silently removed instead, so a slow consumer can
    /// neither stall the producer nor disturb the other subscribers.
    #[verifier::loop_isolation(false)]
    pub fn broadcast(&mut self, event_type: WebsocketEventType, entry: &KernelMessage)
        requires
            old(self)@.wf(),
        ensures
            final(self)@.wf(),
            final(self)@.next_id == old(self)@.next_id,
            final(self)@.events == old(self)@.events.push(
                EventRecord { event_type, entry: entry@ },
            ),
            final(self)@.subscribers == old(self)@.subscribers.filter(
                |s: SubscriberView| s.survives(event_type),
            ).map_values(|s: SubscriberView| s.delivered(event_type, entry@)),
            final(self)@ == old(self)@.after_broadcast(event_type, entry@),
    {
        let ghost rec = EventRecord { event_type, entry: entry@ };
        let ghost orig = self@.subscribers;
        let ghost evs0 = self@.events;
        let ghost pred = |s: SubscriberView| s.survives(event_type);
        let ghost dlv = |s: SubscriberView| s.delivered(event_type, entry@);

        self.events = Ghost(self.events@.push(rec));
        let mut pending: Vec<Subscriber> = Vec::new();
        core::mem::swap(&mut pending, &mut self.subscribers);
        proof {
            assert(orig.take(0).filter(pred).map_values(dlv) =~= self.subscribers.deep_view());
        }
        let ghost k: int = 0;
        while pending.len() > 0
            invariant
                0 <= k <= orig.len(),
                pending.deep_view() =~= orig.skip(k),
                self.subscribers.deep_view() =~= orig.take(k).filter(pred).map_values(dlv),
                self@.events == evs0.push(rec),
                self@.next_id == old(self)@.next_id,
                forall|i: int|
                    0 <= i < k ==> (#[trigger] orig[i]).wf(evs0, old(self)@.next_id),
                forall|i: int|
                    0 <= i < self.subscribers.deep_view().len() ==> (
                    #[trigger] self.subscribers.deep_view()[i]).wf(
                        self@.events,
                        self@.next_id,
                    ),
                forall|i: int, j: int|
                    0 <= i < j < self.subscribers.deep_view().len()
                        ==> self.subscribers.deep_view()[i].id
                        != self.subscribers.deep_view()[j].id,
                forall|i: int, j: int|
                    0 <= i < self.subscribers.deep_view().len() && k <= j < orig.len()
                        ==> self.subscribers.deep_view()[i].id != orig[j].id,
            decreases pending.len(),
        {
            proof {
                assert(k < orig.len());
                assert(pending.deep_view()[0] == orig[k]);
                assert(orig[k].wf(evs0, old(self)@.next_id)) by {
                    assert(old(self)@.subscribers[k].wf(old(self)@.events, old(self)@.next_id));
                }
            }
            let ghost pre_p = pending@;
            let ghost pre_dv = pending.deep_view();
            let mut sub = pending.remove(0);
            proof {
                assert forall|j: int| 0 <= j < pending@.len() implies pending.deep_view()[j]
                    == orig.skip(k + 1)[j] by {
                    assert(pending@[j] == pre_p[j + 1]);
                    assert(pre_dv[j + 1] == pre_p[j + 1].deep_view());
                    assert(pre_dv[j + 1] == orig.skip(k)[j + 1]);
                }
                assert(pending.deep_view() =~= orig.skip(k + 1));
                assert(sub@ == orig[k]);
                lemma_filter_push(orig.take(k), orig[k], pred);
                assert(orig.take(k + 1) =~= orig.take(k).push(orig[k]));
                lemma_events_for_push(
                    evs0,
                    orig[k].joined_at as int,
                    rec,
                    orig[k].event_type,
                );
            }
            let matches = match (sub.event_type, event_type) {
                (WebsocketEventType::KernelBuffer, WebsocketEventType::KernelBuffer) => true,
            };
            if matches {
                if sub.queue.len() < sub.capacity {
                    let ghost pre = sub@;
                    sub.queue.push(entry.clone());
                    proof {
                        assert(sub@.queue =~= pre.queue.push(entry@));
                        assert(sub@ == dlv(orig[k]));
                        assert(pre.taken + pre.queue.push(entry@) =~= (pre.taken
                            + pre.queue).push(entry@));
                        assert(sub@.wf(self@.events, self@.next_id));
                        lemma_map_values_push(orig.take(k).filter(pred), orig[k], dlv);
                    }
                    self.subscribers.push(sub);
                    proof {
                        assert(self.subscribers.deep_view() =~= orig.take(k + 1).filter(
                            pred,
                        ).map_values(dlv));
                    }
                } else {
                    proof {
                        assert(!pred(orig[k]));
                        assert(orig.take(k + 1).filter(pred).map_values(dlv)
                            =~= self.subscribers.deep_view());
                    }
                }
            } else {
                proof {
                    assert(sub@ == dlv(orig[k]));
                    assert(sub@.wf(self@.events, self@.next_id));
                    lemma_map_values_push(orig.take(k).filter(pred), orig[k], dlv);
                }
                self.subscribers.push(sub);
                proof {
                    assert(self.subscribers.deep_view() =~= orig.take(k + 1).filter(
                        pred,
                    ).map_values(dlv));
                }
            }
            proof {
                k = k + 1;
            }
        }
        proof {
            assert(orig.take(k) =~= orig);
            assert(self.subscribers.deep_view() =~= orig.filter(pred).map_values(dlv));
        }
    }

    /// Whether another subscriber can still be registered: the identifier
    /// counter must not wrap.
    pub fn can_accept_subscriber(&self) -> (r: bool)
        ensures
            r == (self@.next_id < usize::MAX),
    {
        self.next_id < usize::MAX
    }

    /// Number of currently registered subscribers.
    pub fn subscriber_count(&self) -> (n: usize)
        ensures
            n == self@.subscribers.len(),
    {
        self.subscribers.len()
    }

    /// Position of the subscriber with the given identifier, if any.
    fn index_of(&self, id: usize) -> (r: Option<usize>)
        ensures
            match r {
                Some(i) => i < self@.subscribers.len() && self@.subscribers[i as int].id
                    == id as nat,
                None => forall|j: int|
                    0 <= j < self@.subscribers.len() ==> (#[trigger] self@.subscribers[j]).id
                        != id as nat,
            },
    {
        let n = self.subscribers.len();
        let mut i: usize = 0;
        while i < n
            invariant
                i <= n,
                n == self@.subscribers.len(),
                forall|j: int|
                    0 <= j < i ==> (#[trigger] self@.subscribers[j]).id != id as nat,
            decreases n - i,
        {
            if self.subscribers[i].id == id {
                proof {
                    assert(self@.subscribers[i as int] == self.subscribers@[i as int]@);
                }
                return Some(i);
            }
            i += 1;
        }
        None
    }

    /// Removes the subscriber with the given identifier. Idempotent: removing
    /// an identifier that is not registered is a no-op. No other subscriber is
    /// touched.
    pub fn unregister(&mut self, id: usize)
        requires
            old(self)@.wf(),
        ensures
            final(self)@.wf(),
            final(self)@.next_id == old(self)@.next_id,
            final(self)@.events == old(self)@.events,
            final(self)@.subscribers == old(self)@.subscribers.filter(
                |s: SubscriberView| s.id != id as nat,
            ),
    {
        let ghost orig = self@.subscribers;
        let ghost pred = |s: SubscriberView| s.id != id as nat;
        match self.index_of(id) {
            None => {
                proof {
                    lemma_filter_all(orig, pred);
                }
            },
            Some(i) => {
                let ghost pre_p = self.subscribers@;
                self.subscribers.remove(i);
                proof {
                    let ii = i as int;
                    assert forall|j: int| 0 <= j < self@.subscribers.len() implies
                        self@.subscribers[j] == orig.remove(ii)[j] by {
                        if j < ii {
                            assert(self.subscribers@[j] == pre_p[j]);
                        } else {
                            assert(self.subscribers@[j] == pre_p[j + 1]);
                        }
                    }
                    assert(self@.subscribers =~= orig.remove(ii));
                    // Every entry other than position `ii` passes the filter:
                    // identifiers are unique and `orig[ii]` is the match.
                    assert forall|j: int| 0 <= j < orig.len() && j != ii implies pred(
                        #[trigger] orig[j],
                    ) by {
                        if j < ii {
                            assert(orig[j].id != orig[ii].id);
                        } else {
                            assert(orig[ii].id != orig[j].id);
                        }
                    }
                    assert(orig =~= orig.take(ii) + seq![orig[ii]] + orig.skip(ii + 1));
                    Seq::<SubscriberView>::filter_distributes_over_add(
                        orig.take(ii) + seq![orig[ii]],
                        orig.skip(ii + 1),
                        pred,
                    );
                    Seq::<SubscriberView>::filter_distributes_over_add(
                        orig.take(ii),
                        seq![orig[ii]],
                        pred,
                    );
                    lemma_filter_singleton(orig[ii], pred);
                    assert forall|j: int| 0 <= j < orig.take(ii).len() implies pred(
                        #[trigger] orig.take(ii)[j],
                    ) by {}
                    lemma_filter_all(orig.take(ii), pred);
                    assert forall|j: int| 0 <= j < orig.skip(ii + 1).len() implies pred(
                        #[trigger] orig.skip(ii + 1)[j],
                    ) by {}
                    lemma_filter_all(orig.skip(ii + 1), pred);
                    assert(orig.filter(pred) =~= orig.take(ii) + orig.skip(ii + 1));
                    assert(orig.remove(ii) =~= orig.take(ii) + orig.skip(ii + 1));
                    assert(self@.subscribers =~= orig.filter(pred));
                }
            },
        }
    }

    /// Hands out everything currently waiting in the queue of the subscriber
    /// with the given identifier, in delivery order, and empties that queue.
    /// An unknown identifier yields an empty result and changes nothing. No
    /// other subscriber is touched.
    pub fn take_pending(&mut self, id: usize) -> (r: Vec<KernelMessage>)
        requires
            old(self)@.wf(),
        ensures
            final(self)@.wf(),
            final(self)@.next_id == old(self)@.next_id,
            final(self)@.events == old(self)@.events,
            (exists|i: int|
                0 <= i < old(self)@.subscribers.len() && old(self)@.subscribers[i].id
                    == id as nat) ==> exists|i: int|
                {
                    &&& 0 <= i < old(self)@.subscribers.len()
                    &&& old(self)@.subscribers[i].id == id as nat
                    &&& r.deep_view() == old(self)@.subscribers[i].queue
                    &&& final(self)@.subscribers == old(self)@.subscribers.update(
                        i,
                        old(self)@.subscribers[i].flushed(),
                    )
                },
            (forall|i: int|
                0 <= i < old(self)@.subscribers.len() ==> (
                #[trigger] old(self)@.subscribers[i]).id != id as nat) ==> {
                &&& final(self)@ == old(self)@
                &&& r.deep_view() == Seq::<LogEntryView>::empty()
            },
    {
        let ghost orig = self@.subscribers;
        match self.index_of(id) {
            None => {
                let r: Vec<KernelMessage> = Vec::new();
                proof {
                    assert(r.deep_view() =~= Seq::<LogEntryView>::empty());
                }
                r
            },
            Some(i) => {
                let ghost pre_p = self.subscribers@;
                let mut sub = self.subscribers.remove(i);
                let ghost pre_sub = sub@;
                let mut q: Vec<KernelMessage> = Vec::new();
                core::mem::swap(&mut q, &mut sub.queue);
                sub.taken = Ghost(sub.taken@ + q.deep_view());
                proof {
                    assert(sub@.queue =~= Seq::<LogEntryView>::empty());
                    assert(sub@ == pre_sub.flushed());
                    assert(sub@.taken + sub@.queue =~= pre_sub.taken + pre_sub.queue);
                }
                self.subscribers.insert(i, sub);
                proof {
                    let ii = i as int;
                    assert forall|j: int| 0 <= j < self@.subscribers.len() implies
                        self@.subscribers[j] == orig.update(ii, pre_sub.flushed())[j] by {
                        if j < ii {
                            assert(self.subscribers@[j] == pre_p[j]);
                        } else if j == ii {
                        } else {
                            assert(self.subscribers@[j] == pre_p[j]);
                        }
                    }
                    assert(self@.subscribers =~= orig.update(ii, pre_sub.flushed()));
                    assert(orig[ii].wf(old(self)@.events, old(self)@.next_id));
                }
                q
            },
        }
    }
}

/// The subscribers that a broadcast of kind `t` carrying `e` leaves behind:
/// well formed against the grown event log, with ids still unique and all
/// drawn from the subscribers that stood registered before the broadcast.
proof fn lemma_broadcast_subs(
    subs: Seq<SubscriberView>,
    evs: Seq<EventRecord>,
    next_id: nat,
    t: WebsocketEventType,
    e: LogEntryView,
)
    requires
        forall|i: int| 0 <= i < subs.len() ==> (#[trigger] subs[i]).wf(evs, next_id),
        forall|i: int, j: int| 0 <= i < j < subs.len() ==> subs[i].id != subs[j].id,
    ensures
        ({
            let out = subs.filter(|s: SubscriberView| s.survives(t)).map_values(
                |s: SubscriberView| s.delivered(t, e),
            );
            let evs2 = evs.push(EventRecord { event_type: t, entry: e });
            &&& forall|i: int| 0 <= i < out.len() ==> (#[trigger] out[i]).wf(evs2, next_id)
            &&& forall|i: int, j: int| 0 <= i < j < out.len() ==> out[i].id != out[j].id
            &&& forall|i: int|
                0 <= i < out.len() ==> exists|j: int|
                    0 <= j < subs.len() && (#[trigger] out[i]).id == (#[trigger] subs[j]).id
        }),
    decreases subs.len(),
{
    let pred = |s: SubscriberView| s.survives(t);
    let dlv = |s: SubscriberView| s.delivered(t, e);
    let rec = EventRecord { event_type: t, entry: e };
    let evs2 = evs.push(rec);
    let out = subs.filter(pred).map_values(dlv);
    if subs.len() == 0 {
        reveal(Seq::filter);
        assert(out =~= Seq::<SubscriberView>::empty());
    } else {
        let d = subs.drop_last();
        let x = subs.last();
        assert forall|i: int| 0 <= i < d.len() implies (#[trigger] d[i]).wf(evs, next_id) by {
            assert(subs[i].wf(evs, next_id));
        }
        lemma_broadcast_subs(d, evs, next_id, t, e);
        let out_d = d.filter(pred).map_values(dlv);
        assert(d.push(x) =~= subs);
        lemma_filter_push(d, x, pred);
        lemma_events_for_push(evs, x.joined_at as int, rec, x.event_type);
        if pred(x) {
            lemma_map_values_push(d.filter(pred), x, dlv);
            assert(out == out_d.push(dlv(x)));
            assert(x.wf(evs, next_id));
            if x.event_type == t {
                assert(x.taken + x.queue.push(e) =~= (x.taken + x.queue).push(e));
            }
            assert(dlv(x).wf(evs2, next_id));
            assert forall|i: int| 0 <= i < out.len() implies (#[trigger] out[i]).wf(
                evs2,
                next_id,
            ) by {
                if i < out_d.len() {
                    assert(out_d[i].wf(evs2, next_id));
                }
            }
            // `x.id` differs from every id among `out_d`, which are all ids of `d`.
            assert forall|i: int, j: int| 0 <= i < j < out.len() implies out[i].id != out[j].id by {
                if j < out_d.len() {
                    assert(out_d[i].id != out_d[j].id);
                } else {
                    assert(out[j] == dlv(x));
                    let jj = choose|jj: int|
                        0 <= jj < d.len() && out_d[i].id == #[trigger] d[jj].id;
                    assert(subs[jj].id != subs[subs.len() - 1].id);
                }
            }
            assert forall|i: int| 0 <= i < out.len() implies exists|j: int|
                0 <= j < subs.len() && (#[trigger] out[i]).id == (#[trigger] subs[j]).id by {
                if i < out_d.len() {
                    let jj = choose|jj: int|
                        0 <= jj < d.len() && out_d[i].id == #[trigger] d[jj].id;
                    assert(out[i].id == subs[jj].id);
                } else {
                    assert(out[i].id == subs[subs.len() - 1].id);
                }
            }
        } else {
            assert(out == out_d);
            assert forall|i: int| 0 <= i < out.len() implies (#[trigger] out[i]).wf(
                evs2,
                next_id,
            ) by {
                assert(out_d[i].wf(evs2, next_id));
            }
            assert forall|i: int| 0 <= i < out.len() implies exists|j: int|
                0 <= j < subs.len() && (#[trigger] out[i]).id == (#[trigger] subs[j]).id by {
                let jj = choose|jj: int| 0 <= jj < d.len() && out_d[i].id == #[trigger] d[jj].id;
                assert(out[i].id == subs[jj].id);
            }
        }
    }
}

impl RegistryView {
    /// A broadcast leaves a well-formed registry well formed: the surviving
    /// subscribers are consistent with the grown event log and their ids stay
    /// unique.
    pub proof fn lemma_after_broadcast_wf(self, t: WebsocketEventType, e: LogEntryView)
        requires
            self.wf(),
        ensures
            self.after_broadcast(t, e).wf(),
    {
        lemma_broadcast_subs(self.subscribers, self.events, self.next_id, t, e);
    }

    /// Removing one subscriber disturbs nobody else: every other subscriber
    /// stands in the registry afterwards, byte for byte unchanged — queue,
    /// position bookkeeping and all — so it keeps receiving deliveries
    /// exactly as before.
    pub proof fn lemma_unregister_preserves_others(self, id: nat, i: int)
        requires
            self.wf(),
            0 <= i < self.subscribers.len(),
            self.subscribers[i].id != id,
        ensures
            self.subscribers.filter(|s: SubscriberView| s.id != id).contains(
                self.subscribers[i],
            ),
    {
        self.subscribers.lemma_filter_contains(|s: SubscriberView| s.id != id, i);
    }

    /// Exactly-once delivery: in a well-formed registry, what subscriber `i`
    /// has taken so far, followed by what still waits in its queue, is
    /// exactly the sequence of matching events broadcast since it registered
    /// — no duplicate, no gap, in order.
    pub proof fn lemma_exactly_once_delivery(self, i: int)
        requires
            self.wf(),
            0 <= i < self.subscribers.len(),
        ensures
            self.subscribers[i].taken + self.subscribers[i].queue == events_for(
                self.events.skip(self.subscribers[i].joined_at as int),
                self.subscribers[i].event_type,
            ),
    {
    }
}

} // verus!
