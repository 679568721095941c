//! Event bus.
//!
//! Components communicate through events rather than direct coupling. The
//! bus fans every published event out to every open subscription, in
//! publish order, stamped with a per-bus sequence number, a timestamp and
//! the publishing component.
//!
//! The bus owns the queue of each subscription. A [`Subscription`] is the
//! handle through which its queue is read; handing it back with
//! [`Subscription::unsubscribe`] closes it, and so does dropping it: the
//! bus keeps a share of each handle's token and, on the next publish, prunes
//! the subscriptions that are closed or whose handle is gone. Whether a
//! handle is gone is read from the token's pointer count, which depends on
//! code elsewhere; `publish_counted` takes those counts and says exactly what
//! a publish does with them, and the contract of `publish` holds for every
//! answer (`dropping`, `publishes`).

use std::collections::VecDeque;
use std::sync::Arc;
use std::time::{Duration, SystemTime};
use vstd::prelude::*;

use crate::clock;
use crate::task::{TaskId, TaskState};

verus! {

/// A system event.
///
/// Variants for subsystems that do not exist yet (agents, models, voice,
/// permissions, applications) are declared so that the event vocabulary is
/// stable, but nothing in this crate emits them.
#[derive(Debug, Clone, PartialEq, Eq)]
#[non_exhaustive]
pub enum Event {
    RuntimeStarted,
    RuntimeStopping,
    RuntimeStopped,
    ServiceStarted { name: String },
    ServiceStopped { name: String },
    ServiceFailed { name: String, error: String },
    TaskCreated { id: TaskId },
    TaskStateChanged { id: TaskId, from: TaskState, to: TaskState },
    TaskCompleted { id: TaskId },
    AgentStarted { agent: String },
    AgentStopped { agent: String },
    ModelLoaded { model: String },
    ModelUnloaded { model: String },
    VoiceDetected,
    PermissionRequested { subject: String, capability: String },
    PermissionDenied { subject: String, capability: String },
    ApplicationOpened { app: String },
    ApplicationClosed { app: String },
    SystemResourceChanged { resource: String },
}

/// The mathematical value of an [`Event`]: text fields as character sequences.
pub enum EventView {
    RuntimeStarted,
    RuntimeStopping,
    RuntimeStopped,
    ServiceStarted { name: Seq<char> },
    ServiceStopped { name: Seq<char> },
    ServiceFailed { name: Seq<char>, error: Seq<char> },
    TaskCreated { id: TaskId },
    TaskStateChanged { id: TaskId, from: TaskState, to: TaskState },
    TaskCompleted { id: TaskId },
    AgentStarted { agent: Seq<char> },
    AgentStopped { agent: Seq<char> },
    ModelLoaded { model: Seq<char> },
    ModelUnloaded { model: Seq<char> },
    VoiceDetected,
    PermissionRequested { subject: Seq<char>, capability: Seq<char> },
    PermissionDenied { subject: Seq<char>, capability: Seq<char> },
    ApplicationOpened { app: Seq<char> },
    ApplicationClosed { app: Seq<char> },
    SystemResourceChanged { resource: Seq<char> },
}

impl View for Event {
    type V = EventView;

    open spec fn view(&self) -> EventView {
        match self {
            Event::RuntimeStarted => EventView::RuntimeStarted,
            Event::RuntimeStopping => EventView::RuntimeStopping,
            Event::RuntimeStopped => EventView::RuntimeStopped,
            Event::ServiceStarted { name } => EventView::ServiceStarted { name: name@ },
            Event::ServiceStopped { name } => EventView::ServiceStopped { name: name@ },
            Event::ServiceFailed { name, error } => EventView::ServiceFailed {
                name: name@,
                error: error@,
            },
            Event::TaskCreated { id } => EventView::TaskCreated { id: *id },
            Event::TaskStateChanged { id, from, to } => EventView::TaskStateChanged {
                id: *id,
                from: *from,
                to: *to,
            },
            Event::TaskCompleted { id } => EventView::TaskCompleted { id: *id },
            Event::AgentStarted { agent } => EventView::AgentStarted { agent: agent@ },
            Event::AgentStopped { agent } => EventView::AgentStopped { agent: agent@ },
            Event::ModelLoaded { model } => EventView::ModelLoaded { model: model@ },
            Event::ModelUnloaded { model } => EventView::ModelUnloaded { model: model@ },
            Event::VoiceDetected => EventView::VoiceDetected,
            Event::PermissionRequested { subject, capability } => EventView::PermissionRequested {
                subject: subject@,
                capability: capability@,
            },
            Event::PermissionDenied { subject, capability } => EventView::PermissionDenied {
                subject: subject@,
                capability: capability@,
            },
            Event::ApplicationOpened { app } => EventView::ApplicationOpened { app: app@ },
            Event::ApplicationClosed { app } => EventView::ApplicationClosed { app: app@ },
            Event::SystemResourceChanged { resource } => EventView::SystemResourceChanged {
                resource: resource@,
            },
        }
    }
}

impl Event {
    /// An equal event, owned separately.
    pub fn duplicate(&self) -> (r: Event)
        ensures
            r@ == self@,
    {
        match self {
            Event::RuntimeStarted => Event::RuntimeStarted,
            Event::RuntimeStopping => Event::RuntimeStopping,
            Event::RuntimeStopped => Event::RuntimeStopped,
            Event::ServiceStarted { name } => Event::ServiceStarted { name: name.clone() },
            Event::ServiceStopped { name } => Event::ServiceStopped { name: name.clone() },
            Event::ServiceFailed { name, error } => Event::ServiceFailed {
                name: name.clone(),
                error: error.clone(),
            },
            Event::TaskCreated { id } => Event::TaskCreated { id: *id },
            Event::TaskStateChanged { id, from, to } => Event::TaskStateChanged {
                id: *id,
                from: *from,
                to: *to,
            },
            Event::TaskCompleted { id } => Event::TaskCompleted { id: *id },
            Event::AgentStarted { agent } => Event::AgentStarted { agent: agent.clone() },
            Event::AgentStopped { agent } => Event::AgentStopped { agent: agent.clone() },
            Event::ModelLoaded { model } => Event::ModelLoaded { model: model.clone() },
            Event::ModelUnloaded { model } => Event::ModelUnloaded { model: model.clone() },
            Event::VoiceDetected => Event::VoiceDetected,
            Event::PermissionRequested { subject, capability } => Event::PermissionRequested {
                subject: subject.clone(),
                capability: capability.clone(),
            },
            Event::PermissionDenied { subject, capability } => Event::PermissionDenied {
                subject: subject.clone(),
                capability: capability.clone(),
            },
            Event::ApplicationOpened { app } => Event::ApplicationOpened { app: app.clone() },
            Event::ApplicationClosed { app } => Event::ApplicationClosed { app: app.clone() },
            Event::SystemResourceChanged { resource } => Event::SystemResourceChanged {
                resource: resource.clone(),
            },
        }
    }
}

/// An event plus delivery metadata, so every event is traceable.
#[derive(Debug, Clone)]
pub struct EventEnvelope {
    /// Sequence number, unique per bus.
    pub seq: u64,
    pub timestamp: SystemTime,
    /// Component that published the event (e.g. `"core.tasks"`).
    pub source: String,
    pub event: Event,
}

/// What a delivered envelope says: its sequence number, source and event.
/// The timestamp is a clock reading and is left out.
pub struct EnvelopeView {
    pub seq: u64,
    pub source: Seq<char>,
    pub event: EventView,
}

impl View for EventEnvelope {
    type V = EnvelopeView;

    open spec fn view(&self) -> EnvelopeView {
        EnvelopeView { seq: self.seq, source: self.source@, event: self.event@ }
    }
}

impl EventEnvelope {
    fn duplicate(&self) -> (r: EventEnvelope)
        ensures
            r@ == self@,
    {
        EventEnvelope {
            seq: self.seq,
            timestamp: self.timestamp,
            source: self.source.clone(),
            event: self.event.duplicate(),
        }
    }
}

/// The queue of one subscription. The bus holds one clone of the token of
/// the subscription's handle, the handle the other.
#[derive(Debug)]
struct Slot {
    id: u64,
    open: bool,
    queue: VecDeque<EventEnvelope>,
    token: Arc<()>,
}

/// Calls `std::sync::Arc::clone`: a second pointer to the same token.
#[verifier::external_body]
fn share_token(token: &Arc<()>) -> Arc<()> {
    Arc::clone(token)
}

/// Calls `std::sync::Arc::strong_count`: how many pointers to the token
/// exist. That depends on which handles are still alive elsewhere, so only
/// that the one passed in counts is promised.
#[verifier::external_body]
fn token_holders(token: &Arc<()>) -> (n: usize)
    ensures
        n >= 1,
{
    Arc::strong_count(token)
}

/// One subscription as the bus holds it: its identity, whether it is still
/// open, and the envelopes waiting in it, oldest first.
pub struct SlotView {
    pub id: u64,
    pub open: bool,
    pub queue: Seq<EnvelopeView>,
}

impl View for Slot {
    type V = SlotView;

    closed spec fn view(&self) -> SlotView {
        SlotView { id: self.id, open: self.open, queue: self.queue@.map_values(|e: EventEnvelope| e@) }
    }
}

/// The state of a bus: the next sequence number, the next subscription
/// identity, and the subscriptions not yet pruned, oldest first.
pub struct EventBusView {
    pub next_seq: u64,
    pub next_subscriber: u64,
    pub slots: Seq<SlotView>,
}

impl EventBusView {
    /// Subscription identities are increasing and all below `next_subscriber`.
    pub open spec fn wf(self) -> bool {
        &&& forall|i: int, j: int|
            0 <= i < j < self.slots.len() ==> #[trigger] self.slots[i].id < #[trigger] self.slots[j].id
        &&& forall|i: int| 0 <= i < self.slots.len() ==> #[trigger] self.slots[i].id < self.next_subscriber
    }

    /// `k` is the first slot of subscription `id`.
    pub open spec fn first_slot_of(self, id: u64, k: int) -> bool {
        &&& 0 <= k < self.slots.len()
        &&& self.slots[k].id == id
        &&& forall|j: int| 0 <= j < k ==> #[trigger] self.slots[j].id != id
    }

    /// Where the subscription `id` stands among the slots, if it does.
    pub open spec fn position(self, id: u64) -> Option<int> {
        if exists|k: int| #[trigger] self.first_slot_of(id, k) {
            Some(choose|k: int| #[trigger] self.first_slot_of(id, k))
        } else {
            None
        }
    }

    /// The envelopes waiting for subscription `id` (none if it is unknown).
    pub open spec fn pending(self, id: u64) -> Seq<EnvelopeView> {
        match self.position(id) {
            Some(k) => self.slots[k].queue,
            None => Seq::empty(),
        }
    }

    /// The bus after a new subscription: it gets the next identity and an empty queue.
    pub open spec fn subscribed(self) -> EventBusView {
        EventBusView {
            next_seq: self.next_seq,
            next_subscriber: (self.next_subscriber + 1) as u64,
            slots: self.slots.push(SlotView { id: self.next_subscriber, open: true, queue: Seq::empty() }),
        }
    }

    /// The bus after publishing `event` from `source`: the envelope carries the
    /// next sequence number, every open subscription receives it at the end of
    /// its queue, and closed subscriptions are pruned.
    pub open spec fn published(self, source: Seq<char>, event: EventView) -> EventBusView {
        EventBusView {
            next_seq: (if self.next_seq == u64::MAX { 0 } else { self.next_seq + 1 }) as u64,
            next_subscriber: self.next_subscriber,
            slots: deliver(self.slots, EnvelopeView { seq: self.next_seq, source, event }),
        }
    }

    /// The bus with the subscriptions whose handles are gone closed:
    /// `alive[k]` says whether the handle of slot `k` still exists.
    pub open spec fn dropping(self, alive: Seq<bool>) -> EventBusView {
        EventBusView { slots: closing(self.slots, alive), ..self }
    }

    /// The bus after publishing `events`, in order, from `source`, where
    /// `alives[i]` says which handles still existed at the `i`-th publish.
    pub open spec fn published_all(self, source: Seq<char>, events: Seq<EventView>, alives: Seq<Seq<bool>>) -> EventBusView
        decreases events.len(),
    {
        if events.len() == 0 {
            self
        } else {
            self.published_all(source, events.drop_last(), alives.drop_last()).dropping(alives.last()).published(
                source,
                events.last(),
            )
        }
    }

    /// `new` is this bus after publishing `events`, in order, from `source`,
    /// whichever subscription handles were dropped meanwhile.
    pub open spec fn publishes(self, source: Seq<char>, events: Seq<EventView>, new: EventBusView) -> bool {
        exists|alives: Seq<Seq<bool>>|
            alives.len() == events.len() && new == #[trigger] self.published_all(source, events, alives)
    }

    /// Subscription `id` still had its handle at each of those publishes.
    pub open spec fn kept_alive(self, source: Seq<char>, events: Seq<EventView>, alives: Seq<Seq<bool>>, id: u64) -> bool
        decreases events.len(),
    {
        if events.len() == 0 {
            true
        } else {
            &&& self.kept_alive(source, events.drop_last(), alives.drop_last(), id)
            &&& match self.published_all(source, events.drop_last(), alives.drop_last()).position(id) {
                Some(k) => alives.last()[k],
                None => true,
            }
        }
    }

    /// The bus after the oldest envelope for `id` has been taken, if there was one.
    pub open spec fn received(self, id: u64) -> EventBusView {
        match self.position(id) {
            Some(k) => if self.slots[k].queue.len() > 0 {
                EventBusView {
                    slots: self.slots.update(
                        k,
                        SlotView { queue: self.slots[k].queue.drop_first(), ..self.slots[k] },
                    ),
                    ..self
                }
            } else {
                self
            },
            None => self,
        }
    }

    /// The bus after the queue of `id` has been emptied.
    pub open spec fn drained(self, id: u64) -> EventBusView {
        match self.position(id) {
            Some(k) => EventBusView {
                slots: self.slots.update(k, SlotView { queue: Seq::empty(), ..self.slots[k] }),
                ..self
            },
            None => self,
        }
    }

    /// The bus after subscription `id` has been closed; it is pruned on the next publish.
    pub open spec fn closed(self, id: u64) -> EventBusView {
        match self.position(id) {
            Some(k) => EventBusView {
                slots: self.slots.update(
                    k,
                    SlotView { open: false, queue: Seq::empty(), ..self.slots[k] },
                ),
                ..self
            },
            None => self,
        }
    }
}

/// Publishing one more event after a sequence of events.
pub proof fn lemma_published_all_push(
    b: EventBusView,
    source: Seq<char>,
    events: Seq<EventView>,
    alives: Seq<Seq<bool>>,
    e: EventView,
    alive: Seq<bool>,
)
    ensures
        b.published_all(source, events.push(e), alives.push(alive)) == b.published_all(source, events, alives).dropping(
            alive,
        ).published(source, e),
{
    assert(events.push(e).drop_last() =~= events);
    assert(alives.push(alive).drop_last() =~= alives);
}

/// Publishing two sequences of events one after the other.
pub proof fn lemma_published_all_append(
    b: EventBusView,
    source: Seq<char>,
    a: Seq<EventView>,
    alives_a: Seq<Seq<bool>>,
    c: Seq<EventView>,
    alives_c: Seq<Seq<bool>>,
)
    requires
        alives_a.len() == a.len(),
        alives_c.len() == c.len(),
    ensures
        b.published_all(source, a + c, alives_a + alives_c) == b.published_all(source, a, alives_a).published_all(
            source,
            c,
            alives_c,
        ),
    decreases c.len(),
{
    if c.len() == 0 {
        assert(a + c =~= a);
        assert(alives_a + alives_c =~= alives_a);
    } else {
        lemma_published_all_append(b, source, a, alives_a, c.drop_last(), alives_c.drop_last());
        assert((a + c).drop_last() =~= a + c.drop_last());
        assert((alives_a + alives_c).drop_last() =~= alives_a + alives_c.drop_last());
        assert((a + c).last() == c.last());
        assert((alives_a + alives_c).last() == alives_c.last());
    }
}

/// Publishing nothing leaves a bus as it is.
pub proof fn lemma_publishes_nothing(b: EventBusView, source: Seq<char>)
    ensures
        b.publishes(source, Seq::empty(), b),
{
    assert(b.published_all(source, Seq::empty(), Seq::empty()) == b);
}

/// One more publish, as `EventBus::publish` reports it, extends a run of publishes.
pub proof fn lemma_publishes_then(
    b: EventBusView,
    mid: EventBusView,
    new: EventBusView,
    source: Seq<char>,
    events: Seq<EventView>,
    e: EventView,
)
    requires
        b.publishes(source, events, mid),
        exists|alive: Seq<bool>|
            alive.len() == mid.slots.len() && new == #[trigger] mid.dropping(alive).published(source, e),
    ensures
        b.publishes(source, events.push(e), new),
{
    let alive = choose|alive: Seq<bool>|
        alive.len() == mid.slots.len() && new == #[trigger] mid.dropping(alive).published(source, e);
    let alives = choose|alives: Seq<Seq<bool>>|
        alives.len() == events.len() && mid == #[trigger] b.published_all(source, events, alives);
    lemma_published_all_push(b, source, events, alives, e, alive);
    assert(alives.push(alive).len() == events.push(e).len());
}

/// Two runs of publishes one after the other make one run.
pub proof fn lemma_publishes_append(
    b: EventBusView,
    mid: EventBusView,
    new: EventBusView,
    source: Seq<char>,
    a: Seq<EventView>,
    c: Seq<EventView>,
)
    requires
        b.publishes(source, a, mid),
        mid.publishes(source, c, new),
    ensures
        b.publishes(source, a + c, new),
{
    let alives_a = choose|alives: Seq<Seq<bool>>|
        alives.len() == a.len() && mid == #[trigger] b.published_all(source, a, alives);
    let alives_c = choose|alives: Seq<Seq<bool>>|
        alives.len() == c.len() && new == #[trigger] mid.published_all(source, c, alives);
    lemma_published_all_append(b, source, a, alives_a, c, alives_c);
    assert((alives_a + alives_c).len() == (a + c).len());
}

/// Which handles still exist, given how many pointers to each token there
/// are: the bus holds one, a live handle another.
pub open spec fn handles_alive(holders: Seq<usize>) -> Seq<bool> {
    Seq::new(holders.len(), |k: int| holders[k] > 1)
}

/// The slots of `slots`, each closed unless `alive` says its handle still exists.
pub open spec fn closing(slots: Seq<SlotView>, alive: Seq<bool>) -> Seq<SlotView> {
    Seq::new(
        slots.len(),
        |k: int| if alive[k] { slots[k] } else { SlotView { open: false, ..slots[k] } },
    )
}

/// `slot` with `env` appended to its queue.
pub open spec fn pushed(slot: SlotView, env: EnvelopeView) -> SlotView {
    SlotView { queue: slot.queue.push(env), ..slot }
}

/// The open slots of `slots`, in order, each with `env` appended to its queue.
pub open spec fn deliver(slots: Seq<SlotView>, env: EnvelopeView) -> Seq<SlotView>
    decreases slots.len(),
{
    if slots.len() == 0 {
        Seq::empty()
    } else {
        let rest = deliver(slots.drop_last(), env);
        if slots.last().open {
            rest.push(pushed(slots.last(), env))
        } else {
            rest
        }
    }
}

/// The sequence number `i` places after `n`, wrapping as the bus counter does.
pub open spec fn seq_after(n: u64, i: int) -> u64 {
    ((n + i) % 0x1_0000_0000_0000_0000) as u64
}

/// The envelopes that publishing `events` from `source` produces when the
/// bus's next sequence number is `n`.
pub open spec fn envelopes(n: u64, source: Seq<char>, events: Seq<EventView>) -> Seq<EnvelopeView> {
    Seq::new(events.len(), |i: int| EnvelopeView { seq: seq_after(n, i), source, event: events[i] })
}

/// Number of open slots.
spec fn open_count(slots: Seq<SlotView>) -> nat
    decreases slots.len(),
{
    if slots.len() == 0 {
        0
    } else {
        open_count(slots.drop_last()) + if slots.last().open { 1nat } else { 0nat }
    }
}

/// Index, among `slots`, of the slot that delivery places at position `j`.
spec fn origin(slots: Seq<SlotView>, j: int) -> int
    decreases slots.len(),
{
    if slots.len() == 0 {
        0
    } else if j < open_count(slots.drop_last()) {
        origin(slots.drop_last(), j)
    } else {
        slots.len() - 1
    }
}

/// Position, after delivery, of the open slot `k`.
spec fn rank(slots: Seq<SlotView>, k: int) -> int
    decreases slots.len(),
{
    if slots.len() == 0 {
        0
    } else if k == slots.len() - 1 {
        open_count(slots.drop_last()) as int
    } else {
        rank(slots.drop_last(), k)
    }
}

proof fn lemma_deliver(slots: Seq<SlotView>, env: EnvelopeView)
    ensures
        deliver(slots, env).len() == open_count(slots),
        forall|j: int| #![trigger origin(slots, j)]
            0 <= j < open_count(slots) ==> {
                &&& 0 <= origin(slots, j) < slots.len()
                &&& slots[origin(slots, j)].open
                &&& deliver(slots, env)[j] == pushed(slots[origin(slots, j)], env)
            },
        forall|j1: int, j2: int| #![trigger origin(slots, j1), origin(slots, j2)]
            0 <= j1 < j2 < open_count(slots) ==> origin(slots, j1) < origin(slots, j2),
        forall|k: int| #![trigger slots[k]]
            0 <= k < slots.len() && slots[k].open ==> {
                &&& 0 <= rank(slots, k) < open_count(slots)
                &&& origin(slots, rank(slots, k)) == k
            },
    decreases slots.len(),
{
    if slots.len() > 0 {
        let init = slots.drop_last();
        let n = slots.len() - 1;
        lemma_deliver(init, env);
        let d = deliver(slots, env);
        let di = deliver(init, env);
        let oc = open_count(init) as int;
        assert forall|j: int| #![trigger origin(slots, j)]
            0 <= j < open_count(slots) implies (0 <= origin(slots, j) < slots.len()
                && slots[origin(slots, j)].open
                && deliver(slots, env)[j] == pushed(slots[origin(slots, j)], env)) by {
            if j < oc {
                assert(di[j] == pushed(init[origin(init, j)], env));
                assert(d[j] == di[j]);
                assert(init[origin(init, j)] == slots[origin(init, j)]);
            } else {
                assert(slots.last().open);
                assert(d[j] == pushed(slots.last(), env));
            }
        }
        assert forall|j1: int, j2: int| #![trigger origin(slots, j1), origin(slots, j2)]
            0 <= j1 < j2 < open_count(slots) implies origin(slots, j1) < origin(slots, j2) by {
            if j2 < oc {
                assert(origin(init, j1) < origin(init, j2));
            } else {
                assert(di[j1] == pushed(init[origin(init, j1)], env));
            }
        }
        assert forall|k: int| #![trigger slots[k]]
            0 <= k < slots.len() && slots[k].open implies (0 <= rank(slots, k) < open_count(slots)
                && origin(slots, rank(slots, k)) == k) by {
            if k < n {
                assert(init[k] == slots[k]);
            }
        }
    } else {
        assert(open_count(slots) == 0);
    }
}

proof fn lemma_position_of(b: EventBusView, id: u64, k: int)
    requires
        b.wf(),
        0 <= k < b.slots.len(),
        b.slots[k].id == id,
    ensures
        b.position(id) == Some(k),
{
    assert(b.first_slot_of(id, k));
    assert forall|k2: int| #[trigger] b.first_slot_of(id, k2) implies k2 == k by {
        if k2 < k {
            assert(b.slots[k2].id < b.slots[k].id);
        } else if k2 > k {
            assert(b.slots[k].id < b.slots[k2].id);
        }
    }
}

proof fn lemma_no_position(b: EventBusView, id: u64)
    requires
        forall|k: int| 0 <= k < b.slots.len() ==> #[trigger] b.slots[k].id != id,
    ensures
        b.position(id) is None,
{
    assert forall|k: int| !#[trigger] b.first_slot_of(id, k) by {
        if 0 <= k < b.slots.len() {
            assert(b.slots[k].id != id);
        }
    }
}

/// Closing the slots whose handles are gone keeps a bus well formed and every
/// subscription where it stands; a slot stays open only if its handle exists.
proof fn lemma_dropping(b: EventBusView, alive: Seq<bool>, id: u64)
    requires
        b.wf(),
    ensures
        b.dropping(alive).wf(),
        b.dropping(alive).position(id) == b.position(id),
        b.dropping(alive).pending(id) == b.pending(id),
        b.position(id) matches Some(k) ==> b.dropping(alive).slots[k].open == (b.slots[k].open && alive[k]),
{
    let d = b.dropping(alive);
    assert forall|k: int| 0 <= k < b.slots.len() implies #[trigger] d.slots[k].id == b.slots[k].id by {}
    assert forall|i: int, j: int| 0 <= i < j < d.slots.len() implies #[trigger] d.slots[i].id < #[trigger] d.slots[j].id by {
        assert(d.slots[i].id == b.slots[i].id);
        assert(d.slots[j].id == b.slots[j].id);
    }
    assert forall|i: int| 0 <= i < d.slots.len() implies #[trigger] d.slots[i].id < d.next_subscriber by {
        assert(d.slots[i].id == b.slots[i].id);
    }
    if b.position(id) is Some {
        let k = b.position(id)->Some_0;
        assert(b.first_slot_of(id, k));
        lemma_position_of(d, id, k);
    } else {
        assert forall|k: int| 0 <= k < d.slots.len() implies #[trigger] d.slots[k].id != id by {
            if b.slots[k].id == id {
                lemma_position_of(b, id, k);
            }
        }
        lemma_no_position(d, id);
    }
}

/// A subscription whose handle was dropped is gone after the next publish.
pub proof fn law_publish_prunes_dropped(b: EventBusView, alive: Seq<bool>, source: Seq<char>, e: EventView, id: u64)
    requires
        b.wf(),
        b.position(id) matches Some(k) && !alive[k],
    ensures
        b.dropping(alive).published(source, e).position(id) is None,
{
    lemma_dropping(b, alive, id);
    law_publish_prunes_closed(b.dropping(alive), source, e, id);
}

/// Publishing keeps a bus well formed.
pub proof fn law_publish_keeps_wf(b: EventBusView, source: Seq<char>, e: EventView)
    requires
        b.wf(),
    ensures
        b.published(source, e).wf(),
{
    let env = EnvelopeView { seq: b.next_seq, source, event: e };
    let d = deliver(b.slots, env);
    lemma_deliver(b.slots, env);
    let p = b.published(source, e);
    assert forall|i: int, j: int| 0 <= i < j < p.slots.len() implies #[trigger] p.slots[i].id < #[trigger] p.slots[j].id by {
        assert(d[i] == pushed(b.slots[origin(b.slots, i)], env));
        assert(d[j] == pushed(b.slots[origin(b.slots, j)], env));
        assert(origin(b.slots, i) < origin(b.slots, j));
    }
    assert forall|i: int| 0 <= i < p.slots.len() implies #[trigger] p.slots[i].id < p.next_subscriber by {
        assert(d[i] == pushed(b.slots[origin(b.slots, i)], env));
    }
}

/// An open subscription receives a published event at the end of its queue,
/// stamped with the bus's next sequence number and the publishing source,
/// and stays open.
pub proof fn law_publish_delivers(b: EventBusView, source: Seq<char>, e: EventView, id: u64)
    requires
        b.wf(),
        b.position(id) matches Some(k) && b.slots[k].open,
    ensures
        b.published(source, e).pending(id) == b.pending(id).push(EnvelopeView { seq: b.next_seq, source, event: e }),
        b.published(source, e).position(id) matches Some(k) && b.published(source, e).slots[k].open,
{
    let env = EnvelopeView { seq: b.next_seq, source, event: e };
    let k = b.position(id)->Some_0;
    let p = b.published(source, e);
    lemma_deliver(b.slots, env);
    law_publish_keeps_wf(b, source, e);
    let j = rank(b.slots, k);
    assert(b.slots[k].open);
    assert(p.slots[j] == pushed(b.slots[k], env));
    lemma_position_of(p, id, j);
}

/// A closed subscription is gone after the next publish.
pub proof fn law_publish_prunes_closed(b: EventBusView, source: Seq<char>, e: EventView, id: u64)
    requires
        b.wf(),
        b.position(id) matches Some(k) && !b.slots[k].open,
    ensures
        b.published(source, e).position(id) is None,
{
    let env = EnvelopeView { seq: b.next_seq, source, event: e };
    let k = b.position(id)->Some_0;
    let p = b.published(source, e);
    lemma_deliver(b.slots, env);
    assert forall|j: int| 0 <= j < p.slots.len() implies #[trigger] p.slots[j].id != id by {
        let o = origin(b.slots, j);
        assert(p.slots[j] == pushed(b.slots[o], env));
        assert(o != k);
        if o < k {
            assert(b.slots[o].id < b.slots[k].id);
        } else {
            assert(b.slots[k].id < b.slots[o].id);
        }
    }
    lemma_no_position(p, id);
}

/// After a publish the bus holds exactly the subscriptions that were open
/// and whose handle still existed.
pub proof fn law_publish_keeps_exactly_the_live(b: EventBusView, alive: Seq<bool>, source: Seq<char>, e: EventView, id: u64)
    requires
        b.wf(),
    ensures
        b.dropping(alive).published(source, e).position(id) is Some <==> (b.position(id) matches Some(k)
            && b.slots[k].open && alive[k]),
{
    lemma_dropping(b, alive, id);
    let d = b.dropping(alive);
    match b.position(id) {
        Some(k) => {
            if b.slots[k].open && alive[k] {
                law_publish_delivers(d, source, e, id);
            } else {
                law_publish_prunes_closed(d, source, e, id);
            }
        },
        None => {
            let env = EnvelopeView { seq: d.next_seq, source, event: e };
            let p = d.published(source, e);
            lemma_deliver(d.slots, env);
            assert forall|j: int| 0 <= j < p.slots.len() implies #[trigger] p.slots[j].id != id by {
                let o = origin(d.slots, j);
                assert(p.slots[j] == pushed(d.slots[o], env));
                if d.slots[o].id == id {
                    lemma_position_of(d, id, o);
                }
            }
            lemma_no_position(p, id);
        },
    }
}

/// A publish given holder counts serves an open subscription whose token has
/// more than one holder (its handle still exists): the envelope goes to the
/// end of its queue, and it stays open.
pub proof fn law_counted_publish_serves_held_subscriptions(
    b: EventBusView,
    holders: Seq<usize>,
    source: Seq<char>,
    e: EventView,
    id: u64,
)
    requires
        b.wf(),
        holders.len() == b.slots.len(),
        b.position(id) matches Some(k) && b.slots[k].open && holders[k] > 1,
    ensures
        b.dropping(handles_alive(holders)).published(source, e).pending(id) == b.pending(id).push(
            EnvelopeView { seq: b.next_seq, source, event: e },
        ),
        b.dropping(handles_alive(holders)).published(source, e).position(id) is Some,
{
    lemma_dropping(b, handles_alive(holders), id);
    law_publish_delivers(b.dropping(handles_alive(holders)), source, e, id);
}

/// A publish given holder counts prunes every subscription whose token has
/// no holder but the bus (its handle is gone), whatever its queue holds.
pub proof fn law_counted_publish_prunes_dropped_handles(
    b: EventBusView,
    holders: Seq<usize>,
    source: Seq<char>,
    e: EventView,
    id: u64,
)
    requires
        b.wf(),
        holders.len() == b.slots.len(),
        b.position(id) matches Some(k) && holders[k] <= 1,
    ensures
        b.dropping(handles_alive(holders)).published(source, e).position(id) is None,
{
    law_publish_prunes_dropped(b, handles_alive(holders), source, e, id);
}

/// A new subscription starts with an empty queue: it does not see events
/// published before it subscribed.
pub proof fn law_subscriber_starts_empty(b: EventBusView)
    requires
        b.wf(),
        b.next_subscriber < u64::MAX,
    ensures
        b.subscribed().wf(),
        b.subscribed().position(b.next_subscriber) matches Some(k) && b.subscribed().slots[k].open,
        b.subscribed().pending(b.next_subscriber) == Seq::<EnvelopeView>::empty(),
{
    let s = b.subscribed();
    let k = b.slots.len() as int;
    assert(s.slots[k].id == b.next_subscriber);
    assert forall|i: int, j: int| 0 <= i < j < s.slots.len() implies #[trigger] s.slots[i].id < #[trigger] s.slots[j].id by {
        if j == k {
            assert(s.slots[i] == b.slots[i]);
        } else {
            assert(s.slots[i] == b.slots[i]);
            assert(s.slots[j] == b.slots[j]);
        }
    }
    assert forall|i: int| 0 <= i < s.slots.len() implies #[trigger] s.slots[i].id < s.next_subscriber by {
        if i < k {
            assert(s.slots[i] == b.slots[i]);
        }
    }
    lemma_position_of(s, b.next_subscriber, k);
}

/// Taking from a queue, draining it or closing a subscription keeps a bus well formed.
pub proof fn law_queue_operations_keep_wf(b: EventBusView, id: u64)
    requires
        b.wf(),
    ensures
        b.received(id).wf(),
        b.drained(id).wf(),
        b.closed(id).wf(),
{
    if b.position(id) is Some {
        assert forall|i: int| 0 <= i < b.slots.len() implies #[trigger] b.received(id).slots[i].id == b.slots[i].id by {}
        assert forall|i: int| 0 <= i < b.slots.len() implies #[trigger] b.drained(id).slots[i].id == b.slots[i].id by {}
        assert forall|i: int| 0 <= i < b.slots.len() implies #[trigger] b.closed(id).slots[i].id == b.slots[i].id by {}
    }
}

proof fn lemma_seq_after_step(n: u64, i: int)
    requires
        0 <= i,
    ensures
        seq_after(seq_after(n, i), 1) == seq_after(n, i + 1),
        seq_after(n, 0) == n,
{
    let m: int = 0x1_0000_0000_0000_0000;
    let a = (n + i) % m;
    assert(0 <= a < m);
    assert(((a + 1) % m) == ((n + i + 1) % m)) by (nonlinear_arith)
        requires
            a == (n + i) % m,
            m == 0x1_0000_0000_0000_0000,
            0 <= n,
            0 <= i,
    {
        vstd::arithmetic::div_mod::lemma_add_mod_noop(n + i, 1, m);
        vstd::arithmetic::div_mod::lemma_small_mod(1nat, m as nat);
    }
}

/// Every open subscription whose handle is kept receives every published
/// event, in publish order, with consecutive sequence numbers: its queue grows
/// by exactly the envelopes of the events published.
pub proof fn law_every_subscriber_receives_every_event_in_order(
    b: EventBusView,
    source: Seq<char>,
    events: Seq<EventView>,
    alives: Seq<Seq<bool>>,
    id: u64,
)
    requires
        b.wf(),
        b.position(id) matches Some(k) && b.slots[k].open,
        b.kept_alive(source, events, alives, id),
    ensures
        b.published_all(source, events, alives).wf(),
        b.published_all(source, events, alives).next_seq == seq_after(b.next_seq, events.len() as int),
        b.published_all(source, events, alives).pending(id) == b.pending(id) + envelopes(b.next_seq, source, events),
        b.published_all(source, events, alives).position(id) matches Some(k)
            && b.published_all(source, events, alives).slots[k].open,
    decreases events.len(),
{
    lemma_seq_after_step(b.next_seq, 0);
    if events.len() == 0 {
        assert(envelopes(b.next_seq, source, events) =~= Seq::<EnvelopeView>::empty());
        assert(b.pending(id) + Seq::<EnvelopeView>::empty() =~= b.pending(id));
    } else {
        let init = events.drop_last();
        let alive = alives.last();
        law_every_subscriber_receives_every_event_in_order(b, source, init, alives.drop_last(), id);
        let mid = b.published_all(source, init, alives.drop_last());
        lemma_dropping(mid, alive, id);
        let md = mid.dropping(alive);
        law_publish_keeps_wf(md, source, events.last());
        law_publish_delivers(md, source, events.last(), id);
        lemma_seq_after_step(b.next_seq, init.len() as int);
        assert(md.published(source, events.last()).next_seq == seq_after(mid.next_seq, 1));
        assert(b.pending(id) + envelopes(b.next_seq, source, events) =~= (b.pending(id) + envelopes(
            b.next_seq,
            source,
            init,
        )).push(EnvelopeView { seq: mid.next_seq, source, event: events.last() }));
    }
}

/// Fan-out event bus.
#[derive(Debug)]
pub struct EventBus {
    next_seq: u64,
    next_subscriber: u64,
    slots: Vec<Slot>,
}

impl View for EventBus {
    type V = EventBusView;

    closed spec fn view(&self) -> EventBusView {
        EventBusView {
            next_seq: self.next_seq,
            next_subscriber: self.next_subscriber,
            slots: self.slots@.map_values(|s: Slot| s@),
        }
    }
}

impl Default for EventBus {
    fn default() -> (bus: EventBus)
        ensures
            bus@ == (EventBusView { next_seq: 0, next_subscriber: 0, slots: Seq::empty() }),
    {
        EventBus::new()
    }
}

impl EventBus {
    pub fn new() -> (bus: EventBus)
        ensures
            bus@ == (EventBusView { next_seq: 0, next_subscriber: 0, slots: Seq::empty() }),
            bus@.wf(),
    {
        let bus = EventBus { next_seq: 0, next_subscriber: 0, slots: Vec::new() };
        assert(bus@.slots =~= Seq::<SlotView>::empty());
        bus
    }

    /// Register a new subscriber. It receives only events published after this call.
    pub fn subscribe(&mut self) -> (sub: Subscription)
        requires
            old(self)@.next_subscriber < u64::MAX,
        ensures
            sub@ == old(self)@.next_subscriber,
            final(self)@ == old(self)@.subscribed(),
    {
        let id = self.next_subscriber;
        let token = Arc::new(());
        let slot = Slot { id, open: true, queue: VecDeque::new(), token: share_token(&token) };
        assert(slot@.queue =~= Seq::<EnvelopeView>::empty());
        self.slots.push(slot);
        self.next_subscriber = id + 1;
        assert(self@.slots =~= old(self)@.slots.push(slot@));
        Subscription { id, token }
    }

    /// Publish an event to every open subscriber whose handle still exists,
    /// and prune the others. Returns the sequence number assigned to the event.
    pub fn publish(&mut self, source: &str, event: Event) -> (seq: u64)
        ensures
            seq == old(self)@.next_seq,
            exists|alive: Seq<bool>|
                alive.len() == old(self)@.slots.len()
                && final(self)@ == #[trigger] old(self)@.dropping(alive).published(source@, event@),
    {
        let mut holders: Vec<usize> = Vec::new();
        let mut k: usize = 0;
        while k < self.slots.len()
            invariant
                k <= self.slots@.len(),
                holders@.len() == k,
                *self == *old(self),
            decreases self.slots@.len() - k,
        {
            holders.push(token_holders(&self.slots[k].token));
            k = k + 1;
        }
        self.publish_counted(source, event, &holders)
    }

    /// Publish an event, given for each subscription how many pointers to its
    /// handle's token exist, the bus's own included: a subscription is served
    /// when it is open and that count is above one (its handle still exists);
    /// every other one is pruned. Returns the sequence number assigned to the event.
    pub fn publish_counted(&mut self, source: &str, event: Event, holders: &Vec<usize>) -> (seq: u64)
        requires
            holders@.len() == old(self)@.slots.len(),
        ensures
            seq == old(self)@.next_seq,
            final(self)@ == old(self)@.dropping(handles_alive(holders@)).published(source@, event@),
    {
        let seq = self.next_seq;
        let envelope = EventEnvelope {
            seq,
            timestamp: clock::now(),
            source: source.to_owned(),
            event,
        };
        let ghost env = envelope@;
        let mut old_slots: Vec<Slot> = Vec::new();
        std::mem::swap(&mut old_slots, &mut self.slots);
        let ghost olds = old_slots@.map_values(|s: Slot| s@);
        assert(olds == old(self)@.slots);
        let ghost old_vec = old_slots@;
        let ghost mut alive: Seq<bool> = Seq::empty();
        let mut kept: Vec<Slot> = Vec::new();
        assert(closing(olds.take(0), alive) =~= Seq::<SlotView>::empty());
        let count: usize = holders.len();
        let mut idx: usize = 0;
        for slot in it: old_slots
            invariant
                count == holders@.len(),
                it.seq() == old_vec,
                olds == old_vec.map_values(|s: Slot| s@),
                holders@.len() == old_vec.len(),
                idx == it.index(),
                alive.len() == it.index(),
                forall|j: int| 0 <= j < alive.len() ==> #[trigger] alive[j] == (holders@[j] > 1),
                kept@.map_values(|s: Slot| s@) == deliver(closing(olds.take(it.index() as int), alive), env),
                env == envelope@,
        {
            let ghost i = it.index();
            let ghost before = kept@;
            assert(idx < count);
            let live = holders[idx] > 1;
            proof {
                let a2 = alive.push(live);
                let c2 = closing(olds.take(i + 1), a2);
                assert(c2.drop_last() =~= closing(olds.take(i as int), alive));
                assert(olds.take(i + 1).last() == slot@);
                alive = a2;
            }
            if slot.open && live {
                let mut slot = slot;
                slot.queue.push_back(envelope.duplicate());
                kept.push(slot);
                assert(slot@.queue =~= olds[i as int].queue.push(env));
                assert(kept@.map_values(|s: Slot| s@) =~= before.map_values(|s: Slot| s@).push(slot@));
            }
            idx = idx + 1;
        }
        assert(olds.take(olds.len() as int) =~= olds);
        self.next_seq = seq.wrapping_add(1);
        self.slots = kept;
        assert(alive =~= handles_alive(holders@));
        seq
    }

    /// Number of subscriptions not yet pruned.
    pub fn subscriber_count(&self) -> (n: usize)
        ensures
            n == self@.slots.len(),
    {
        self.slots.len()
    }

    /// Index of subscription `id` among the slots.
    fn find(&self, id: u64) -> (r: Option<usize>)
        ensures
            r matches Some(k) ==> self@.position(id) == Some(k as int) && k < self@.slots.len(),
            r is None ==> self@.position(id) is None,
    {
        let mut k: usize = 0;
        while k < self.slots.len()
            invariant
                0 <= k <= self.slots@.len(),
                forall|j: int| 0 <= j < k ==> #[trigger] self@.slots[j].id != id,
            decreases self.slots@.len() - k,
        {
            if self.slots[k].id == id {
                assert(self@.first_slot_of(id, k as int));
                assert forall|k2: int| #[trigger] self@.first_slot_of(id, k2) implies k2 == k by {
                    if k2 < k {
                        assert(self@.slots[k2].id != id);
                    } else if k2 > k {
                        assert(self@.slots[k as int].id != id);
                    }
                }
                return Some(k);
            }
            k = k + 1;
        }
        assert forall|k2: int| !#[trigger] self@.first_slot_of(id, k2) by {
            if 0 <= k2 < self@.slots.len() {
                assert(self@.slots[k2].id != id);
            }
        }
        None
    }
}

/// Receiving end of a bus subscription. Dropping it unsubscribes: the bus
/// prunes it on the next publish.
#[derive(Debug)]
pub struct Subscription {
    id: u64,
    token: Arc<()>,
}

impl View for Subscription {
    type V = u64;

    closed spec fn view(&self) -> u64 {
        self.id
    }
}

impl Subscription {
    /// Take the oldest envelope waiting for this subscription, if any.
    pub fn try_recv(&self, bus: &mut EventBus) -> (r: Option<EventEnvelope>)
        ensures
            final(bus)@ == old(bus)@.received(self@),
            old(bus)@.pending(self@).len() == 0 ==> r is None,
            old(bus)@.pending(self@).len() > 0 ==> (r matches Some(e) && e@ == old(bus)@.pending(self@)[0]),
    {
        match bus.find(self.id) {
            Some(k) => {
                let ghost b = bus@;
                let r = bus.slots[k].queue.pop_front();
                proof {
                    if b.slots[k as int].queue.len() > 0 {
                        assert(bus@.slots[k as int].queue =~= b.slots[k as int].queue.drop_first());
                        assert(bus@.slots =~= b.slots.update(
                            k as int,
                            SlotView { queue: b.slots[k as int].queue.drop_first(), ..b.slots[k as int] },
                        ));
                    } else {
                        assert(bus@.slots =~= b.slots);
                    }
                }
                r
            },
            None => None,
        }
    }

    /// Receive with a timeout. No publisher can run while the bus is borrowed
    /// here, so waiting cannot change the outcome: this is `try_recv`.
    pub fn recv_timeout(&self, bus: &mut EventBus, timeout: Duration) -> (r: Option<EventEnvelope>)
        ensures
            final(bus)@ == old(bus)@.received(self@),
            old(bus)@.pending(self@).len() == 0 ==> r is None,
            old(bus)@.pending(self@).len() > 0 ==> (r matches Some(e) && e@ == old(bus)@.pending(self@)[0]),
    {
        self.try_recv(bus)
    }

    /// Close this subscription. Its queue is dropped at once; it stops
    /// counting as a subscriber when the next event is published.
    pub fn unsubscribe(self, bus: &mut EventBus)
        ensures
            final(bus)@ == old(bus)@.closed(self@),
    {
        match bus.find(self.id) {
            Some(k) => {
                let ghost b = bus@;
                bus.slots[k].open = false;
                bus.slots[k].queue.clear();
                proof {
                    assert(bus@.slots[k as int].queue =~= Seq::empty());
                    assert(bus@.slots =~= b.slots.update(
                        k as int,
                        SlotView { open: false, queue: Seq::empty(), ..b.slots[k as int] },
                    ));
                }
            },
            None => {},
        }
    }

    /// Take all envelopes waiting for this subscription, oldest first.
    pub fn drain(&self, bus: &mut EventBus) -> (r: Vec<EventEnvelope>)
        ensures
            final(bus)@ == old(bus)@.drained(self@),
            r@.map_values(|e: EventEnvelope| e@) == old(bus)@.pending(self@),
    {
        match bus.find(self.id) {
            Some(k) => {
                let ghost b = bus@;
                let mut out: Vec<EventEnvelope> = Vec::new();
                let ghost q = b.slots[k as int].queue;
                while bus.slots[k].queue.len() > 0
                    invariant
                        k < bus@.slots.len(),
                        bus@.slots.len() == b.slots.len(),
                        forall|j: int| 0 <= j < b.slots.len() && j != k ==> bus@.slots[j] == b.slots[j],
                        bus@.slots[k as int].id == b.slots[k as int].id,
                        bus@.slots[k as int].open == b.slots[k as int].open,
                        q == out@.map_values(|e: EventEnvelope| e@) + bus@.slots[k as int].queue,
                        bus@.next_seq == b.next_seq,
                        bus@.next_subscriber == b.next_subscriber,
                    decreases bus@.slots[k as int].queue.len(),
                {
                    let e = bus.slots[k].queue.pop_front();
                    match e {
                        Some(e) => {
                            out.push(e);
                        },
                        None => {},
                    }
                }
                proof {
                    assert(bus@.slots[k as int].queue.len() == 0);
                    assert(bus@.slots[k as int].queue =~= Seq::empty());
                    assert(out@.map_values(|e: EventEnvelope| e@) =~= q);
                    assert(bus@.slots =~= b.slots.update(
                        k as int,
                        SlotView { queue: Seq::empty(), ..b.slots[k as int] },
                    ));
                }
                out
            },
            None => Vec::new(),
        }
    }
}

} // verus!
