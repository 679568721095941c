//! Core runtime and service lifecycle.
//!
//! Services start in registration order and stop in reverse order. If any
//! service fails to start, every already-started service is stopped again
//! and the runtime returns to `Stopped`: no half-started system.

use vstd::prelude::*;
use vstd::string::*;

use crate::config::RefxConfig;
use crate::event::{
    lemma_publishes_append, lemma_publishes_nothing, lemma_publishes_then, Event, EventBus, EventBusView,
    EventView,
};
use crate::seqs::{lemma_map_push, lemma_take_push};
use crate::task::{
    holds, moved, new_task, opt_str, transition_events, well_formed, Priority, TaskError, TaskId, TaskManager, TaskState,
    TaskView,
};
use crate::text::trim;

verus! {

/// Component name under which runtime events are published.
pub const SOURCE: &'static str = "core.runtime";

/// Shared state every service receives on start. Its tasks publish their
/// events on its own bus through `create_task` and `transition_task`.
#[derive(Debug)]
pub struct ServiceContext {
    pub config: RefxConfig,
    pub bus: EventBus,
    pub tasks: TaskManager,
}

impl ServiceContext {
    /// Create a task, publishing its event on this context's own bus.
    pub fn create_task(&mut self, user_request: &str, priority: Priority) -> (r: Result<TaskId, TaskError>)
        requires
            old(self).tasks@.len() < usize::MAX,
        ensures
            trim(user_request@).len() == 0 ==> {
                &&& r == Err::<TaskId, TaskError>(TaskError::EmptyRequest)
                &&& final(self).tasks@ == old(self).tasks@
                &&& final(self).bus@ == old(self).bus@
            },
            trim(user_request@).len() > 0 ==> {
                let id = TaskId((old(self).tasks@.len() + 1) as u64);
                &&& r == Ok::<TaskId, TaskError>(id)
                &&& final(self).tasks@ == old(self).tasks@.push(
                    new_task(id, trim(user_request@), priority, final(self).tasks@.last().created),
                )
                &&& old(self).bus@.publishes(crate::task::SOURCE@, seq![EventView::TaskCreated { id }], final(self).bus@)
            },
            well_formed(final(self).tasks@),
            final(self).config == old(self).config,
    {
        self.tasks.create(&mut self.bus, user_request, priority)
    }

    /// Move a task to a new state, publishing its events on this context's own bus.
    pub fn transition_task(&mut self, id: TaskId, to: TaskState, reason: Option<&str>) -> (r: Result<(), TaskError>)
        ensures
            !holds(old(self).tasks@, id) ==> {
                &&& r == Err::<(), TaskError>(TaskError::NotFound(id))
                &&& final(self).tasks@ == old(self).tasks@
                &&& final(self).bus@ == old(self).bus@
            },
            holds(old(self).tasks@, id) && !old(self).tasks@[id.0 - 1].state.allows(to) ==> {
                &&& r == Err::<(), TaskError>(TaskError::InvalidTransition { id, from: old(self).tasks@[id.0 - 1].state, to })
                &&& final(self).tasks@ == old(self).tasks@
                &&& final(self).bus@ == old(self).bus@
            },
            holds(old(self).tasks@, id) && old(self).tasks@[id.0 - 1].state.allows(to) ==> {
                let k = id.0 - 1;
                let t = old(self).tasks@[k];
                &&& r == Ok::<(), TaskError>(())
                &&& final(self).tasks@ == old(self).tasks@.update(
                    k,
                    moved(t, to, final(self).tasks@[k].history.last().at, opt_str(reason)),
                )
                &&& old(self).bus@.publishes(crate::task::SOURCE@, transition_events(id, t.state, to), final(self).bus@)
            },
            well_formed(final(self).tasks@),
            final(self).config == old(self).config,
    {
        self.tasks.transition(&mut self.bus, id, to, reason)
    }
}

/// The value of a [`ServiceContext`]: its configuration, bus and tasks.
pub struct ContextView {
    pub config: RefxConfig,
    pub bus: EventBusView,
    pub tasks: Seq<TaskView>,
}

impl View for ServiceContext {
    type V = ContextView;

    open spec fn view(&self) -> ContextView {
        ContextView { config: self.config, bus: self.bus@, tasks: self.tasks@ }
    }
}

/// The error a service reports.
pub type ServiceError = String;

/// A long-lived subsystem managed by the runtime.
pub trait Service: Send {
    /// The identifier that `name` reports; `start` and `stop` keep it.
    spec fn spec_name(&self) -> Seq<char>;

    /// Whether the service is up.
    spec fn running(&self) -> bool;

    /// The error the service reported last.
    spec fn last_error(&self) -> Seq<char>;

    /// The context the service was last started with.
    spec fn started_with(&self) -> ContextView;

    /// Stable identifier, e.g. `"core.scheduler"`.
    fn name(&self) -> (r: &str)
        ensures
            r@ == self.spec_name(),
    ;

    /// A service whose start succeeded is up, one whose start failed is not.
    fn start(&mut self, ctx: &ServiceContext) -> (r: Result<(), ServiceError>)
        ensures
            final(self).spec_name() == old(self).spec_name(),
            r is Ok <==> final(self).running(),
            r matches Err(e) ==> final(self).last_error() == e@,
            final(self).started_with() == ctx@,
    ;

    /// Implementations must not panic: the runtime also stops services while
    /// it is being dropped. A service whose stop failed is still up.
    fn stop(&mut self) -> (r: Result<(), ServiceError>)
        ensures
            final(self).spec_name() == old(self).spec_name(),
            r is Ok <==> !final(self).running(),
            r matches Err(e) ==> final(self).last_error() == e@,
            final(self).started_with() == old(self).started_with(),
    ;
}

/// Whether the services are running.
#[derive(Debug, Clone, Copy, PartialEq, Eq, Structural)]
pub enum RuntimeState {
    Stopped,
    Running,
}

/// Why a lifecycle operation was refused or failed.
#[derive(Debug, Clone, PartialEq, Eq)]
pub enum RuntimeError {
    AlreadyRunning,
    NotRunning,
    DuplicateService(String),
    RegisterWhileRunning,
    StartFailed { name: String, source: ServiceError },
    StopFailed(Vec<String>),
}

/// The value of a [`RuntimeError`].
pub enum RuntimeErrorView {
    AlreadyRunning,
    NotRunning,
    DuplicateService(Seq<char>),
    RegisterWhileRunning,
    StartFailed { name: Seq<char>, source: Seq<char> },
    StopFailed(Seq<Seq<char>>),
}

impl View for RuntimeError {
    type V = RuntimeErrorView;

    open spec fn view(&self) -> RuntimeErrorView {
        match self {
            RuntimeError::AlreadyRunning => RuntimeErrorView::AlreadyRunning,
            RuntimeError::NotRunning => RuntimeErrorView::NotRunning,
            RuntimeError::DuplicateService(n) => RuntimeErrorView::DuplicateService(n@),
            RuntimeError::RegisterWhileRunning => RuntimeErrorView::RegisterWhileRunning,
            RuntimeError::StartFailed { name, source } => RuntimeErrorView::StartFailed {
                name: name@,
                source: source@,
            },
            RuntimeError::StopFailed(f) => RuntimeErrorView::StopFailed(
                f@.map_values(|s: String| s@),
            ),
        }
    }
}

/// The value of a lifecycle result.
pub open spec fn result_view(r: Result<(), RuntimeError>) -> Result<(), RuntimeErrorView> {
    match r {
        Ok(()) => Ok(()),
        Err(e) => Err(e@),
    }
}

/// What a call of a service's `start` or `stop` returned: success, or the error text.
pub type Outcome = Result<(), Seq<char>>;

/// The event that reports stopping service `name` with outcome `o`.
pub open spec fn stop_event(name: Seq<char>, o: Outcome) -> EventView {
    match o {
        Ok(()) => EventView::ServiceStopped { name },
        Err(e) => EventView::ServiceFailed { name, error: e },
    }
}

/// Events of stopping the first `k` services in reverse order, where
/// `stops[j]` is the outcome for service `k - 1 - j`.
pub open spec fn stop_events(names: Seq<Seq<char>>, k: nat, stops: Seq<Outcome>) -> Seq<EventView> {
    Seq::new(stops.len(), |j: int| stop_event(names[k - 1 - j], stops[j]))
}

/// The failure reports (`"name: error"`) among those stops, in the order they happened.
pub open spec fn stop_failures(names: Seq<Seq<char>>, k: nat, stops: Seq<Outcome>) -> Seq<Seq<char>>
    decreases stops.len(),
{
    if stops.len() == 0 {
        Seq::empty()
    } else {
        let earlier = stop_failures(names, k, stops.drop_last());
        match stops.last() {
            Ok(()) => earlier,
            Err(e) => earlier.push(names[k - stops.len()] + ": "@ + e),
        }
    }
}

/// The result of stopping: success when no stop failed, else every failure report.
pub open spec fn stop_result(failures: Seq<Seq<char>>) -> Result<(), RuntimeErrorView> {
    if failures.len() == 0 {
        Ok(())
    } else {
        Err(RuntimeErrorView::StopFailed(failures))
    }
}

/// How many of `stops` failed.
pub open spec fn failed_count(stops: Seq<Outcome>) -> nat
    decreases stops.len(),
{
    if stops.len() == 0 {
        0
    } else {
        failed_count(stops.drop_last()) + if stops.last() is Err { 1nat } else { 0nat }
    }
}

/// Stopping reports every failure, each once: there is one report per failed
/// stop, so stopping succeeds exactly when no stop failed.
pub proof fn law_every_stop_failure_is_reported(names: Seq<Seq<char>>, k: nat, stops: Seq<Outcome>)
    ensures
        stop_failures(names, k, stops).len() == failed_count(stops),
        stop_result(stop_failures(names, k, stops)) is Ok <==> failed_count(stops) == 0,
    decreases stops.len(),
{
    if stops.len() > 0 {
        law_every_stop_failure_is_reported(names, k, stops.drop_last());
    }
}

/// Services stop in reverse order: the `j`-th stop event, whatever its
/// outcome, is about service `k - 1 - j`.
pub proof fn law_services_stop_in_reverse_order(names: Seq<Seq<char>>, k: nat, stops: Seq<Outcome>, j: int)
    requires
        stops.len() <= k <= names.len(),
        0 <= j < stops.len(),
    ensures
        stop_events(names, k, stops)[j] == (match stops[j] {
            Ok(()) => EventView::ServiceStopped { name: names[k - 1 - j] },
            Err(e) => EventView::ServiceFailed { name: names[k - 1 - j], error: e },
        }),
{
}

/// `ServiceStarted` for each of the first `k` services, in order.
pub open spec fn started_events(names: Seq<Seq<char>>, k: nat) -> Seq<EventView> {
    Seq::new(k, |i: int| EventView::ServiceStarted { name: names[i] })
}

/// What the runtime looks like from outside.
pub struct RuntimeView {
    pub state: RuntimeState,
    /// Names of the registered services, in registration order.
    pub names: Seq<Seq<char>>,
    /// Whether each registered service, in the same order, is up.
    pub running: Seq<bool>,
    /// The error each registered service, in the same order, reported last.
    pub errors: Seq<Seq<char>>,
    /// The context each registered service, in the same order, was last started with.
    pub contexts: Seq<ContextView>,
    pub bus: EventBusView,
    pub tasks: Seq<TaskView>,
    pub config: RefxConfig,
}

impl RuntimeView {
    /// There is one entry per registered service in each sequence.
    pub open spec fn wf(self) -> bool {
        &&& self.running.len() == self.names.len()
        &&& self.errors.len() == self.names.len()
        &&& self.contexts.len() == self.names.len()
    }

    /// How many services, from the first, are started: all of them while the
    /// runtime runs, none while it is stopped.
    pub open spec fn started(self) -> nat {
        if self.state is Running {
            self.names.len()
        } else {
            0
        }
    }
}

/// Whether each service is up after the first `k` were stopped in reverse
/// order with outcomes `stops` (`stops[j]` for service `k - 1 - j`): a service
/// whose stop failed is still up; the others are as before.
pub open spec fn running_after_stops(running: Seq<bool>, k: nat, stops: Seq<Outcome>) -> Seq<bool> {
    Seq::new(running.len(), |i: int| if i < k { stops[k - 1 - i] is Err } else { running[i] })
}

/// The errors after the first `k` services were stopped in reverse order
/// with outcomes `stops`: a service whose stop failed reported that error,
/// and the services not stopped keep theirs.
pub open spec fn errors_after_stops(before: Seq<Seq<char>>, after: Seq<Seq<char>>, k: nat, stops: Seq<Outcome>) -> bool {
    &&& after.len() == before.len()
    &&& forall|i: int| 0 <= i < k ==> match stops[k - 1 - i] {
        Ok(()) => true,
        Err(e) => #[trigger] after[i] == e,
    }
    &&& forall|i: int| k <= i < before.len() ==> #[trigger] after[i] == before[i]
}

/// Service `i` of `old` was started with the runtime's own context as it
/// stood at that call: its configuration and tasks, and its bus after the
/// `ServiceStarted` events of the services before it.
pub open spec fn started_with_own_context(old: RuntimeView, c: ContextView, i: int) -> bool {
    &&& c.config == old.config
    &&& c.tasks == old.tasks
    &&& old.bus.publishes(SOURCE@, started_events(old.names, i as nat), c.bus)
}

/// A run of `start` from a stopped runtime `old` to `new` with result `r`,
/// where `starts[i]` is what service `i`'s `start` returned and `stops[j]`
/// what the rollback `stop` of service `f - 1 - j` returned: either every
/// service started and is up and the runtime runs, or service `f`, the last
/// one called, failed, every service started before it was stopped again in
/// reverse order, those after it got no call, and the runtime is stopped.
pub open spec fn start_run(
    old: RuntimeView,
    new: RuntimeView,
    r: Result<(), RuntimeErrorView>,
    starts: Seq<Outcome>,
    stops: Seq<Outcome>,
) -> bool {
    let n = old.names.len();
    &&& starts.len() <= n
    &&& forall|i: int| 0 <= i < starts.len() - 1 ==> #[trigger] starts[i] is Ok
    &&& new.names == old.names
    &&& new.tasks == old.tasks
    &&& new.config == old.config
    &&& new.contexts.len() == n
    &&& forall|i: int| 0 <= i < starts.len() ==> started_with_own_context(old, #[trigger] new.contexts[i], i)
    &&& forall|i: int| starts.len() <= i < n ==> #[trigger] new.contexts[i] == old.contexts[i]
    &&& if starts.len() == n && (n == 0 || starts.last() is Ok) {
        &&& r == Ok::<(), RuntimeErrorView>(())
        &&& new.state is Running
        &&& new.running == Seq::new(n, |i: int| true)
        &&& new.errors.len() == n
        &&& stops.len() == 0
        &&& old.bus.publishes(SOURCE@, started_events(old.names, n).push(EventView::RuntimeStarted), new.bus)
    } else {
        let f = (starts.len() - 1) as nat;
        &&& starts.len() > 0
        &&& starts.last() matches Err(e)
        &&& r == Err::<(), RuntimeErrorView>(RuntimeErrorView::StartFailed { name: old.names[f as int], source: e })
        &&& new.state is Stopped
        &&& stops.len() == f
        &&& new.running == running_after_stops(old.running.update(f as int, false), f, stops)
        &&& errors_after_stops(old.errors.update(f as int, e), new.errors, f, stops)
        &&& old.bus.publishes(
            SOURCE@,
            started_events(old.names, f).push(EventView::ServiceFailed { name: old.names[f as int], error: e })
                + stop_events(old.names, f, stops),
            new.bus,
        )
    }
}

/// Stopping the first `k` services of `old`, with outcomes `stops`, gives `new` and `r`.
pub open spec fn stop_run(
    old: RuntimeView,
    new: RuntimeView,
    r: Result<(), RuntimeErrorView>,
    k: nat,
    stops: Seq<Outcome>,
) -> bool {
    &&& stops.len() == k
    &&& new == RuntimeView {
        running: running_after_stops(old.running, k, stops),
        errors: new.errors,
        bus: new.bus,
        ..old
    }
    &&& errors_after_stops(old.errors, new.errors, k, stops)
    &&& old.bus.publishes(SOURCE@, stop_events(old.names, k, stops), new.bus)
    &&& r == stop_result(stop_failures(old.names, k, stops))
}

/// A run of `shutdown` from a running runtime: `RuntimeStopping`, then every
/// started service stopped in reverse order whatever the others returned,
/// then `RuntimeStopped`; the result reports every failed stop.
pub open spec fn shutdown_run(
    old: RuntimeView,
    new: RuntimeView,
    r: Result<(), RuntimeErrorView>,
    stops: Seq<Outcome>,
) -> bool {
    &&& stops.len() == old.started()
    &&& new.names == old.names
    &&& new.tasks == old.tasks
    &&& new.config == old.config
    &&& new.state is Stopped
    &&& new.running == running_after_stops(old.running, old.started(), stops)
    &&& errors_after_stops(old.errors, new.errors, old.started(), stops)
    &&& new.contexts == old.contexts
    &&& r == stop_result(stop_failures(old.names, old.started(), stops))
    &&& old.bus.publishes(
        SOURCE@,
        seq![EventView::RuntimeStopping] + stop_events(old.names, old.started(), stops).push(
            EventView::RuntimeStopped,
        ),
        new.bus,
    )
}

/// No half-started system: when a start fails, every service started before
/// the failing one got a stop call, the failing one is down with the error it
/// reported, and the runtime is stopped with nothing started.
pub proof fn law_failed_start_leaves_nothing_started(
    old: RuntimeView,
    new: RuntimeView,
    r: Result<(), RuntimeErrorView>,
    starts: Seq<Outcome>,
    stops: Seq<Outcome>,
)
    requires
        old.wf(),
        start_run(old, new, r, starts, stops),
        r is Err,
    ensures
        new.state is Stopped,
        new.started() == 0,
        new.wf(),
        starts.len() >= 1,
        stops.len() == starts.len() - 1,
        forall|i: int| 0 <= i < stops.len() ==> #[trigger] starts[i] is Ok,
        !new.running[stops.len() as int],
        starts.last() matches Err(e) && new.errors[stops.len() as int] == e,
        forall|i: int| 0 <= i < stops.len() ==> (#[trigger] new.running[i] <==> stops[stops.len() - 1 - i] is Err),
{
}

proof fn lemma_no_failure_iff_all_ok(stops: Seq<Outcome>)
    ensures
        failed_count(stops) == 0 <==> forall|j: int| 0 <= j < stops.len() ==> #[trigger] stops[j] is Ok,
    decreases stops.len(),
{
    if stops.len() > 0 {
        let init = stops.drop_last();
        lemma_no_failure_iff_all_ok(init);
        if failed_count(stops) == 0 {
            assert forall|j: int| 0 <= j < stops.len() implies #[trigger] stops[j] is Ok by {
                if j < init.len() {
                    assert(stops[j] == init[j]);
                }
            }
        }
        if forall|j: int| 0 <= j < stops.len() ==> #[trigger] stops[j] is Ok {
            assert forall|j: int| 0 <= j < init.len() implies #[trigger] init[j] is Ok by {
                assert(stops[j] == init[j]);
            }
            assert(stops[stops.len() - 1] is Ok);
        }
    }
}

/// A shutdown reaches every service, whatever the others returned: each one
/// whose stop succeeded is down, each one whose stop failed is still up, and
/// the shutdown succeeds exactly when every stop did.
pub proof fn law_shutdown_stops_every_service(
    old: RuntimeView,
    new: RuntimeView,
    r: Result<(), RuntimeErrorView>,
    stops: Seq<Outcome>,
)
    requires
        old.wf(),
        old.state is Running,
        shutdown_run(old, new, r, stops),
    ensures
        stops.len() == old.names.len(),
        forall|i: int| 0 <= i < old.names.len() ==> (#[trigger] new.running[i] <==> stops[old.names.len() - 1 - i] is Err),
        r is Ok <==> forall|j: int| 0 <= j < stops.len() ==> #[trigger] stops[j] is Ok,
        new.wf(),
{
    law_every_stop_failure_is_reported(old.names, old.started(), stops);
    lemma_no_failure_iff_all_ok(stops);
}

/// A registration on a stopped runtime `old` of a service named `name` whose
/// up-state is `up` and last error `error`: refused if the name is taken,
/// else appended.
pub open spec fn register_run(
    old: RuntimeView,
    new: RuntimeView,
    r: Result<(), RuntimeErrorView>,
    name: Seq<char>,
    up: bool,
    error: Seq<char>,
    context: ContextView,
) -> bool {
    if old.names.contains(name) {
        r == Err::<(), RuntimeErrorView>(RuntimeErrorView::DuplicateService(name)) && new == old
    } else {
        &&& r == Ok::<(), RuntimeErrorView>(())
        &&& new == RuntimeView {
            names: old.names.push(name),
            running: old.running.push(up),
            errors: old.errors.push(error),
            contexts: old.contexts.push(context),
            ..old
        }
    }
}

/// A successful start called every service's `start`, each one succeeded,
/// and every service is up.
pub proof fn law_started_runtime_has_every_service_up(
    old: RuntimeView,
    new: RuntimeView,
    r: Result<(), RuntimeErrorView>,
    starts: Seq<Outcome>,
    stops: Seq<Outcome>,
)
    requires
        old.wf(),
        start_run(old, new, r, starts, stops),
        r is Ok,
    ensures
        starts.len() == old.names.len(),
        forall|i: int| 0 <= i < starts.len() ==> #[trigger] starts[i] is Ok,
        forall|i: int| 0 <= i < new.running.len() ==> #[trigger] new.running[i],
        stops.len() == 0,
        new.state is Running,
        new.wf(),
{
}

/// Registration refuses a name that is taken, so the registered names stay
/// distinct.
pub proof fn law_registered_names_stay_distinct(
    old: RuntimeView,
    new: RuntimeView,
    r: Result<(), RuntimeErrorView>,
    name: Seq<char>,
    up: bool,
    error: Seq<char>,
    context: ContextView,
)
    requires
        old.names.no_duplicates(),
        register_run(old, new, r, name, up, error, context),
    ensures
        new.names.no_duplicates(),
{
    if !old.names.contains(name) {
        assert forall|i: int, j: int| 0 <= i < new.names.len() && 0 <= j < new.names.len() && i != j
            implies new.names[i] != new.names[j] by {
            if i == old.names.len() {
                assert(new.names[j] == old.names[j]);
            } else if j == old.names.len() {
                assert(new.names[i] == old.names[i]);
            }
        }
    }
}

/// A registered service. The field's type is a parameter so that the boxed
/// service is stored exactly as it was handed over, with no trait-object
/// coercion in between.
struct Registered<S> {
    service: S,
}

impl<S> Registered<S> {
    fn new(service: S) -> (r: Registered<S>)
        ensures
            r.service == service,
    {
        Registered { service }
    }
}

/// The core runtime: owns the shared context and the registered services.
pub struct Runtime {
    ctx: ServiceContext,
    services: Vec<Registered<Box<dyn Service>>>,
    state: RuntimeState,
}

impl View for Runtime {
    type V = RuntimeView;

    closed spec fn view(&self) -> RuntimeView {
        RuntimeView {
            state: self.state,
            names: self.services@.map_values(|s: Registered<Box<dyn Service>>| s.service.spec_name()),
            running: self.services@.map_values(|s: Registered<Box<dyn Service>>| s.service.running()),
            errors: self.services@.map_values(|s: Registered<Box<dyn Service>>| s.service.last_error()),
            contexts: self.services@.map_values(|s: Registered<Box<dyn Service>>| s.service.started_with()),
            bus: self.ctx.bus@,
            tasks: self.ctx.tasks@,
            config: self.ctx.config,
        }
    }
}

impl Runtime {
    /// Every runtime's view has one entry per registered service in each of
    /// its sequences.
    pub proof fn law_view_is_wf(&self)
        ensures
            self@.wf(),
    {
    }

    pub fn new(config: RefxConfig) -> (rt: Runtime)
        ensures
            rt@.state is Stopped,
            rt@.names == Seq::<Seq<char>>::empty(),
            rt@.running == Seq::<bool>::empty(),
            rt@.errors == Seq::<Seq<char>>::empty(),
            rt@.contexts == Seq::<ContextView>::empty(),
            rt@.bus == (EventBusView { next_seq: 0, next_subscriber: 0, slots: Seq::empty() }),
            rt@.tasks == Seq::<TaskView>::empty(),
            rt@.config == config,
    {
        let rt = Runtime {
            ctx: ServiceContext { config, bus: EventBus::new(), tasks: TaskManager::new() },
            services: Vec::new(),
            state: RuntimeState::Stopped,
        };
        assert(rt@.names =~= Seq::<Seq<char>>::empty());
        assert(rt@.running =~= Seq::<bool>::empty());
        assert(rt@.errors =~= Seq::<Seq<char>>::empty());
        assert(rt@.contexts =~= Seq::<ContextView>::empty());
        rt
    }

    pub fn context(&self) -> (c: &ServiceContext)
        ensures
            c.bus@ == self@.bus,
            c.tasks@ == self@.tasks,
            c.config == self@.config,
    {
        &self.ctx
    }

    /// Mutable access to the shared state, e.g. to subscribe to the bus or
    /// to create tasks. The lifecycle bookkeeping is not reachable through it.
    pub fn context_mut(&mut self) -> (c: &mut ServiceContext)
        ensures
            c.bus@ == old(self)@.bus,
            c.tasks@ == old(self)@.tasks,
            c.config == old(self)@.config,
            final(self)@ == (RuntimeView {
                bus: final(c).bus@,
                tasks: final(c).tasks@,
                config: final(c).config,
                ..old(self)@
            }),
    {
        &mut self.ctx
    }

    pub fn state(&self) -> (s: RuntimeState)
        ensures
            s == self@.state,
    {
        self.state
    }

    /// Names of the registered services, in registration order.
    pub fn service_names(&self) -> (r: Vec<&str>)
        ensures
            r@.map_values(|s: &str| s@) == self@.names,
    {
        let mut r: Vec<&str> = Vec::new();
        let mut i: usize = 0;
        while i < self.services.len()
            invariant
                0 <= i <= self.services@.len(),
                r@.map_values(|s: &str| s@) == self@.names.take(i as int),
            decreases self.services@.len() - i,
        {
            let ghost r0 = r@;
            let name = self.services[i].service.name();
            r.push(name);
            proof {
                lemma_map_push(r0, name, |s: &str| s@);
                lemma_take_push(self@.names, i as int);
            }
            i = i + 1;
        }
        assert(self@.names.take(self@.names.len() as int) =~= self@.names);
        r
    }

    pub fn register(&mut self, service: Box<dyn Service>) -> (r: Result<(), RuntimeError>)
        ensures
            old(self)@.state is Running ==> {
                &&& result_view(r) == Err::<(), RuntimeErrorView>(RuntimeErrorView::RegisterWhileRunning)
                &&& final(self)@ == old(self)@
            },
            old(self)@.state is Stopped ==> register_run(
                old(self)@,
                final(self)@,
                result_view(r),
                service.spec_name(),
                service.running(),
                service.last_error(),
                service.started_with(),
            ),
    {
        if self.state == RuntimeState::Running {
            return Err(RuntimeError::RegisterWhileRunning);
        }
        let name: String = service.name().to_owned();
        let mut i: usize = 0;
        while i < self.services.len()
            invariant
                0 <= i <= self.services@.len(),
                self@ == old(self)@,
                old(self)@.state is Stopped,
                name@ == service.spec_name(),
                forall|j: int| 0 <= j < i ==> #[trigger] self@.names[j] != name@,
            decreases self.services@.len() - i,
        {
            let existing: String = self.services[i].service.name().to_owned();
            if existing == name {
                proof {
                    assert(self@.names[i as int] == name@);
                }
                return Err(RuntimeError::DuplicateService(name));
            }
            i = i + 1;
        }
        let ghost before = self.services@;
        let registered = Registered::new(service);
        self.services.push(registered);
        proof {
            lemma_map_push(before, registered, |s: Registered<Box<dyn Service>>| s.service.spec_name());
            lemma_map_push(before, registered, |s: Registered<Box<dyn Service>>| s.service.running());
            lemma_map_push(before, registered, |s: Registered<Box<dyn Service>>| s.service.last_error());
            lemma_map_push(before, registered, |s: Registered<Box<dyn Service>>| s.service.started_with());
            assert(!old(self)@.names.contains(name@));
        }
        Ok(())
    }

    /// Stop the started services in reverse order. Every one gets a stop call
    /// even if an earlier one fails; all failures are reported together.
    fn stop_started(&mut self, started: usize) -> (r: Result<(), RuntimeError>)
        requires
            started <= old(self).services@.len(),
        ensures
            exists|stops: Seq<Outcome>| #[trigger] stop_run(old(self)@, final(self)@, result_view(r), started as nat, stops),
    {
        let ghost k = started as nat;
        let ghost b0 = self@.bus;
        let ghost names = self@.names;
        let ghost up0 = self@.running;
        let ghost er0 = self@.errors;
        let mut failures: Vec<String> = Vec::new();
        let ghost mut stops: Seq<Outcome> = Seq::empty();
        let mut j: usize = started;
        assert(stop_events(names, k, stops) =~= Seq::<EventView>::empty());
        proof {
            lemma_publishes_nothing(b0, SOURCE@);
        }
        assert(failures@.map_values(|s: String| s@) =~= stop_failures(names, k, stops));
        assert(self@.running =~= Seq::new(up0.len(), |i: int| if j <= i < k { stops[k - 1 - i] is Err } else { up0[i] }));
        while j > 0
            invariant
                j <= k <= self.services@.len(),
                stops.len() == k - j,
                self@ == (RuntimeView { bus: self@.bus, running: self@.running, errors: self@.errors, ..old(self)@ }),
                names == old(self)@.names,
                up0 == old(self)@.running,
                er0 == old(self)@.errors,
                self@.errors.len() == er0.len(),
                forall|i: int| 0 <= i < j ==> #[trigger] self@.errors[i] == er0[i],
                forall|i: int| k <= i < er0.len() ==> #[trigger] self@.errors[i] == er0[i],
                forall|i: int| j <= i < k ==> match stops[k - 1 - i] {
                    Ok(()) => true,
                    Err(e) => #[trigger] self@.errors[i] == e,
                },
                self@.running == Seq::new(up0.len(), |i: int| if j <= i < k { stops[k - 1 - i] is Err } else { up0[i] }),
                b0.publishes(SOURCE@, stop_events(names, k, stops), self@.bus),
                failures@.map_values(|s: String| s@) == stop_failures(names, k, stops),
            decreases j,
        {
            j = j - 1;
            let name: String = self.services[j].service.name().to_owned();
            let ghost before = self.services@;
            let ghost up1 = self@.running;
            let ghost er1 = self@.errors;
            let ghost cx1 = self@.contexts;
            let ghost f0 = failures@;
            let ghost o: Outcome;
            let stopped = self.services[j].service.stop();
            proof {
                assert(self.services@ == before.update(j as int, self.services@[j as int]));
                assert(self@.names =~= names);
                assert(self@.running =~= up1.update(j as int, stopped is Err));
                assert(self@.errors =~= er1.update(j as int, self@.errors[j as int]));
                assert(self@.contexts =~= cx1);
            }
            let ghost b1 = self@.bus;
            match stopped {
                Ok(()) => {
                    self.ctx.bus.publish(SOURCE, Event::ServiceStopped { name });
                    proof { o = Ok(()); }
                },
                Err(e) => {
                    let mut report = name.clone();
                    report.append(": ");
                    report.append(e.as_str());
                    proof { o = Err(e@); }
                    self.ctx.bus.publish(SOURCE, Event::ServiceFailed { name, error: e });
                    failures.push(report);
                    proof {
                        assert(failures@.map_values(|s: String| s@)
                            =~= f0.map_values(|s: String| s@).push(report@));
                    }
                },
            }
            proof {
                let s2 = stops.push(o);
                assert(names[k - 1 - stops.len()] == names[j as int]);
                assert(stop_events(names, k, s2) =~= stop_events(names, k, stops).push(stop_event(names[j as int], o)));
                lemma_publishes_then(b0, b1, self@.bus, SOURCE@, stop_events(names, k, stops), stop_event(names[j as int], o));
                assert(s2.drop_last() =~= stops);
                assert(self@.running =~= Seq::new(up0.len(), |i: int| if j <= i < k { s2[k - 1 - i] is Err } else { up0[i] }));
                assert forall|i: int| j <= i < k implies match s2[k - 1 - i] {
                    Ok(()) => true,
                    Err(e) => #[trigger] self@.errors[i] == e,
                } by {
                    if i > j {
                        assert(s2[k - 1 - i] == stops[k - 1 - i]);
                    }
                }
                stops = s2;
            }
        }
        assert(self@.running =~= running_after_stops(up0, k, stops));
        assert(errors_after_stops(er0, self@.errors, k, stops));
        if failures.len() == 0 {
            assert(stop_failures(names, k, stops).len() == 0);
            assert(stop_run(old(self)@, self@, Ok(()), k, stops));
            Ok(())
        } else {
            let r = Err(RuntimeError::StopFailed(failures));
            assert(stop_run(old(self)@, self@, result_view(r), k, stops));
            r
        }
    }

    pub fn start(&mut self) -> (r: Result<(), RuntimeError>)
        ensures
            old(self)@.state is Running ==> {
                &&& result_view(r) == Err::<(), RuntimeErrorView>(RuntimeErrorView::AlreadyRunning)
                &&& final(self)@ == old(self)@
            },
            old(self)@.state is Stopped ==> exists|starts: Seq<Outcome>, stops: Seq<Outcome>|
                #[trigger] start_run(old(self)@, final(self)@, result_view(r), starts, stops),
    {
        if self.state == RuntimeState::Running {
            return Err(RuntimeError::AlreadyRunning);
        }
        let n = self.services.len();
        let ghost b0 = self@.bus;
        let ghost names = self@.names;
        let ghost up0 = self@.running;
        let ghost er0 = self@.errors;
        let ghost mut starts: Seq<Outcome> = Seq::empty();
        let mut i: usize = 0;
        assert(started_events(names, 0) =~= Seq::<EventView>::empty());
        proof {
            lemma_publishes_nothing(b0, SOURCE@);
        }
        assert(self@.running =~= Seq::new(n as nat, |j: int| if j < i { true } else { up0[j] }));
        while i < n
            invariant
                i <= n == self.services@.len(),
                names == old(self)@.names,
                up0 == old(self)@.running,
                self@ == (RuntimeView {
                    bus: self@.bus,
                    running: self@.running,
                    errors: self@.errors,
                    contexts: self@.contexts,
                    ..old(self)@
                }),
                self@.contexts.len() == n,
                forall|j: int| 0 <= j < i ==> started_with_own_context(old(self)@, #[trigger] self@.contexts[j], j),
                forall|j: int| i <= j < n ==> #[trigger] self@.contexts[j] == old(self)@.contexts[j],
                er0 == old(self)@.errors,
                self@.errors.len() == n,
                forall|j: int| i <= j < n ==> #[trigger] self@.errors[j] == er0[j],
                self@.running == Seq::new(n as nat, |j: int| if j < i { true } else { up0[j] }),
                old(self)@.state is Stopped,
                starts.len() == i,
                forall|j: int| 0 <= j < i ==> #[trigger] starts[j] is Ok,
                b0.publishes(SOURCE@, started_events(names, i as nat), self@.bus),
                b0 == old(self)@.bus,
            decreases n - i,
        {
            let name: String = self.services[i].service.name().to_owned();
            let ghost before = self.services@;
            let ghost up1 = self@.running;
            let ghost er1 = self@.errors;
            let ghost cx1 = self@.contexts;
            let ghost bi = self@.bus;
            let result = self.services[i].service.start(&self.ctx);
            proof {
                assert(self@.contexts =~= cx1.update(i as int, self@.contexts[i as int]));
                assert(self@.contexts[i as int].bus == bi);
                assert(started_with_own_context(old(self)@, self@.contexts[i as int], i as int));
                assert(self.services@ == before.update(i as int, self.services@[i as int]));
                assert(self@.names =~= names);
                assert(self@.running =~= up1.update(i as int, result is Ok));
                assert(self@.errors =~= er1.update(i as int, self@.errors[i as int]));
            }
            match result {
                Ok(()) => {
                    let ghost b1 = self@.bus;
                    self.ctx.bus.publish(SOURCE, Event::ServiceStarted { name });
                    proof {
                        lemma_publishes_then(b0, b1, self@.bus, SOURCE@, started_events(names, i as nat), EventView::ServiceStarted { name: names[i as int] });
                        assert(started_events(names, (i + 1) as nat) =~= started_events(names, i as nat).push(EventView::ServiceStarted { name: names[i as int] }));
                        assert(self@.running =~= Seq::new(n as nat, |j: int| if j < i + 1 { true } else { up0[j] }));
                        starts = starts.push(Ok(()));
                    }
                },
                Err(source) => {
                    let ghost failed = EventView::ServiceFailed { name: names[i as int], error: source@ };
                    let ghost b1 = self@.bus;
                    self.ctx.bus.publish(SOURCE, Event::ServiceFailed { name: name.clone(), error: source.clone() });
                    let ghost mid = self@;
                    let rollback = self.stop_started(i);
                    proof {
                        let stops = choose|stops: Seq<Outcome>| #[trigger] stop_run(mid, self@, result_view(rollback), i as nat, stops);
                        let starts2 = starts.push(Err(source@));
                        assert(starts2.last() == Err::<(), Seq<char>>(source@));
                        assert forall|j: int| 0 <= j < starts2.len() - 1 implies #[trigger] starts2[j] is Ok by {
                            assert(starts2[j] == starts[j]);
                        }
                        lemma_publishes_then(b0, b1, mid.bus, SOURCE@, started_events(names, i as nat), failed);
                        lemma_publishes_append(
                            b0,
                            mid.bus,
                            self@.bus,
                            SOURCE@,
                            started_events(names, i as nat).push(failed),
                            stop_events(names, i as nat, stops),
                        );
                        assert(self@.running =~= running_after_stops(up0.update(i as int, false), i as nat, stops));
                        assert(mid.errors[i as int] == source@);
                        assert(errors_after_stops(er0.update(i as int, source@), self@.errors, i as nat, stops));
                        assert(!(starts2.len() == names.len() && (names.len() == 0 || starts2.last() is Ok)));
                        assert(start_run(
                            old(self)@,
                            self@,
                            Err(RuntimeErrorView::StartFailed { name: name@, source: source@ }),
                            starts2,
                            stops,
                        ));
                    }
                    return Err(RuntimeError::StartFailed { name, source });
                },
            }
            i = i + 1;
        }
        self.state = RuntimeState::Running;
        let ghost b1 = self@.bus;
        self.ctx.bus.publish(SOURCE, Event::RuntimeStarted);
        proof {
            lemma_publishes_then(b0, b1, self@.bus, SOURCE@, started_events(names, n as nat), EventView::RuntimeStarted);
            assert(self@.running =~= Seq::new(n as nat, |j: int| true));
            assert(start_run(old(self)@, self@, Ok(()), starts, Seq::empty()));
        }
        Ok(())
    }

    /// Stop all services in reverse order. Every service gets a stop call
    /// even if an earlier one fails; all failures are reported together.
    pub fn shutdown(&mut self) -> (r: Result<(), RuntimeError>)
        ensures
            old(self)@.state is Stopped ==> {
                &&& result_view(r) == Err::<(), RuntimeErrorView>(RuntimeErrorView::NotRunning)
                &&& final(self)@ == old(self)@
            },
            old(self)@.state is Running ==> exists|stops: Seq<Outcome>|
                #[trigger] shutdown_run(old(self)@, final(self)@, result_view(r), stops),
    {
        if self.state != RuntimeState::Running {
            return Err(RuntimeError::NotRunning);
        }
        let ghost b0 = self@.bus;
        self.ctx.bus.publish(SOURCE, Event::RuntimeStopping);
        let ghost mid = self@;
        let result = self.stop_started(self.services.len());
        let ghost after = self@;
        self.state = RuntimeState::Stopped;
        self.ctx.bus.publish(SOURCE, Event::RuntimeStopped);
        proof {
            let stops = choose|stops: Seq<Outcome>| #[trigger] stop_run(mid, after, result_view(result), mid.names.len(), stops);
            let evs = stop_events(mid.names, mid.names.len(), stops);
            let first = seq![EventView::RuntimeStopping];
            lemma_publishes_nothing(b0, SOURCE@);
            lemma_publishes_then(b0, b0, mid.bus, SOURCE@, Seq::empty(), EventView::RuntimeStopping);
            assert(Seq::<EventView>::empty().push(EventView::RuntimeStopping) =~= first);
            lemma_publishes_then(mid.bus, after.bus, self@.bus, SOURCE@, evs, EventView::RuntimeStopped);
            lemma_publishes_append(b0, mid.bus, self@.bus, SOURCE@, first, evs.push(EventView::RuntimeStopped));
            assert(shutdown_run(old(self)@, self@, result_view(result), stops));
        }
        result
    }

    /// Shut the runtime down if it is running, dropping the outcome. A host
    /// calls this when it gives a runtime up, for example on an early return;
    /// dropping a `Runtime` by itself stops no service.
    pub fn shut_down_if_running(&mut self)
        ensures
            old(self)@.state is Running ==> exists|
                r: Result<(), RuntimeErrorView>,
                stops: Seq<Outcome>,
            | #[trigger] shutdown_run(old(self)@, final(self)@, r, stops),
            old(self)@.state is Stopped ==> final(self)@ == old(self)@,
    {
        if self.state == RuntimeState::Running {
            let _ = self.shutdown();
        }
    }
}

} // verus!
