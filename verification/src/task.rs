//! Task system.
//!
//! Every action is represented as a [`Task`] with an explicit, validated
//! state machine. Invalid transitions are rejected rather than silently
//! accepted, so the system can never pretend success.

use std::time::SystemTime;
use vstd::prelude::*;

use crate::clock;
use crate::seqs::{lemma_map_push, lemma_take_push};
use crate::event::{lemma_publishes_nothing, lemma_publishes_then, Event, EventBus, EventView};
use crate::text::{trim, trim_str};

verus! {

/// Component name under which task events are published.
pub const SOURCE: &'static str = "core.tasks";

/// Task identifier: a per-manager counter starting at 1.
#[derive(Debug, Clone, Copy, PartialEq, Eq, PartialOrd, Ord, Hash, Structural)]
pub struct TaskId(pub u64);

/// Task states.
#[derive(Debug, Clone, Copy, PartialEq, Eq, Hash, Structural)]
pub enum TaskState {
    Created,
    Queued,
    Planning,
    Executing,
    Waiting,
    Paused,
    Failed,
    Cancelled,
    Completed,
}

impl TaskState {
    /// `Failed`, `Cancelled` and `Completed` accept no further transitions.
    pub open spec fn terminal(self) -> bool {
        self is Failed || self is Cancelled || self is Completed
    }

    /// The transition table. Any non-terminal state may be cancelled; otherwise:
    ///
    /// | From      | To |
    /// |-----------|----|
    /// | Created   | Queued |
    /// | Queued    | Planning, Executing |
    /// | Planning  | Executing, Waiting, Failed |
    /// | Executing | Waiting, Paused, Failed, Completed |
    /// | Waiting   | Planning, Executing, Failed |
    /// | Paused    | Queued, Executing |
    pub open spec fn allows(self, to: TaskState) -> bool {
        if to is Cancelled {
            !self.terminal()
        } else {
            match (self, to) {
                (TaskState::Created, TaskState::Queued) => true,
                (TaskState::Queued, TaskState::Planning) => true,
                (TaskState::Queued, TaskState::Executing) => true,
                (TaskState::Planning, TaskState::Executing) => true,
                (TaskState::Planning, TaskState::Waiting) => true,
                (TaskState::Planning, TaskState::Failed) => true,
                (TaskState::Executing, TaskState::Waiting) => true,
                (TaskState::Executing, TaskState::Paused) => true,
                (TaskState::Executing, TaskState::Failed) => true,
                (TaskState::Executing, TaskState::Completed) => true,
                (TaskState::Waiting, TaskState::Planning) => true,
                (TaskState::Waiting, TaskState::Executing) => true,
                (TaskState::Waiting, TaskState::Failed) => true,
                (TaskState::Paused, TaskState::Queued) => true,
                (TaskState::Paused, TaskState::Executing) => true,
                _ => false,
            }
        }
    }

    /// The upper-case name of the state.
    pub open spec fn label(self) -> Seq<char> {
        match self {
            TaskState::Created => "CREATED"@,
            TaskState::Queued => "QUEUED"@,
            TaskState::Planning => "PLANNING"@,
            TaskState::Executing => "EXECUTING"@,
            TaskState::Waiting => "WAITING"@,
            TaskState::Paused => "PAUSED"@,
            TaskState::Failed => "FAILED"@,
            TaskState::Cancelled => "CANCELLED"@,
            TaskState::Completed => "COMPLETED"@,
        }
    }

    /// Terminal states accept no further transitions.
    pub fn is_terminal(self) -> (r: bool)
        ensures
            r == self.terminal(),
    {
        matches!(self, TaskState::Failed | TaskState::Cancelled | TaskState::Completed)
    }

    /// Whether the transition table allows moving from `self` to `to`.
    pub fn can_transition_to(self, to: TaskState) -> (r: bool)
        ensures
            r == self.allows(to),
    {
        if to == TaskState::Cancelled {
            return !self.is_terminal();
        }
        match (self, to) {
            (TaskState::Created, TaskState::Queued) => true,
            (TaskState::Queued, TaskState::Planning | TaskState::Executing) => true,
            (TaskState::Planning, TaskState::Executing | TaskState::Waiting | TaskState::Failed) => true,
            (
                TaskState::Executing,
                TaskState::Waiting | TaskState::Paused | TaskState::Failed | TaskState::Completed,
            ) => true,
            (TaskState::Waiting, TaskState::Planning | TaskState::Executing | TaskState::Failed) => true,
            (TaskState::Paused, TaskState::Queued | TaskState::Executing) => true,
            _ => false,
        }
    }

    /// The upper-case name of the state, as it is displayed.
    pub fn as_str(self) -> (r: &'static str)
        ensures
            r@ == self.label(),
    {
        match self {
            TaskState::Created => "CREATED",
            TaskState::Queued => "QUEUED",
            TaskState::Planning => "PLANNING",
            TaskState::Executing => "EXECUTING",
            TaskState::Waiting => "WAITING",
            TaskState::Paused => "PAUSED",
            TaskState::Failed => "FAILED",
            TaskState::Cancelled => "CANCELLED",
            TaskState::Completed => "COMPLETED",
        }
    }
}

/// How urgent a task is; `Normal` by default.
#[derive(Debug, Clone, Copy, PartialEq, Eq, PartialOrd, Ord, Structural)]
pub enum Priority {
    Low,
    Normal,
    High,
    Critical,
}

impl Default for Priority {
    fn default() -> (p: Priority)
        ensures
            p == Priority::Normal,
    {
        Priority::Normal
    }
}

/// The characters of an optional text.
pub open spec fn opt_text(o: Option<String>) -> Option<Seq<char>> {
    match o {
        Some(s) => Some(s@),
        None => None,
    }
}

/// The characters of an optional borrowed text.
pub open spec fn opt_str(o: Option<&str>) -> Option<Seq<char>> {
    match o {
        Some(s) => Some(s@),
        None => None,
    }
}

/// The characters of each text in a list.
pub open spec fn texts(v: Seq<String>) -> Seq<Seq<char>> {
    v.map_values(|s: String| s@)
}

/// One recorded state change, kept for observability.
#[derive(Debug, Clone, PartialEq, Eq)]
pub struct TransitionRecord {
    pub from: TaskState,
    pub to: TaskState,
    pub at: SystemTime,
    pub reason: Option<String>,
}

/// The value of a [`TransitionRecord`].
pub struct TransitionView {
    pub from: TaskState,
    pub to: TaskState,
    pub at: SystemTime,
    pub reason: Option<Seq<char>>,
}

impl View for TransitionRecord {
    type V = TransitionView;

    open spec fn view(&self) -> TransitionView {
        TransitionView { from: self.from, to: self.to, at: self.at, reason: opt_text(self.reason) }
    }
}

/// Task record. Agent, model, tools and permissions are plain strings until
/// those subsystems exist; they are recorded, not enforced.
#[derive(Debug, Clone)]
pub struct Task {
    pub id: TaskId,
    pub user_request: String,
    pub intent: Option<String>,
    pub priority: Priority,
    pub state: TaskState,
    pub agent: Option<String>,
    pub model: Option<String>,
    pub tools: Vec<String>,
    pub permissions: Vec<String>,
    pub created: SystemTime,
    pub started: Option<SystemTime>,
    pub completed: Option<SystemTime>,
    pub history: Vec<TransitionRecord>,
}

/// The value of a [`Task`]: texts as character sequences.
pub struct TaskView {
    pub id: TaskId,
    pub user_request: Seq<char>,
    pub intent: Option<Seq<char>>,
    pub priority: Priority,
    pub state: TaskState,
    pub agent: Option<Seq<char>>,
    pub model: Option<Seq<char>>,
    pub tools: Seq<Seq<char>>,
    pub permissions: Seq<Seq<char>>,
    pub created: SystemTime,
    pub started: Option<SystemTime>,
    pub completed: Option<SystemTime>,
    pub history: Seq<TransitionView>,
}

impl View for Task {
    type V = TaskView;

    open spec fn view(&self) -> TaskView {
        TaskView {
            id: self.id,
            user_request: self.user_request@,
            intent: opt_text(self.intent),
            priority: self.priority,
            state: self.state,
            agent: opt_text(self.agent),
            model: opt_text(self.model),
            tools: texts(self.tools@),
            permissions: texts(self.permissions@),
            created: self.created,
            started: self.started,
            completed: self.completed,
            history: self.history@.map_values(|r: TransitionRecord| r@),
        }
    }
}

fn copy_opt_text(o: &Option<String>) -> (r: Option<String>)
    ensures
        opt_text(r) == opt_text(*o),
{
    match o {
        Some(s) => Some(s.clone()),
        None => None,
    }
}

fn copy_texts(v: &Vec<String>) -> (r: Vec<String>)
    ensures
        texts(r@) == texts(v@),
{
    let mut r: Vec<String> = Vec::new();
    let mut i: usize = 0;
    while i < v.len()
        invariant
            0 <= i <= v@.len(),
            texts(r@) == texts(v@.take(i as int)),
        decreases v@.len() - i,
    {
        let ghost r0 = r@;
        r.push(v[i].clone());
        proof {
            lemma_take_push(v@, i as int);
            lemma_map_push(r0, v@[i as int], |s: String| s@);
            lemma_map_push(v@.take(i as int), v@[i as int], |s: String| s@);
        }
        i = i + 1;
    }
    assert(v@.take(v@.len() as int) =~= v@);
    r
}

impl TransitionRecord {
    fn duplicate(&self) -> (r: TransitionRecord)
        ensures
            r@ == self@,
    {
        TransitionRecord {
            from: self.from,
            to: self.to,
            at: self.at,
            reason: copy_opt_text(&self.reason),
        }
    }
}

impl Task {
    /// The task as it stands, detached from its manager.
    pub fn snapshot(&self) -> (r: Task)
        ensures
            r@ == self@,
    {
        let mut history: Vec<TransitionRecord> = Vec::new();
        let mut i: usize = 0;
        while i < self.history.len()
            invariant
                0 <= i <= self.history@.len(),
                history@.map_values(|r: TransitionRecord| r@)
                    == self.history@.take(i as int).map_values(|r: TransitionRecord| r@),
            decreases self.history@.len() - i,
        {
            let ghost h0 = history@;
            let d = self.history[i].duplicate();
            history.push(d);
            proof {
                lemma_take_push(self.history@, i as int);
                lemma_map_push(h0, d, |r: TransitionRecord| r@);
                lemma_map_push(self.history@.take(i as int), self.history@[i as int], |r: TransitionRecord| r@);
            }
            i = i + 1;
        }
        assert(self.history@.take(self.history@.len() as int) =~= self.history@);
        Task {
            id: self.id,
            user_request: self.user_request.clone(),
            intent: copy_opt_text(&self.intent),
            priority: self.priority,
            state: self.state,
            agent: copy_opt_text(&self.agent),
            model: copy_opt_text(&self.model),
            tools: copy_texts(&self.tools),
            permissions: copy_texts(&self.permissions),
            created: self.created,
            started: self.started,
            completed: self.completed,
            history,
        }
    }
}

/// Why a task operation was refused.
#[derive(Debug, Clone, Copy, PartialEq, Eq, Structural)]
pub enum TaskError {
    NotFound(TaskId),
    InvalidTransition { id: TaskId, from: TaskState, to: TaskState },
    EmptyRequest,
}

/// A fresh task as `create` records it.
pub open spec fn new_task(id: TaskId, request: Seq<char>, priority: Priority, created: SystemTime) -> TaskView {
    TaskView {
        id,
        user_request: request,
        intent: None,
        priority,
        state: TaskState::Created,
        agent: None,
        model: None,
        tools: Seq::empty(),
        permissions: Seq::empty(),
        created,
        started: None,
        completed: None,
        history: Seq::empty(),
    }
}

/// `t` after a transition to `to` at time `at`: the state changes, the first
/// entry into `Executing` records the start, entering a terminal state records
/// completion, and the change is appended to the history.
pub open spec fn moved(t: TaskView, to: TaskState, at: SystemTime, reason: Option<Seq<char>>) -> TaskView {
    TaskView {
        state: to,
        started: if to is Executing && t.started is None { Some(at) } else { t.started },
        completed: if to.terminal() { Some(at) } else { t.completed },
        history: t.history.push(TransitionView { from: t.state, to, at, reason }),
        ..t
    }
}

/// The events a successful transition publishes, in order.
pub open spec fn transition_events(id: TaskId, from: TaskState, to: TaskState) -> Seq<EventView> {
    if to is Completed {
        seq![EventView::TaskStateChanged { id, from, to }, EventView::TaskCompleted { id }]
    } else {
        seq![EventView::TaskStateChanged { id, from, to }]
    }
}

/// Task `i` (counting from 0) has identifier `i + 1`.
pub open spec fn ids_dense(tasks: Seq<TaskView>) -> bool {
    forall|i: int| 0 <= i < tasks.len() ==> #[trigger] tasks[i].id.0 == i + 1
}

/// The recorded history of `t` is a path through the transition table from
/// `Created` to the task's state; `started` is set exactly when that path has
/// entered `Executing`, at the time of the first such entry; `completed` is
/// set exactly when the state is terminal, at the time of reaching it.
pub open spec fn consistent(t: TaskView) -> bool {
    &&& forall|i: int| 0 <= i < t.history.len() ==> (#[trigger] t.history[i]).from.allows(t.history[i].to)
    &&& forall|i: int, j: int|
        #![trigger t.history[i], t.history[j]]
        0 <= i && j == i + 1 && j < t.history.len() ==> t.history[j].from == t.history[i].to
    &&& t.history.len() == 0 ==> t.state is Created
    &&& t.history.len() > 0 ==> t.history[0].from is Created && t.history.last().to == t.state
    &&& (t.started is Some <==> exists|i: int| 0 <= i < t.history.len() && (#[trigger] t.history[i]).to is Executing)
    &&& (t.started matches Some(s) ==> exists|i: int| #[trigger] first_entry_to_executing(t.history, i) && t.history[i].at == s)
    &&& (t.completed is Some <==> t.state.terminal())
    &&& (t.state.terminal() ==> t.completed == Some(t.history.last().at))
}

/// Record `i` is the first of `history` that enters `Executing`.
pub open spec fn first_entry_to_executing(history: Seq<TransitionView>, i: int) -> bool {
    &&& 0 <= i < history.len()
    &&& history[i].to is Executing
    &&& forall|j: int| 0 <= j < i ==> !((#[trigger] history[j]).to is Executing)
}

/// The invariant of a task table: identifiers count from 1 in order, and
/// every task is consistent with its history.
pub open spec fn well_formed(tasks: Seq<TaskView>) -> bool {
    &&& ids_dense(tasks)
    &&& forall|i: int| 0 <= i < tasks.len() ==> consistent(#[trigger] tasks[i])
}

/// Whether `id` names one of `tasks`.
pub open spec fn holds(tasks: Seq<TaskView>, id: TaskId) -> bool {
    1 <= id.0 <= tasks.len()
}

/// The tasks not in a terminal state, in order.
pub open spec fn active_tasks(tasks: Seq<TaskView>) -> Seq<TaskView> {
    tasks.filter(|t: TaskView| !t.state.terminal())
}

/// The terminal states are exactly `Completed`, `Failed` and `Cancelled`.
pub proof fn law_terminal_states_are_completed_failed_cancelled(s: TaskState)
    ensures
        s.terminal() <==> (s == TaskState::Completed || s == TaskState::Failed || s == TaskState::Cancelled),
{
}

/// A new task records what it was created with (identifier, request,
/// priority, creation time) and nothing else: it is `Created`, has no
/// history, was never started or completed, and has no intent, agent,
/// model, tools or permissions.
pub proof fn law_new_task_records_its_inputs(id: TaskId, request: Seq<char>, priority: Priority, created: SystemTime)
    ensures
        new_task(id, request, priority, created).id == id,
        new_task(id, request, priority, created).user_request == request,
        new_task(id, request, priority, created).priority == priority,
        new_task(id, request, priority, created).created == created,
        new_task(id, request, priority, created).state == TaskState::Created,
        new_task(id, request, priority, created).history.len() == 0,
        new_task(id, request, priority, created).started is None,
        new_task(id, request, priority, created).completed is None,
        new_task(id, request, priority, created).intent is None,
        new_task(id, request, priority, created).agent is None,
        new_task(id, request, priority, created).model is None,
        new_task(id, request, priority, created).tools.len() == 0,
        new_task(id, request, priority, created).permissions.len() == 0,
{
}

/// A move to `to` at time `at` changes the state to `to` and appends one
/// record of it to the history; it sets `started` only on the first entry to
/// `Executing` and `completed` only on entering `Completed`, `Failed` or
/// `Cancelled`; everything else about the task stays.
pub proof fn law_move_records_the_transition(t: TaskView, to: TaskState, at: SystemTime, reason: Option<Seq<char>>)
    ensures
        moved(t, to, at, reason).state == to,
        moved(t, to, at, reason).history.len() == t.history.len() + 1,
        moved(t, to, at, reason).history.drop_last() == t.history,
        moved(t, to, at, reason).history.last() == (TransitionView { from: t.state, to, at, reason }),
        moved(t, to, at, reason).started == (if to == TaskState::Executing && t.started is None {
            Some(at)
        } else {
            t.started
        }),
        moved(t, to, at, reason).completed == (if to == TaskState::Completed || to == TaskState::Failed
            || to == TaskState::Cancelled {
            Some(at)
        } else {
            t.completed
        }),
        moved(t, to, at, reason).id == t.id,
        moved(t, to, at, reason).user_request == t.user_request,
        moved(t, to, at, reason).priority == t.priority,
        moved(t, to, at, reason).created == t.created,
{
    assert(moved(t, to, at, reason).history.drop_last() =~= t.history);
}

/// A transition announces itself first, and announces completion only when
/// it completes the task: it publishes `TaskStateChanged` for the move, then
/// `TaskCompleted` exactly when the new state is `Completed`, and nothing else.
pub proof fn law_transition_announces_completion_only_on_completed(id: TaskId, from: TaskState, to: TaskState)
    ensures
        transition_events(id, from, to).len() >= 1,
        transition_events(id, from, to)[0] == (EventView::TaskStateChanged { id, from, to }),
        transition_events(id, from, to).len() == (if to == TaskState::Completed { 2int } else { 1int }),
        to == TaskState::Completed ==> transition_events(id, from, to)[1] == (EventView::TaskCompleted { id }),
        forall|i: int| 0 <= i < transition_events(id, from, to).len()
            ==> (#[trigger] transition_events(id, from, to)[i] == (EventView::TaskCompleted { id }) <==> to == TaskState::Completed && i == 1),
{
}

/// The active tasks are exactly the unfinished ones, in order: none of them is
/// `Completed`, `Failed` or `Cancelled`, each is one of the tasks, and every
/// task in none of those states is among them.
pub proof fn law_active_tasks_are_the_unfinished_ones(tasks: Seq<TaskView>)
    ensures
        active_tasks(tasks).len() <= tasks.len(),
        forall|i: int| 0 <= i < active_tasks(tasks).len() ==> {
            let t = #[trigger] active_tasks(tasks)[i];
            &&& !(t.state == TaskState::Completed || t.state == TaskState::Failed || t.state == TaskState::Cancelled)
            &&& tasks.contains(t)
        },
        forall|i: int| 0 <= i < tasks.len() && !(tasks[i].state == TaskState::Completed || tasks[i].state
            == TaskState::Failed || tasks[i].state == TaskState::Cancelled) ==> #[trigger] active_tasks(tasks).contains(
            tasks[i],
        ),
{
    let p = |t: TaskView| !t.state.terminal();
    tasks.lemma_filter_len(p);
    assert forall|i: int| 0 <= i < active_tasks(tasks).len() implies {
        let t = #[trigger] active_tasks(tasks)[i];
        &&& !(t.state == TaskState::Completed || t.state == TaskState::Failed || t.state == TaskState::Cancelled)
        &&& tasks.contains(t)
    } by {
        tasks.lemma_filter_pred(p, i);
        assert(tasks.filter(p).contains(tasks.filter(p)[i]));
        tasks.lemma_filter_contains_rev(p, tasks.filter(p)[i]);
    }
    assert forall|i: int| 0 <= i < tasks.len() && !(tasks[i].state == TaskState::Completed || tasks[i].state
        == TaskState::Failed || tasks[i].state == TaskState::Cancelled) implies #[trigger] active_tasks(tasks).contains(
        tasks[i],
    ) by {
        tasks.lemma_filter_contains(p, i);
    }
}

/// A terminal state accepts no transition: a failed, cancelled or completed
/// task stays as it is, and retrying means a new task.
pub proof fn law_terminal_states_are_final(from: TaskState, to: TaskState)
    requires
        from.terminal(),
    ensures
        !from.allows(to),
{
}

/// Every state that is not terminal can be cancelled.
pub proof fn law_live_states_can_be_cancelled(from: TaskState)
    requires
        !from.terminal(),
    ensures
        from.allows(TaskState::Cancelled),
{
}

/// `Completed` is reachable only from `Executing`.
pub proof fn law_completion_only_from_executing(from: TaskState)
    requires
        from.allows(TaskState::Completed),
    ensures
        from is Executing,
{
}

/// A completed task has run: its history passed through `Executing`, and
/// its start and completion times are recorded.
pub proof fn law_completed_task_has_run(t: TaskView)
    requires
        consistent(t),
        t.state is Completed,
    ensures
        exists|i: int| 0 <= i < t.history.len() && (#[trigger] t.history[i]).to is Executing,
        t.started is Some,
        t.completed is Some,
{
    let n = t.history.len() as int;
    assert(n > 0);
    assert(t.history[n - 1].from.allows(t.history[n - 1].to));
    if n == 1 {
        assert(t.history[0].from is Created);
    } else {
        assert(t.history[n - 1].from == t.history[n - 2].to);
        assert(t.history[n - 2].to is Executing);
    }
}

/// The tasks of a well-formed table have distinct identifiers.
pub proof fn law_task_ids_are_distinct(tasks: Seq<TaskView>, i: int, j: int)
    requires
        well_formed(tasks),
        0 <= i < j < tasks.len(),
    ensures
        tasks[i].id != tasks[j].id,
{
    assert(tasks[i].id.0 == i + 1);
    assert(tasks[j].id.0 == j + 1);
}

proof fn lemma_moved_consistent(t: TaskView, to: TaskState, at: SystemTime, reason: Option<Seq<char>>)
    requires
        consistent(t),
        t.state.allows(to),
    ensures
        consistent(moved(t, to, at, reason)),
{
    let m = moved(t, to, at, reason);
    let n = t.history.len() as int;
    assert(m.history[n].from == t.state);
    assert forall|i: int| 0 <= i < m.history.len() implies (#[trigger] m.history[i]).from.allows(m.history[i].to) by {
        if i < n {
            assert(m.history[i] == t.history[i]);
        }
    }
    assert forall|i: int, j: int|
        #![trigger m.history[i], m.history[j]]
        0 <= i && j == i + 1 && j < m.history.len() implies m.history[j].from == m.history[i].to by {
        if j < n {
            assert(m.history[i] == t.history[i]);
            assert(m.history[j] == t.history[j]);
        } else {
            assert(m.history[i] == t.history[n - 1]);
        }
    }
    if n > 0 {
        assert(m.history[0] == t.history[0]);
    }
    if t.started is Some {
        let i = choose|i: int| 0 <= i < t.history.len() && (#[trigger] t.history[i]).to is Executing;
        assert(m.history[i] == t.history[i]);
        let f = choose|f: int| #[trigger] first_entry_to_executing(t.history, f) && t.history[f].at == t.started->Some_0;
        assert forall|j: int| 0 <= j < f implies !((#[trigger] m.history[j]).to is Executing) by {
            assert(m.history[j] == t.history[j]);
        }
        assert(first_entry_to_executing(m.history, f));
    } else if to is Executing {
        assert(m.history[n].to is Executing);
        assert forall|j: int| 0 <= j < n implies !((#[trigger] m.history[j]).to is Executing) by {
            assert(m.history[j] == t.history[j]);
        }
        assert(first_entry_to_executing(m.history, n));
    } else {
        assert forall|i: int| 0 <= i < m.history.len() implies !((#[trigger] m.history[i]).to is Executing) by {
            if i < n {
                assert(m.history[i] == t.history[i]);
            }
        }
    }
    assert(!t.state.terminal());
}

/// Owns all tasks and publishes task events on a bus.
#[derive(Debug)]
pub struct TaskManager {
    tasks: Vec<Task>,
}

impl View for TaskManager {
    type V = Seq<TaskView>;

    closed spec fn view(&self) -> Seq<TaskView> {
        self.tasks@.map_values(|t: Task| t@)
    }
}

impl TaskManager {
    /// Identities are dense and every task's record is consistent.
    #[verifier::type_invariant]
    closed spec fn tasks_consistent(self) -> bool {
        well_formed(self@)
    }

    pub fn new() -> (m: TaskManager)
        ensures
            m@ == Seq::<TaskView>::empty(),
            well_formed(m@),
    {
        let m = TaskManager { tasks: Vec::new() };
        assert(m@ =~= Seq::<TaskView>::empty());
        m
    }

    /// Create a task in state `Created` for the trimmed request.
    pub fn create(&mut self, bus: &mut EventBus, user_request: &str, priority: Priority) -> (r: Result<TaskId, TaskError>)
        requires
            old(self)@.len() < usize::MAX,
        ensures
            trim(user_request@).len() == 0 ==> {
                &&& r == Err::<TaskId, TaskError>(TaskError::EmptyRequest)
                &&& final(self)@ == old(self)@
                &&& final(bus)@ == old(bus)@
            },
            trim(user_request@).len() > 0 ==> {
                let id = TaskId((old(self)@.len() + 1) as u64);
                &&& r == Ok::<TaskId, TaskError>(id)
                &&& final(self)@ == old(self)@.push(
                    new_task(id, trim(user_request@), priority, final(self)@.last().created),
                )
                &&& old(bus)@.publishes(SOURCE@, seq![EventView::TaskCreated { id }], final(bus)@)
            },
            well_formed(final(self)@),
    {
        proof {
            use_type_invariant(&*self);
        }
        let request = trim_str(user_request);
        if request.is_empty() {
            return Err(TaskError::EmptyRequest);
        }
        let id = TaskId(self.tasks.len() as u64 + 1);
        let task = Task {
            id,
            user_request: request.to_owned(),
            intent: None,
            priority,
            state: TaskState::Created,
            agent: None,
            model: None,
            tools: Vec::new(),
            permissions: Vec::new(),
            created: clock::now(),
            started: None,
            completed: None,
            history: Vec::new(),
        };
        let ghost tv = task@;
        assert(tv == new_task(id, trim(user_request@), priority, task.created)) by {
            assert(tv.tools =~= Seq::<Seq<char>>::empty());
            assert(tv.permissions =~= Seq::<Seq<char>>::empty());
            assert(tv.history =~= Seq::<TransitionView>::empty());
        }
        let mut tasks: Vec<Task> = Vec::new();
        std::mem::swap(&mut tasks, &mut self.tasks);
        tasks.push(task);
        assert(tasks@.map_values(|t: Task| t@) =~= old(self)@.push(tv));
        assert(consistent(tv));
        self.tasks = tasks;
        let ghost b0 = bus@;
        bus.publish(SOURCE, Event::TaskCreated { id });
        proof {
            lemma_publishes_nothing(b0, SOURCE@);
            lemma_publishes_then(b0, b0, bus@, SOURCE@, Seq::empty(), EventView::TaskCreated { id });
            assert(Seq::<EventView>::empty().push(EventView::TaskCreated { id }) =~= seq![EventView::TaskCreated { id }]);
        }
        Ok(id)
    }

    /// Move a task to a new state, validating the transition.
    pub fn transition(&mut self, bus: &mut EventBus, id: TaskId, to: TaskState, reason: Option<&str>) -> (r: Result<(), TaskError>)
        ensures
            !holds(old(self)@, id) ==> {
                &&& r == Err::<(), TaskError>(TaskError::NotFound(id))
                &&& final(self)@ == old(self)@
                &&& final(bus)@ == old(bus)@
            },
            holds(old(self)@, id) && !old(self)@[id.0 - 1].state.allows(to) ==> {
                &&& r == Err::<(), TaskError>(TaskError::InvalidTransition { id, from: old(self)@[id.0 - 1].state, to })
                &&& final(self)@ == old(self)@
                &&& final(bus)@ == old(bus)@
            },
            holds(old(self)@, id) && old(self)@[id.0 - 1].state.allows(to) ==> {
                let k = id.0 - 1;
                let t = old(self)@[k];
                &&& r == Ok::<(), TaskError>(())
                &&& final(self)@ == old(self)@.update(
                    k,
                    moved(t, to, final(self)@[k].history.last().at, opt_str(reason)),
                )
                &&& old(bus)@.publishes(SOURCE@, transition_events(id, t.state, to), final(bus)@)
            },
            well_formed(final(self)@),
    {
        proof {
            use_type_invariant(&*self);
        }
        if id.0 == 0 || id.0 > self.tasks.len() as u64 {
            return Err(TaskError::NotFound(id));
        }
        let k = (id.0 - 1) as usize;
        let from = self.tasks[k].state;
        if !from.can_transition_to(to) {
            return Err(TaskError::InvalidTransition { id, from, to });
        }
        let ghost t = old(self)@[k as int];
        let now = clock::now();
        let reason_text: Option<String> = match reason {
            Some(r) => Some(r.to_owned()),
            None => None,
        };
        let mut tasks: Vec<Task> = Vec::new();
        std::mem::swap(&mut tasks, &mut self.tasks);
        let task = &mut tasks[k];
        if to == TaskState::Executing && task.started.is_none() {
            task.started = Some(now);
        }
        if to.is_terminal() {
            task.completed = Some(now);
        }
        task.state = to;
        task.history.push(TransitionRecord { from, to, at: now, reason: reason_text });
        proof {
            let nt = tasks@[k as int]@;
            let all = tasks@.map_values(|t: Task| t@);
            assert(nt.history =~= t.history.push(TransitionView { from, to, at: now, reason: opt_str(reason) }));
            assert(nt == moved(t, to, now, opt_str(reason)));
            assert(all =~= old(self)@.update(k as int, nt));
            assert(consistent(t));
            lemma_moved_consistent(t, to, now, opt_str(reason));
            assert forall|i: int| 0 <= i < all.len() implies consistent(#[trigger] all[i]) by {
                if i != k {
                    assert(all[i] == old(self)@[i]);
                }
            }
        }
        self.tasks = tasks;
        let ghost b0 = bus@;
        let ghost evs = transition_events(id, from, to);
        bus.publish(SOURCE, Event::TaskStateChanged { id, from, to });
        proof {
            lemma_publishes_nothing(b0, SOURCE@);
            lemma_publishes_then(b0, b0, bus@, SOURCE@, Seq::empty(), EventView::TaskStateChanged { id, from, to });
            assert(Seq::<EventView>::empty().push(EventView::TaskStateChanged { id, from, to }) =~= evs.take(1));
        }
        if to == TaskState::Completed {
            let ghost b1 = bus@;
            bus.publish(SOURCE, Event::TaskCompleted { id });
            proof {
                lemma_publishes_then(b0, b1, bus@, SOURCE@, evs.take(1), EventView::TaskCompleted { id });
                assert(evs.take(1).push(EventView::TaskCompleted { id }) =~= evs);
            }
        } else {
            assert(evs =~= evs.take(1));
        }
        Ok(())
    }

    /// Snapshot of a task.
    pub fn get(&self, id: TaskId) -> (r: Option<Task>)
        ensures
            holds(self@, id) ==> (r matches Some(t) && t@ == self@[id.0 - 1]),
            !holds(self@, id) ==> r is None,
            well_formed(self@),
    {
        proof {
            use_type_invariant(self);
        }
        if id.0 == 0 || id.0 > self.tasks.len() as u64 {
            return None;
        }
        Some(self.tasks[(id.0 - 1) as usize].snapshot())
    }

    /// Snapshot of all tasks, ordered by id.
    pub fn list(&self) -> (r: Vec<Task>)
        ensures
            r@.map_values(|t: Task| t@) == self@,
            well_formed(self@),
    {
        proof {
            use_type_invariant(self);
        }
        let mut r: Vec<Task> = Vec::new();
        let mut i: usize = 0;
        while i < self.tasks.len()
            invariant
                0 <= i <= self.tasks@.len(),
                r@.map_values(|t: Task| t@) == self@.take(i as int),
            decreases self.tasks@.len() - i,
        {
            let ghost r0 = r@;
            let t = self.tasks[i].snapshot();
            r.push(t);
            proof {
                lemma_map_push(r0, t, |t: Task| t@);
                lemma_take_push(self@, i as int);
            }
            i = i + 1;
        }
        assert(self@.take(self@.len() as int) =~= self@);
        r
    }

    /// Tasks not in a terminal state, ordered by id.
    pub fn active(&self) -> (r: Vec<Task>)
        ensures
            r@.map_values(|t: Task| t@) == active_tasks(self@),
    {
        let mut r: Vec<Task> = Vec::new();
        let mut i: usize = 0;
        while i < self.tasks.len()
            invariant
                0 <= i <= self.tasks@.len(),
                r@.map_values(|t: Task| t@) == active_tasks(self@.take(i as int)),
            decreases self.tasks@.len() - i,
        {
            proof {
                reveal_with_fuel(Seq::filter, 1);
                assert(self@.take(i + 1).drop_last() =~= self@.take(i as int));
            }
            if !self.tasks[i].state.is_terminal() {
                let ghost r0 = r@;
                let t = self.tasks[i].snapshot();
                r.push(t);
                proof {
                    lemma_map_push(r0, t, |t: Task| t@);
                }
            }
            i = i + 1;
        }
        assert(self@.take(self@.len() as int) =~= self@);
        r
    }
}

} // verus!
