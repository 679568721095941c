use refx_core::event::{Event, EventBus};
use refx_core::task::{TaskError, TaskManager};
use refx_core::{Priority, TaskId, TaskState};

use TaskState::{Cancelled, Completed, Created, Executing, Failed, Paused, Planning, Queued, Waiting};

const ALL: [TaskState; 9] =
    [Created, Queued, Planning, Executing, Waiting, Paused, Failed, Cancelled, Completed];

fn manager() -> (EventBus, TaskManager) {
    (EventBus::new(), TaskManager::new())
}

#[test]
fn terminal_states_have_no_outgoing_transitions() {
    for from in ALL.into_iter().filter(|s| s.is_terminal()) {
        for to in ALL {
            assert!(!from.can_transition_to(to), "{} -> {} must be rejected", from.as_str(), to.as_str());
        }
    }
}

#[test]
fn every_non_terminal_state_can_be_cancelled() {
    for from in ALL.into_iter().filter(|s| !s.is_terminal()) {
        assert!(from.can_transition_to(Cancelled), "{} must be cancellable", from.as_str());
    }
}

#[test]
fn cannot_complete_without_executing() {
    for from in [Created, Queued, Planning, Waiting, Paused] {
        assert!(!from.can_transition_to(Completed), "{} -> COMPLETED must be rejected", from.as_str());
    }
}

#[test]
fn happy_path_records_timestamps_history_and_events() {
    let (mut bus, mut tm) = manager();
    let sub = bus.subscribe();
    let id = tm.create(&mut bus, "Fix the authentication bug.", Priority::High).expect("create");
    for s in [Queued, Planning, Executing, Completed] {
        tm.transition(&mut bus, id, s, None).expect("valid transition");
    }
    let t = tm.get(id).expect("task exists");
    assert_eq!(t.state, Completed);
    assert!(t.started.is_some() && t.completed.is_some());
    assert_eq!(t.history.len(), 4);

    let events: Vec<_> = sub.drain(&mut bus).into_iter().map(|e| e.event).collect();
    assert_eq!(events.first(), Some(&Event::TaskCreated { id }));
    assert_eq!(events.last(), Some(&Event::TaskCompleted { id }));
    assert_eq!(events.len(), 1 + 4 + 1);
}

#[test]
fn invalid_transition_is_rejected_and_state_unchanged() {
    let (mut bus, mut tm) = manager();
    let id = tm.create(&mut bus, "x", Priority::Normal).expect("create");
    let sub = bus.subscribe();
    let err = tm.transition(&mut bus, id, Completed, None).expect_err("must be rejected");
    assert_eq!(err, TaskError::InvalidTransition { id, from: Created, to: Completed });
    assert_eq!(tm.get(id).map(|t| t.state), Some(Created));
    assert!(sub.try_recv(&mut bus).is_none(), "no event for rejected transition");
}

#[test]
fn unknown_task_and_empty_request_are_errors() {
    let (mut bus, mut tm) = manager();
    assert_eq!(tm.transition(&mut bus, TaskId(99), Queued, None), Err(TaskError::NotFound(TaskId(99))));
    assert_eq!(tm.create(&mut bus, "   ", Priority::Low), Err(TaskError::EmptyRequest));
}

#[test]
fn active_excludes_terminal_tasks() {
    let (mut bus, mut tm) = manager();
    let a = tm.create(&mut bus, "a", Priority::Normal).expect("create");
    let b = tm.create(&mut bus, "b", Priority::Normal).expect("create");
    tm.transition(&mut bus, b, Cancelled, Some("user cancelled")).expect("cancel");
    let active: Vec<_> = tm.active().into_iter().map(|t| t.id).collect();
    assert_eq!(active, vec![a]);
    assert_eq!(
        tm.get(b).map(|t| t.history[0].reason.clone()),
        Some(Some("user cancelled".into()))
    );
}

#[test]
fn transition_table_matches_the_documented_edges() {
    let edges = [
        (Created, Queued),
        (Queued, Planning),
        (Queued, Executing),
        (Planning, Executing),
        (Planning, Waiting),
        (Planning, Failed),
        (Executing, Waiting),
        (Executing, Paused),
        (Executing, Failed),
        (Executing, Completed),
        (Waiting, Planning),
        (Waiting, Executing),
        (Waiting, Failed),
        (Paused, Queued),
        (Paused, Executing),
    ];
    for from in ALL {
        for to in ALL {
            let expected = if to == Cancelled { !from.is_terminal() } else { edges.contains(&(from, to)) };
            assert_eq!(from.can_transition_to(to), expected, "{} -> {}", from.as_str(), to.as_str());
        }
    }
}

#[test]
fn state_names_are_upper_case() {
    let names: Vec<&str> = ALL.iter().map(|s| s.as_str()).collect();
    assert_eq!(
        names,
        ["CREATED", "QUEUED", "PLANNING", "EXECUTING", "WAITING", "PAUSED", "FAILED", "CANCELLED", "COMPLETED"]
    );
}

#[test]
fn ids_count_from_one_and_requests_are_trimmed() {
    let (mut bus, mut tm) = manager();
    let a = tm.create(&mut bus, "  first\t", Priority::Low).expect("create");
    let b = tm.create(&mut bus, "second", Priority::Critical).expect("create");
    assert_eq!((a, b), (TaskId(1), TaskId(2)));
    let t = tm.get(a).expect("task");
    assert_eq!(t.user_request, "first");
    assert_eq!(t.state, Created);
    assert_eq!(t.priority, Priority::Low);
    assert!(t.history.is_empty() && t.started.is_none() && t.completed.is_none());
    assert!(tm.get(TaskId(0)).is_none());
    assert!(tm.get(TaskId(3)).is_none());
    let ids: Vec<TaskId> = tm.list().into_iter().map(|t| t.id).collect();
    assert_eq!(ids, vec![TaskId(1), TaskId(2)]);
}

#[test]
fn whitespace_only_request_of_any_kind_is_empty() {
    let (mut bus, mut tm) = manager();
    assert_eq!(tm.create(&mut bus, "\u{3000}\n\u{a0}", Priority::Low), Err(TaskError::EmptyRequest));
    assert!(tm.list().is_empty());
}

#[test]
fn started_is_set_once_and_history_records_every_step() {
    let (mut bus, mut tm) = manager();
    let id = tm.create(&mut bus, "job", Priority::Normal).expect("create");
    tm.transition(&mut bus, id, Queued, None).expect("queue");
    tm.transition(&mut bus, id, Executing, Some("go")).expect("execute");
    let first_start = tm.get(id).expect("task").started;
    assert!(first_start.is_some());
    tm.transition(&mut bus, id, Paused, None).expect("pause");
    tm.transition(&mut bus, id, Executing, None).expect("resume");
    let t = tm.get(id).expect("task");
    assert_eq!(t.started, first_start);
    assert!(t.completed.is_none());
    let steps: Vec<(TaskState, TaskState)> = t.history.iter().map(|r| (r.from, r.to)).collect();
    assert_eq!(steps, vec![(Created, Queued), (Queued, Executing), (Executing, Paused), (Paused, Executing)]);
    assert_eq!(t.history[1].reason.as_deref(), Some("go"));
}

#[test]
fn failed_task_is_completed_and_sends_no_completion_event() {
    let (mut bus, mut tm) = manager();
    let id = tm.create(&mut bus, "job", Priority::Normal).expect("create");
    tm.transition(&mut bus, id, Queued, None).expect("queue");
    tm.transition(&mut bus, id, Planning, None).expect("plan");
    let sub = bus.subscribe();
    tm.transition(&mut bus, id, Failed, Some("no plan")).expect("fail");
    let t = tm.get(id).expect("task");
    assert!(t.completed.is_some());
    assert!(t.started.is_none());
    let events: Vec<Event> = sub.drain(&mut bus).into_iter().map(|e| e.event).collect();
    assert_eq!(events, vec![Event::TaskStateChanged { id, from: Planning, to: Failed }]);
    assert_eq!(
        tm.transition(&mut bus, id, Queued, None),
        Err(TaskError::InvalidTransition { id, from: Failed, to: Queued })
    );
}

#[test]
fn task_events_come_from_core_tasks() {
    let (mut bus, mut tm) = manager();
    let sub = bus.subscribe();
    tm.create(&mut bus, "job", Priority::Normal).expect("create");
    let e = sub.try_recv(&mut bus).expect("event");
    assert_eq!(e.source, "core.tasks");
    assert_eq!(e.seq, 0);
}

#[test]
fn cloned_task_keeps_its_timestamps() {
    let (mut bus, mut tm) = manager();
    let id = tm.create(&mut bus, "job", Priority::default()).expect("create");
    tm.transition(&mut bus, id, Queued, None).expect("queue");
    tm.transition(&mut bus, id, Executing, None).expect("execute");
    let t = tm.get(id).expect("task");
    assert_eq!(t.priority, Priority::Normal);
    let c = t.clone();
    assert_eq!(c.created, t.created);
    assert_eq!(c.started, t.started);
    assert_eq!(c.history, t.history);
    let s = t.snapshot();
    assert_eq!((s.id, s.created, s.started, s.completed), (t.id, t.created, t.started, t.completed));
}
