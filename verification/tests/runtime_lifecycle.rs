use std::sync::{Arc, Mutex};

use refx_core::event::Event;
use refx_core::runtime::{ContextView, RuntimeError, ServiceError};
use refx_core::task::TaskError;
use refx_core::{Priority, RefxConfig, Runtime, RuntimeState, Service, ServiceContext, TaskState};

type Log = Arc<Mutex<Vec<String>>>;

#[derive(Debug)]
struct Probe {
    name: String,
    log: Log,
    fail_start: bool,
    fail_stop: bool,
}

impl Probe {
    fn boxed(name: &str, log: &Log) -> Box<Self> {
        Box::new(Self {
            name: name.into(),
            log: Arc::clone(log),
            fail_start: false,
            fail_stop: false,
        })
    }
}

impl Service for Probe {
    fn spec_name(&self) -> vstd::seq::Seq<char> {
        unreachable!("a specification function is never run")
    }
    fn running(&self) -> bool {
        unreachable!("a specification function is never run")
    }
    fn last_error(&self) -> vstd::seq::Seq<char> {
        unreachable!("a specification function is never run")
    }
    fn started_with(&self) -> ContextView {
        unreachable!("a specification function is never run")
    }
    fn name(&self) -> &str {
        &self.name
    }
    fn start(&mut self, _: &ServiceContext) -> Result<(), ServiceError> {
        if self.fail_start {
            return Err("boom".into());
        }
        self.log.lock().expect("log").push(format!("start {}", self.name));
        Ok(())
    }
    fn stop(&mut self) -> Result<(), ServiceError> {
        self.log.lock().expect("log").push(format!("stop {}", self.name));
        if self.fail_stop {
            return Err("stuck".into());
        }
        Ok(())
    }
}

fn log() -> Log {
    Arc::new(Mutex::new(Vec::new()))
}

#[test]
fn services_start_in_order_and_stop_in_reverse() {
    let l = log();
    let mut rt = Runtime::new(RefxConfig::default());
    for n in ["a", "b", "c"] {
        rt.register(Probe::boxed(n, &l)).expect("register");
    }
    let sub = rt.context_mut().bus.subscribe();
    rt.start().expect("start");
    assert_eq!(rt.state(), RuntimeState::Running);
    rt.shutdown().expect("shutdown");
    assert_eq!(rt.state(), RuntimeState::Stopped);

    assert_eq!(
        *l.lock().expect("log"),
        ["start a", "start b", "start c", "stop c", "stop b", "stop a"]
    );
    let events: Vec<_> = sub.drain(&mut rt.context_mut().bus).into_iter().map(|e| e.event).collect();
    assert_eq!(events[3], Event::RuntimeStarted);
    assert_eq!(events.last(), Some(&Event::RuntimeStopped));
}

#[test]
fn failed_start_rolls_back_started_services() {
    let l = log();
    let mut rt = Runtime::new(RefxConfig::default());
    rt.register(Probe::boxed("a", &l)).expect("register");
    let mut bad = Probe::boxed("b", &l);
    bad.fail_start = true;
    rt.register(bad).expect("register");
    rt.register(Probe::boxed("c", &l)).expect("register");

    let err = rt.start().expect_err("start must fail");
    assert!(matches!(err, RuntimeError::StartFailed { ref name, .. } if name == "b"));
    assert_eq!(rt.state(), RuntimeState::Stopped);
    assert_eq!(*l.lock().expect("log"), ["start a", "stop a"], "c never started, a rolled back");
}

#[test]
fn stop_failure_still_stops_remaining_services() {
    let l = log();
    let mut rt = Runtime::new(RefxConfig::default());
    rt.register(Probe::boxed("a", &l)).expect("register");
    let mut stuck = Probe::boxed("b", &l);
    stuck.fail_stop = true;
    rt.register(stuck).expect("register");
    rt.start().expect("start");

    let err = rt.shutdown().expect_err("shutdown must report failure");
    assert!(matches!(err, RuntimeError::StopFailed(ref f) if f.len() == 1));
    assert_eq!(rt.state(), RuntimeState::Stopped);
    assert!(l.lock().expect("log").contains(&"stop a".to_string()));
}

#[test]
fn lifecycle_misuse_is_rejected() {
    let l = log();
    let mut rt = Runtime::new(RefxConfig::default());
    assert!(matches!(rt.shutdown(), Err(RuntimeError::NotRunning)));
    rt.register(Probe::boxed("a", &l)).expect("register");
    assert!(matches!(rt.register(Probe::boxed("a", &l)), Err(RuntimeError::DuplicateService(_))));
    rt.start().expect("start");
    assert!(matches!(rt.start(), Err(RuntimeError::AlreadyRunning)));
    assert!(matches!(rt.register(Probe::boxed("z", &l)), Err(RuntimeError::RegisterWhileRunning)));
}

#[test]
fn shutting_down_if_running_stops_services() {
    let l = log();
    {
        let mut rt = Runtime::new(RefxConfig::default());
        rt.register(Probe::boxed("a", &l)).expect("register");
        rt.start().expect("start");
        rt.shut_down_if_running();
        assert_eq!(rt.state(), RuntimeState::Stopped);
    }
    assert_eq!(*l.lock().expect("log"), ["start a", "stop a"]);
}

#[test]
fn dropping_a_runtime_makes_no_service_call() {
    let l = log();
    {
        let mut rt = Runtime::new(RefxConfig::default());
        rt.register(Probe::boxed("a", &l)).expect("register");
        rt.start().expect("start");
    }
    assert_eq!(*l.lock().expect("log"), ["start a"]);
}

#[test]
fn tasks_are_available_through_runtime_context() {
    let mut rt = Runtime::new(RefxConfig::default());
    let ctx = rt.context_mut();
    let id = ctx.tasks.create(&mut ctx.bus, "Summarize this folder.", Priority::Normal).expect("create");
    ctx.tasks.transition(&mut ctx.bus, id, TaskState::Queued, None).expect("queue");
    assert_eq!(ctx.tasks.active().len(), 1);
}

#[test]
fn lifecycle_events_are_published_in_order() {
    let l = log();
    let mut rt = Runtime::new(RefxConfig::default());
    rt.register(Probe::boxed("a", &l)).expect("register");
    rt.register(Probe::boxed("b", &l)).expect("register");
    let sub = rt.context_mut().bus.subscribe();
    rt.start().expect("start");
    rt.shutdown().expect("shutdown");
    let envelopes = sub.drain(&mut rt.context_mut().bus);
    assert!(envelopes.iter().all(|e| e.source == "core.runtime"));
    let events: Vec<Event> = envelopes.into_iter().map(|e| e.event).collect();
    assert_eq!(
        events,
        vec![
            Event::ServiceStarted { name: "a".into() },
            Event::ServiceStarted { name: "b".into() },
            Event::RuntimeStarted,
            Event::RuntimeStopping,
            Event::ServiceStopped { name: "b".into() },
            Event::ServiceStopped { name: "a".into() },
            Event::RuntimeStopped,
        ]
    );
}

#[test]
fn failed_start_publishes_failure_then_rollback() {
    let l = log();
    let mut rt = Runtime::new(RefxConfig::default());
    rt.register(Probe::boxed("a", &l)).expect("register");
    let mut bad = Probe::boxed("b", &l);
    bad.fail_start = true;
    rt.register(bad).expect("register");
    let sub = rt.context_mut().bus.subscribe();
    let err = rt.start().expect_err("start must fail");
    assert_eq!(err, RuntimeError::StartFailed { name: "b".into(), source: "boom".into() });
    let events: Vec<Event> = sub.drain(&mut rt.context_mut().bus).into_iter().map(|e| e.event).collect();
    assert_eq!(
        events,
        vec![
            Event::ServiceStarted { name: "a".into() },
            Event::ServiceFailed { name: "b".into(), error: "boom".into() },
            Event::ServiceStopped { name: "a".into() },
        ]
    );
    rt.start().expect_err("b still fails");
}

#[test]
fn stop_failures_are_reported_with_service_names() {
    let l = log();
    let mut rt = Runtime::new(RefxConfig::default());
    for n in ["a", "b", "c"] {
        let mut p = Probe::boxed(n, &l);
        p.fail_stop = n != "b";
        rt.register(p).expect("register");
    }
    rt.start().expect("start");
    let err = rt.shutdown().expect_err("two stops fail");
    assert_eq!(err, RuntimeError::StopFailed(vec!["c: stuck".into(), "a: stuck".into()]));
    assert_eq!(rt.state(), RuntimeState::Stopped);
    rt.start().expect("restart");
    assert_eq!(rt.state(), RuntimeState::Running);
}

#[test]
fn service_names_keep_registration_order() {
    let l = log();
    let mut rt = Runtime::new(RefxConfig::default());
    assert!(rt.service_names().is_empty());
    for n in ["core.scheduler", "core.agents"] {
        rt.register(Probe::boxed(n, &l)).expect("register");
    }
    assert_eq!(rt.service_names(), vec!["core.scheduler", "core.agents"]);
    assert_eq!(rt.context().config, RefxConfig::default());
}

#[test]
fn empty_runtime_starts_and_stops() {
    let mut rt = Runtime::new(RefxConfig::default());
    let sub = rt.context_mut().bus.subscribe();
    rt.start().expect("start");
    rt.shutdown().expect("shutdown");
    let events: Vec<Event> = sub.drain(&mut rt.context_mut().bus).into_iter().map(|e| e.event).collect();
    assert_eq!(events, vec![Event::RuntimeStarted, Event::RuntimeStopping, Event::RuntimeStopped]);
}

#[test]
fn shutting_down_a_stopped_runtime_calls_no_stop() {
    let l = log();
    let mut rt = Runtime::new(RefxConfig::default());
    rt.register(Probe::boxed("a", &l)).expect("register");
    rt.start().expect("start");
    rt.shutdown().expect("shutdown");
    rt.shut_down_if_running();
    assert_eq!(*l.lock().expect("log"), ["start a", "stop a"]);
}

#[test]
fn context_tasks_publish_on_the_context_bus() {
    let mut rt = Runtime::new(RefxConfig::default());
    let ctx = rt.context_mut();
    let sub = ctx.bus.subscribe();
    let id = ctx.create_task("  open the report ", Priority::High).expect("create");
    ctx.transition_task(id, TaskState::Queued, None).expect("queue");
    assert_eq!(ctx.create_task("   ", Priority::Low), Err(TaskError::EmptyRequest));
    let events: Vec<Event> = sub.drain(&mut ctx.bus).into_iter().map(|e| e.event).collect();
    assert_eq!(
        events,
        vec![
            Event::TaskCreated { id },
            Event::TaskStateChanged { id, from: TaskState::Created, to: TaskState::Queued },
        ]
    );
    assert_eq!(ctx.tasks.get(id).expect("task").user_request, "open the report");
}
