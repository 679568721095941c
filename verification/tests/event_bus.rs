use std::time::Duration;

use refx_core::event::{Event, EventBus};

#[test]
fn every_subscriber_receives_every_event_in_order() {
    let mut bus = EventBus::new();
    let a = bus.subscribe();
    let b = bus.subscribe();
    bus.publish("test", Event::RuntimeStarted);
    bus.publish("test", Event::RuntimeStopped);

    for sub in [&a, &b] {
        let got: Vec<_> = sub.drain(&mut bus).into_iter().map(|e| (e.seq, e.event)).collect();
        assert_eq!(got, vec![(0, Event::RuntimeStarted), (1, Event::RuntimeStopped)]);
    }
}

#[test]
fn late_subscriber_does_not_see_earlier_events() {
    let mut bus = EventBus::new();
    bus.publish("test", Event::RuntimeStarted);
    let late = bus.subscribe();
    assert!(late.try_recv(&mut bus).is_none());
}

#[test]
fn dropped_subscribers_are_pruned() {
    let mut bus = EventBus::new();
    let keep = bus.subscribe();
    drop(bus.subscribe());
    assert_eq!(bus.subscriber_count(), 2);
    bus.publish("test", Event::VoiceDetected);
    assert_eq!(bus.subscriber_count(), 1);
    assert!(keep.try_recv(&mut bus).is_some());
}

#[test]
fn envelope_records_source() {
    let mut bus = EventBus::new();
    let sub = bus.subscribe();
    bus.publish("core.tasks", Event::RuntimeStarted);
    assert_eq!(sub.try_recv(&mut bus).map(|e| e.source).as_deref(), Some("core.tasks"));
}

#[test]
fn publish_returns_consecutive_sequence_numbers() {
    let mut bus = EventBus::new();
    assert_eq!(bus.publish("t", Event::VoiceDetected), 0);
    assert_eq!(bus.publish("t", Event::VoiceDetected), 1);
    assert_eq!(bus.publish("t", Event::VoiceDetected), 2);
}

#[test]
fn try_recv_takes_oldest_first_and_drain_empties() {
    let mut bus = EventBus::new();
    let sub = bus.subscribe();
    bus.publish("a", Event::ModelLoaded { model: "m".into() });
    bus.publish("b", Event::ModelUnloaded { model: "m".into() });
    bus.publish("c", Event::VoiceDetected);
    let first = sub.try_recv(&mut bus).expect("first");
    assert_eq!((first.seq, first.source.as_str()), (0, "a"));
    assert_eq!(first.event, Event::ModelLoaded { model: "m".into() });
    let rest: Vec<u64> = sub.drain(&mut bus).into_iter().map(|e| e.seq).collect();
    assert_eq!(rest, vec![1, 2]);
    assert!(sub.drain(&mut bus).is_empty());
    assert!(sub.try_recv(&mut bus).is_none());
}

#[test]
fn recv_timeout_returns_what_is_waiting() {
    let mut bus = EventBus::new();
    let sub = bus.subscribe();
    assert!(sub.recv_timeout(&mut bus, Duration::from_millis(1)).is_none());
    bus.publish("t", Event::RuntimeStopping);
    let e = sub.recv_timeout(&mut bus, Duration::from_millis(1)).expect("event");
    assert_eq!(e.event, Event::RuntimeStopping);
}

#[test]
fn unsubscribed_queue_is_gone_and_others_keep_theirs() {
    let mut bus = EventBus::new();
    let a = bus.subscribe();
    let b = bus.subscribe();
    bus.publish("t", Event::VoiceDetected);
    a.unsubscribe(&mut bus);
    bus.publish("t", Event::RuntimeStopped);
    assert_eq!(bus.subscriber_count(), 1);
    let got: Vec<u64> = b.drain(&mut bus).into_iter().map(|e| e.seq).collect();
    assert_eq!(got, vec![0, 1]);
}

#[test]
fn subscription_of_another_bus_receives_nothing() {
    let mut one = EventBus::new();
    let mut other = EventBus::new();
    let _first = other.subscribe();
    let sub = one.subscribe();
    let sub2 = one.subscribe();
    one.publish("t", Event::VoiceDetected);
    other.publish("t", Event::VoiceDetected);
    assert!(sub2.try_recv(&mut other).is_none());
    assert!(sub.try_recv(&mut one).is_some());
}

#[test]
fn duplicate_of_an_event_is_equal() {
    let e = Event::ServiceFailed { name: "a".into(), error: "boom".into() };
    assert_eq!(e.duplicate(), e);
}

#[test]
fn unsubscribed_handle_is_pruned_like_a_dropped_one() {
    let mut bus = EventBus::new();
    let keep = bus.subscribe();
    bus.subscribe().unsubscribe(&mut bus);
    let gone = bus.subscribe();
    drop(gone);
    assert_eq!(bus.subscriber_count(), 3);
    assert_eq!(bus.publish("test", Event::VoiceDetected), 0);
    assert_eq!(bus.subscriber_count(), 1);
    assert_eq!(keep.drain(&mut bus).len(), 1);
}

#[test]
fn publish_counted_serves_only_handles_that_still_exist() {
    let mut bus = EventBus::new();
    let a = bus.subscribe();
    let b = bus.subscribe();
    let c = bus.subscribe();
    assert_eq!(bus.publish_counted("t", Event::VoiceDetected, &vec![2, 1, 3]), 0);
    assert_eq!(bus.subscriber_count(), 2);
    assert_eq!(a.drain(&mut bus).len(), 1);
    assert!(b.try_recv(&mut bus).is_none());
    assert_eq!(c.drain(&mut bus).len(), 1);
}
