use reactor_core::action::PhysicalAction;
use reactor_core::ids::{GlobalId, GlobalReactionId, LocalReactionId, ReactorId};
use reactor_core::link::{physical_event, SchedulerLink};
use reactor_core::time::{Clock, LogicalTag, Offset};
use reactor_core::wave::Event;
use std::sync::mpsc::channel;
use std::sync::{Arc, Mutex};

fn gid(container: u16, local: u16) -> GlobalId {
    GlobalId::new(ReactorId::new_const(container), LocalReactionId::new_const(local))
}

fn rid(container: u16, local: u16) -> GlobalReactionId {
    GlobalReactionId::new(ReactorId::new_const(container), LocalReactionId::new_const(local))
}

fn response(min_delay: Option<u64>) -> PhysicalAction {
    let mut action = PhysicalAction::new(min_delay, gid(1, 0));
    action.0.downstream = vec![rid(1, 1), rid(1, 2)];
    action
}

#[test]
fn a_physical_event_is_due_at_the_next_tag_not_before_now() {
    let action = response(None);
    let current = LogicalTag::new(1_000, 4);
    // the scheduler is behind physical time: a fresh instant
    let e = physical_event(current, &action, Offset::Asap, 5_000).unwrap();
    assert_eq!(e.process_at, LogicalTag::new(5_000, 0));
    assert_eq!(e.todo, vec![rid(1, 1), rid(1, 2)]);
    // the scheduler is still at that instant: the next microstep
    let e = physical_event(current, &action, Offset::Asap, 1_000).unwrap();
    assert_eq!(e.process_at, LogicalTag::new(1_000, 5));
    // physical time behind the scheduler: the tag of the scheduler counts
    let e = physical_event(current, &action, Offset::Asap, 10).unwrap();
    assert_eq!(e.process_at, LogicalTag::new(1_000, 5));
}

#[test]
fn a_physical_event_keeps_its_delays() {
    let action = response(Some(300));
    let current = LogicalTag::new(1_000, 4);
    let e = physical_event(current, &action, Offset::After(50), 1_100).unwrap();
    assert_eq!(e.process_at, LogicalTag::new(1_350, 0));
    let e = physical_event(current, &action, Offset::After(50), 2_000).unwrap();
    assert_eq!(e.process_at, LogicalTag::new(2_000, 0));
}

#[test]
fn no_event_without_reactions_or_without_a_tag() {
    let idle = PhysicalAction::new(None, gid(1, 0));
    assert!(physical_event(LogicalTag::new(0, 0), &idle, Offset::Asap, 0).is_none());
    let action = response(Some(u64::MAX));
    assert!(physical_event(LogicalTag::new(1, 0), &action, Offset::Asap, 0).is_none());
    assert!(physical_event(LogicalTag::new(7, u32::MAX), &response(None), Offset::Asap, 0)
        .is_none());
}

#[test]
fn a_link_sends_its_events_to_the_scheduler() {
    let (sender, receiver) = channel::<Event>();
    let cell = Arc::new(Mutex::new(LogicalTag::new(0, 0)));
    let clock = Clock::start();
    let mut link = SchedulerLink::new(cell.clone(), sender, clock);
    let action = response(None);

    let tag = link.schedule_physical(&action, Offset::Asap).unwrap();
    let received = receiver.try_recv().unwrap();
    assert_eq!(received.process_at, tag);
    assert_eq!(received.todo, vec![rid(1, 1), rid(1, 2)]);
    assert!(tag.instant <= clock.now());
    assert!(LogicalTag::new(0, 0) < tag);

    // the link counts from the tag that the scheduler published
    let far = LogicalTag::new(u64::MAX / 2, 9);
    *cell.lock().unwrap() = far;
    let mut other = link.duplicate();
    let tag = other.schedule_physical(&action, Offset::After(5)).unwrap();
    assert_eq!(tag, LogicalTag::new(u64::MAX / 2 + 5, 0));
    assert_eq!(receiver.try_recv().unwrap().process_at, tag);
    let tag = other.schedule_physical(&action, Offset::Asap).unwrap();
    assert_eq!(tag, LogicalTag::new(u64::MAX / 2, 10));
    assert_eq!(receiver.try_recv().unwrap().process_at, tag);

    // an action that triggers nothing sends nothing
    assert!(link.schedule_physical(&PhysicalAction::new(None, gid(1, 5)), Offset::Asap).is_none());
    assert!(receiver.try_recv().is_err());

    // a scheduler that is gone takes no events
    drop(receiver);
    assert!(link.schedule_physical(&action, Offset::Asap).is_none());
}
