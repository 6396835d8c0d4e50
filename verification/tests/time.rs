use reactor_core::action::{Action, LogicalAction, PhysicalAction};
use reactor_core::ids::{GlobalId, LocalReactionId, ReactorId};
use reactor_core::time::{compute_due_tag, saturate_nanos, Clock, LogicalTag, Offset};

const SEC: u64 = 1_000_000_000;

fn gid(container: u16, local: u16) -> GlobalId {
    GlobalId::new(ReactorId::new_const(container), LocalReactionId::new_const(local))
}

#[test]
fn tags_are_ordered_by_instant_then_microstep() {
    let a = LogicalTag::new(5, 9);
    let b = LogicalTag::new(6, 0);
    let c = LogicalTag::new(6, 1);
    assert!(a.is_before(&b) && b.is_before(&c) && a.is_before(&c));
    assert!(!b.is_before(&a) && !c.is_before(&b));
    assert!(!a.is_before(&a));
    assert!(a.not_after(&a) && a.not_after(&b) && !c.not_after(&b));
    assert!(a < b && b < c);
    assert_eq!(a.key(), (5, 9));
    assert_eq!(LogicalTag::from_key((6, 1)), c);
}

#[test]
fn offsets_are_durations() {
    assert_eq!(Offset::Asap.to_duration(), 0);
    assert_eq!(Offset::After(17).to_duration(), 17);
}

#[test]
fn a_delayed_event_starts_a_fresh_instant() {
    let current = LogicalTag::new(10 * SEC, 4);
    assert_eq!(compute_due_tag(current, SEC, 0, None), Some(LogicalTag::new(11 * SEC, 0)));
    assert_eq!(
        compute_due_tag(current, SEC, 500, None),
        Some(LogicalTag::new(11 * SEC + 500, 0))
    );
    assert_eq!(compute_due_tag(current, 0, 1, None), Some(LogicalTag::new(10 * SEC + 1, 0)));
}

#[test]
fn an_undelayed_event_takes_the_next_microstep() {
    let current = LogicalTag::new(10 * SEC, 4);
    assert_eq!(compute_due_tag(current, 0, 0, None), Some(LogicalTag::new(10 * SEC, 5)));
    // physical time behind the tag does not move the event
    assert_eq!(compute_due_tag(current, 0, 0, Some(3)), Some(LogicalTag::new(10 * SEC, 5)));
    assert_eq!(
        compute_due_tag(current, 0, 0, Some(10 * SEC)),
        Some(LogicalTag::new(10 * SEC, 5))
    );
}

#[test]
fn a_physical_event_is_not_due_before_now() {
    let current = LogicalTag::new(10 * SEC, 4);
    assert_eq!(
        compute_due_tag(current, 0, 0, Some(12 * SEC)),
        Some(LogicalTag::new(12 * SEC, 0))
    );
    assert_eq!(
        compute_due_tag(current, SEC, 0, Some(12 * SEC)),
        Some(LogicalTag::new(12 * SEC, 0))
    );
    assert_eq!(
        compute_due_tag(current, 3 * SEC, 0, Some(12 * SEC)),
        Some(LogicalTag::new(13 * SEC, 0))
    );
}

#[test]
fn a_tag_that_cannot_be_held_is_refused() {
    let current = LogicalTag::new(u64::MAX - 5, 0);
    assert_eq!(compute_due_tag(current, 6, 0, None), None);
    assert_eq!(compute_due_tag(current, 5, 1, None), None);
    assert_eq!(compute_due_tag(current, 5, 0, None), Some(LogicalTag::new(u64::MAX, 0)));
    let full = LogicalTag::new(7, u32::MAX);
    assert_eq!(compute_due_tag(full, 0, 0, None), None);
    assert_eq!(compute_due_tag(full, 1, 0, None), Some(LogicalTag::new(8, 0)));
}

#[test]
fn actions_compute_their_eta() {
    let logical = Action::new(Some(2 * SEC), gid(1, 0), true);
    let physical = Action::new(None, gid(1, 1), false);
    assert_eq!(logical.min_delay, 2 * SEC);
    assert_eq!(physical.min_delay, 0);
    assert_eq!(logical.global_id(), gid(1, 0));
    assert!(logical.downstream.is_empty());
    let current = LogicalTag::new(SEC, 0);
    // a logical action ignores physical time
    assert_eq!(logical.make_eta(current, 0, 50 * SEC), Some(LogicalTag::new(3 * SEC, 0)));
    assert_eq!(logical.make_eta(current, SEC, 0), Some(LogicalTag::new(4 * SEC, 0)));
    // a physical action is clamped to it
    assert_eq!(physical.make_eta(current, 0, 50 * SEC), Some(LogicalTag::new(50 * SEC, 0)));
    assert_eq!(physical.make_eta(current, 0, 0), Some(LogicalTag::new(SEC, 1)));
    assert!(LogicalAction::new(None, gid(1, 2)).0.is_logical);
    assert!(!PhysicalAction::new(Some(5), gid(1, 3)).0.is_logical);
    assert_eq!(PhysicalAction::new(Some(5), gid(1, 3)).0.min_delay, 5);
}

#[test]
fn the_clock_does_not_go_back() {
    let clock = Clock::start();
    let a = clock.now();
    let b = clock.now();
    let c = clock.now();
    assert!(a <= b && b <= c);
}

#[test]
fn a_time_too_large_is_the_largest_time() {
    assert_eq!(saturate_nanos(0), 0);
    assert_eq!(saturate_nanos(1_500_000_000), 1_500_000_000);
    assert_eq!(saturate_nanos(u64::MAX as u128), u64::MAX);
    assert_eq!(saturate_nanos(u64::MAX as u128 + 1), u64::MAX);
    assert_eq!(saturate_nanos(u128::MAX), u64::MAX);
}
