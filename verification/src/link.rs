//! The link through which threads outside the scheduler schedule physical
//! actions.
//!
//! A link shares two things with the scheduler: a cell with the tag that
//! the scheduler processed last, which the link only reads, and the
//! channel on which events travel to the scheduler.

use crate::action::PhysicalAction;
use crate::ports::copy_reactions;
use crate::time::{compute_due_tag, due_tag, due_tag_fits, Clock, LogicalTag, Offset};
use crate::wave::Event;
use std::sync::mpsc::Sender;
use std::sync::Arc;
use std::sync::Mutex;
use vstd::prelude::*;

verus! {

#[verifier::external_type_specification]
#[verifier::external_body]
#[verifier::reject_recursive_types(T)]
pub struct ExMutex<T: ?Sized>(Mutex<T>);

#[verifier::external_type_specification]
#[verifier::external_body]
#[verifier::reject_recursive_types(T)]
pub struct ExSender<T>(Sender<T>);

/// The cell in which the scheduler publishes the tag that it processed
/// last.
pub type TimeCell = Arc<Mutex<LogicalTag>>;

/// `Mutex::lock`: the tag that the cell holds at the moment of the
/// call. Another thread may have written it, so nothing is known of it.
#[verifier::external_body]
fn mutex_read(cell: &Mutex<LogicalTag>) -> LogicalTag {
    match cell.lock() {
        Ok(guard) => *guard,
        Err(poisoned) => *poisoned.into_inner(),
    }
}

/// `Sender::send`: hands the event to the channel. Returns whether the
/// channel took it, which it does as long as the receiver exists.
#[verifier::external_body]
fn sender_send(sender: &Sender<Event>, event: Event) -> bool {
    sender.send(event).is_ok()
}

/// `Arc::clone`: another pointer to the same cell.
#[verifier::external_body]
fn arc_clone(cell: &TimeCell) -> (r: TimeCell)
    ensures
        r == *cell,
{
    cell.clone()
}

/// `Sender::clone`: another sender for the same channel.
#[verifier::external_body]
fn sender_clone(sender: &Sender<Event>) -> Sender<Event> {
    sender.clone()
}

/// The event that a physical action gives when it is scheduled while the
/// scheduler is at the tag `current` and physical time is `now`: it is due
/// after the delay of the action and the additional delay `offset`, but
/// not before `now`. There is no event when the action triggers no
/// reaction, or when the tag of the event cannot be held.
pub fn physical_event(current: LogicalTag, action: &PhysicalAction, offset: Offset, now: u64) -> (r:
    Option<Event>)
    ensures
        r is Some <==> action.0.downstream@.len() > 0 && due_tag_fits(
            current,
            action.0.min_delay,
            offset.spec_to_duration(),
            Some(now),
        ),
        r matches Some(event) ==> {
            &&& (event.process_at.instant as int, event.process_at.microstep as int) == due_tag(
                current,
                action.0.min_delay,
                offset.spec_to_duration(),
                Some(now),
            )
            &&& event.process_at.instant >= now
            &&& current.spec_is_before(&event.process_at)
            &&& event.todo@ == action.0.downstream@
        },
{
    if action.0.downstream.len() == 0 {
        return None;
    }
    match compute_due_tag(current, action.0.min_delay, offset.to_duration(), Some(now)) {
        None => None,
        Some(process_at) => Some(Event { process_at, todo: copy_reactions(&action.0.downstream) }),
    }
}

/// A handle with which a thread outside the scheduler schedules physical
/// actions.
pub struct SchedulerLink {
    last_processed_logical_time: TimeCell,
    sender: Sender<Event>,
    clock: Clock,
}

/// `tag` is the tag at which an event of `action` is due that is scheduled
/// with the additional delay `offset` while the scheduler is at the tag
/// `current` and physical time is `now`. Such a tag is after `current`,
/// and its instant is not before `now`.
pub open spec fn is_physical_due_tag(
    tag: LogicalTag,
    current: LogicalTag,
    now: u64,
    action: PhysicalAction,
    offset: Offset,
) -> bool {
    &&& due_tag_fits(current, action.0.min_delay, offset.spec_to_duration(), Some(now))
    &&& (tag.instant as int, tag.microstep as int) == due_tag(
        current,
        action.0.min_delay,
        offset.spec_to_duration(),
        Some(now),
    )
}

impl SchedulerLink {
    /// The cell from which the link reads the tag of the scheduler.
    pub closed spec fn time_cell(&self) -> TimeCell {
        self.last_processed_logical_time
    }

    /// The sender through which the link sends its events.
    pub closed spec fn sender(&self) -> Sender<Event> {
        self.sender
    }

    /// The clock from which the link reads physical time.
    pub closed spec fn clock(&self) -> Clock {
        self.clock
    }

    /// A link that reads the tag of the scheduler from `cell`, sends its
    /// events through `sender`, and reads physical time from `clock`.
    pub fn new(cell: TimeCell, sender: Sender<Event>, clock: Clock) -> (link: Self)
        ensures
            link.time_cell() == cell,
            link.sender() == sender,
            link.clock() == clock,
    {
        SchedulerLink { last_processed_logical_time: cell, sender, clock }
    }

    /// Another link to the same scheduler: it reads the same cell and the
    /// same clock, and has a sender of its own for the same channel.
    pub fn duplicate(&self) -> (link: Self)
        ensures
            link.time_cell() == self.time_cell(),
            link.clock() == self.clock(),
    {
        SchedulerLink {
            last_processed_logical_time: arc_clone(&self.last_processed_logical_time),
            sender: sender_clone(&self.sender),
            clock: self.clock,
        }
    }

    /// Schedules a physical action: after its own delay and the
    /// additional delay `offset`, counted from the tag that the scheduler
    /// processed last, but not before the present physical time. Returns
    /// the tag at which the event is due, or `None` when no event reached
    /// the scheduler.
    pub fn schedule_physical(&mut self, action: &PhysicalAction, offset: Offset) -> (r: Option<
        LogicalTag,
    >)
        ensures
            *final(self) == *old(self),
            r is Some ==> action.0.downstream@.len() > 0,
            r is Some ==> exists|current: LogicalTag, now: u64| #[trigger]
                is_physical_due_tag(r->0, current, now, *action, offset),
    {
        let time_in_logical_subsystem = mutex_read(&*self.last_processed_logical_time);
        let now = self.clock.now();
        match physical_event(time_in_logical_subsystem, action, offset, now) {
            None => None,
            Some(event) => {
                let process_at = event.process_at;
                let sent = sender_send(&self.sender, event);
                let r = if sent {
                    Some(process_at)
                } else {
                    None
                };
                assert(r is Some ==> is_physical_due_tag(
                    r->0,
                    time_in_logical_subsystem,
                    now,
                    *action,
                    offset,
                ));
                r
            },
        }
    }
}

} // verus!
