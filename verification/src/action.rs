//! Actions: events that reactions and outside threads schedule for a
//! later tag.

use crate::ids::{GlobalId, GlobalReactionId};
use crate::time::{compute_due_tag, due_tag, due_tag_fits, LogicalTag};
use vstd::prelude::*;

verus! {

/// An action: a source of events that are due a minimum delay after they
/// were scheduled. The events of a logical action are due relative to the
/// tag at which they were scheduled; those of a physical action are due
/// no earlier than the physical time at which they were scheduled.
#[derive(Debug, Clone)]
pub struct Action {
    pub id: GlobalId,
    /// The minimum delay, in nanoseconds.
    pub min_delay: u64,
    pub is_logical: bool,
    /// The reactions that an event of this action triggers.
    pub downstream: Vec<GlobalReactionId>,
}

impl Action {
    /// An action that triggers nothing yet. Without a minimum delay the
    /// delay is zero.
    pub fn new(min_delay: Option<u64>, id: GlobalId, is_logical: bool) -> (a: Self)
        ensures
            a.id == id,
            a.is_logical == is_logical,
            a.min_delay == match min_delay {
                Some(d) => d,
                None => 0,
            },
            a.downstream@ == Seq::<GlobalReactionId>::empty(),
    {
        let delay = match min_delay {
            Some(d) => d,
            None => 0,
        };
        Action { id, min_delay: delay, is_logical, downstream: Vec::new() }
    }

    pub fn global_id(&self) -> (id: GlobalId)
        ensures
            id == self.id,
    {
        self.id
    }

    /// What `make_eta` is given as the physical time: the time `now` for
    /// a physical action, nothing for a logical one.
    pub open spec fn clamp(&self, now: u64) -> Option<u64> {
        if self.is_logical {
            None
        } else {
            Some(now)
        }
    }

    /// The tag at which an event of this action is due that is scheduled
    /// at the tag `current` with the additional delay `additional_delay`,
    /// when physical time is `now`; `None` where that tag cannot be held.
    pub fn make_eta(&self, current: LogicalTag, additional_delay: u64, now: u64) -> (r: Option<
        LogicalTag,
    >)
        ensures
            r is Some <==> due_tag_fits(current, self.min_delay, additional_delay, self.clamp(now)),
            r matches Some(tag) ==> (tag.instant as int, tag.microstep as int) == due_tag(
                current,
                self.min_delay,
                additional_delay,
                self.clamp(now),
            ),
            r matches Some(tag) ==> current.spec_is_before(&tag),
    {
        let physical_now = if self.is_logical {
            None
        } else {
            Some(now)
        };
        compute_due_tag(current, self.min_delay, additional_delay, physical_now)
    }
}

/// An action that reactions schedule.
#[derive(Debug, Clone)]
pub struct LogicalAction(pub Action);

/// An action that threads outside the scheduler schedule.
#[derive(Debug, Clone)]
pub struct PhysicalAction(pub Action);

impl LogicalAction {
    pub fn new(min_delay: Option<u64>, id: GlobalId) -> (a: Self)
        ensures
            a.0.id == id,
            a.0.is_logical,
            a.0.min_delay == match min_delay {
                Some(d) => d,
                None => 0,
            },
            a.0.downstream@ == Seq::<GlobalReactionId>::empty(),
    {
        LogicalAction(Action::new(min_delay, id, true))
    }
}

impl PhysicalAction {
    pub fn new(min_delay: Option<u64>, id: GlobalId) -> (a: Self)
        ensures
            a.0.id == id,
            !a.0.is_logical,
            a.0.min_delay == match min_delay {
                Some(d) => d,
                None => 0,
            },
            a.0.downstream@ == Seq::<GlobalReactionId>::empty(),
    {
        PhysicalAction(Action::new(min_delay, id, false))
    }
}

} // verus!
