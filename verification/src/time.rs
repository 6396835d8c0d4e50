//! Logical time: tags, delays, and the tags at which scheduled events are
//! due.
//!
//! A point of physical time is a number of nanoseconds since an origin
//! that the embedding program fixes once, read from a monotonic clock.

use std::time::Instant;
use vstd::prelude::*;

verus! {

#[verifier::external_type_specification]
#[verifier::external_body]
pub struct ExInstant(Instant);

/// `Instant::now`: a reading of the monotonic clock.
#[verifier::external_body]
fn instant_now() -> Instant {
    Instant::now()
}

/// `Instant::elapsed`: the time that has passed since an instant.
#[verifier::external_body]
fn instant_elapsed(origin: &Instant) -> core::time::Duration {
    origin.elapsed()
}

/// `Duration::as_nanos`: a duration in nanoseconds.
#[verifier::external_body]
fn duration_as_nanos(d: &core::time::Duration) -> u128 {
    d.as_nanos()
}

/// A source of physical time: the monotonic clock, read in nanoseconds
/// since the moment at which the source was made.
#[derive(Clone, Copy)]
pub struct Clock {
    origin: Instant,
}

/// The physical time that stands for a number of nanoseconds: the number
/// itself, or the largest time where the number is too large to be held.
pub fn saturate_nanos(nanos: u128) -> (t: u64)
    ensures
        t == if nanos > u64::MAX {
            u64::MAX as int
        } else {
            nanos as int
        },
{
    if nanos > u64::MAX as u128 {
        u64::MAX
    } else {
        nanos as u64
    }
}

impl Clock {
    /// A source of physical time whose origin is the present moment.
    pub fn start() -> Clock {
        Clock { origin: instant_now() }
    }

    /// The physical time: what the monotonic clock says has passed since
    /// the origin, as `saturate_nanos` gives it.
    pub fn now(&self) -> u64 {
        let elapsed = instant_elapsed(&self.origin);
        saturate_nanos(duration_as_nanos(&elapsed))
    }
}

/// The logical coordinate of an event: an instant and a microstep. Tags
/// are ordered by instant, then by microstep. Two events are simultaneous
/// when they share a tag.
#[derive(Debug, Clone, Copy, PartialEq, Eq, Structural, PartialOrd, Ord, Hash)]
pub struct LogicalTag {
    /// Nanoseconds since the origin of physical time.
    pub instant: u64,
    pub microstep: u32,
}

impl LogicalTag {
    pub fn new(instant: u64, microstep: u32) -> (tag: Self)
        ensures
            tag.instant == instant,
            tag.microstep == microstep,
    {
        LogicalTag { instant, microstep }
    }

    /// This tag is strictly before `other`.
    pub open spec fn spec_is_before(&self, other: &LogicalTag) -> bool {
        self.instant < other.instant || (self.instant == other.instant && self.microstep
            < other.microstep)
    }

    /// This tag is `other`, or before it.
    pub open spec fn spec_not_after(&self, other: &LogicalTag) -> bool {
        self.instant < other.instant || (self.instant == other.instant && self.microstep
            <= other.microstep)
    }

    #[verifier::when_used_as_spec(spec_is_before)]
    pub fn is_before(&self, other: &LogicalTag) -> (b: bool)
        ensures
            b == self.spec_is_before(other),
    {
        self.instant < other.instant || (self.instant == other.instant && self.microstep
            < other.microstep)
    }

    #[verifier::when_used_as_spec(spec_not_after)]
    pub fn not_after(&self, other: &LogicalTag) -> (b: bool)
        ensures
            b == self.spec_not_after(other),
    {
        self.instant < other.instant || (self.instant == other.instant && self.microstep
            <= other.microstep)
    }

    /// The tag as a pair, which is ordered as the tags are.
    pub open spec fn spec_key(&self) -> (u64, u32) {
        (self.instant, self.microstep)
    }

    #[verifier::when_used_as_spec(spec_key)]
    pub fn key(&self) -> (k: (u64, u32))
        ensures
            k == self.spec_key(),
    {
        (self.instant, self.microstep)
    }

    /// The tag that a pair stands for.
    pub fn from_key(k: (u64, u32)) -> (tag: Self)
        ensures
            tag.spec_key() == k,
    {
        LogicalTag { instant: k.0, microstep: k.1 }
    }
}

/// The order of the tags is total.
pub proof fn law_tag_order_is_total(a: LogicalTag, b: LogicalTag)
    ensures
        a.spec_is_before(&b) || b.spec_is_before(&a) || a == b,
        !(a.spec_is_before(&b) && b.spec_is_before(&a)),
        a.spec_not_after(&b) <==> (a.spec_is_before(&b) || a == b),
{
}

/// The order of the tags is transitive.
pub proof fn law_tag_order_is_transitive(a: LogicalTag, b: LogicalTag, c: LogicalTag)
    requires
        a.spec_not_after(&b),
        b.spec_not_after(&c),
    ensures
        a.spec_not_after(&c),
        a.spec_is_before(&b) || b.spec_is_before(&c) ==> a.spec_is_before(&c),
{
}

/// An additional delay asked for when an action is scheduled, in
/// nanoseconds.
#[derive(Debug, Clone, Copy, PartialEq, Eq, Structural)]
pub enum Offset {
    /// No additional delay.
    Asap,
    /// The given additional delay.
    After(u64),
}

impl Offset {
    pub open spec fn spec_to_duration(&self) -> u64 {
        match self {
            Offset::Asap => 0,
            Offset::After(d) => *d,
        }
    }

    #[verifier::when_used_as_spec(spec_to_duration)]
    pub fn to_duration(&self) -> (d: u64)
        ensures
            d == self.spec_to_duration(),
    {
        match self {
            Offset::Asap => 0,
            Offset::After(d) => *d,
        }
    }
}

/// The instant at which an event is due that is scheduled at `current`
/// with the given delays. For a physical action (`now` is then the
/// physical time) the instant is not before `now`.
pub open spec fn due_instant(
    current: LogicalTag,
    min_delay: u64,
    additional_delay: u64,
    physical_now: Option<u64>,
) -> int {
    let logical = current.instant + min_delay + additional_delay;
    match physical_now {
        Some(now) => if logical < now {
            now as int
        } else {
            logical
        },
        None => logical,
    }
}

/// The tag at which an event is due that is scheduled at `current` with
/// the given delays: its instant is `due_instant`; its microstep is one
/// more than the current one when the instant is the current instant, and
/// zero at a later instant.
pub open spec fn due_tag(
    current: LogicalTag,
    min_delay: u64,
    additional_delay: u64,
    physical_now: Option<u64>,
) -> (int, int) {
    let instant = due_instant(current, min_delay, additional_delay, physical_now);
    if instant == current.instant {
        (instant, current.microstep + 1)
    } else {
        (instant, 0)
    }
}

/// The tag `due_tag` can be held in a `LogicalTag`.
pub open spec fn due_tag_fits(
    current: LogicalTag,
    min_delay: u64,
    additional_delay: u64,
    physical_now: Option<u64>,
) -> bool {
    let due = due_tag(current, min_delay, additional_delay, physical_now);
    due.0 <= u64::MAX && due.1 <= u32::MAX
}

/// Computes `due_tag`, or `None` where it cannot be held.
pub fn compute_due_tag(
    current: LogicalTag,
    min_delay: u64,
    additional_delay: u64,
    physical_now: Option<u64>,
) -> (r: Option<LogicalTag>)
    ensures
        r is Some <==> due_tag_fits(current, min_delay, additional_delay, physical_now),
        r matches Some(tag) ==> (tag.instant as int, tag.microstep as int) == due_tag(
            current,
            min_delay,
            additional_delay,
            physical_now,
        ),
{
    let delayed = match current.instant.checked_add(min_delay) {
        Some(t) => t,
        None => {
            return None;
        },
    };
    let logical = match delayed.checked_add(additional_delay) {
        Some(t) => t,
        None => {
            return None;
        },
    };
    let instant = match physical_now {
        Some(now) => if logical < now {
            now
        } else {
            logical
        },
        None => logical,
    };
    if instant == current.instant {
        if current.microstep == u32::MAX {
            None
        } else {
            Some(LogicalTag { instant, microstep: current.microstep + 1 })
        }
    } else {
        Some(LogicalTag { instant, microstep: 0 })
    }
}

/// An event that is scheduled is due strictly after the tag at which it
/// was scheduled.
pub proof fn law_due_tag_is_later(
    current: LogicalTag,
    min_delay: u64,
    additional_delay: u64,
    physical_now: Option<u64>,
)
    ensures
        ({
            let due = due_tag(current, min_delay, additional_delay, physical_now);
            due.0 > current.instant || (due.0 == current.instant && due.1 > current.microstep)
        }),
{
}

/// How long the scheduler has to wait before it may process an event due
/// at `tag`: the time from `now` to the instant of the tag, zero when that
/// instant has come.
pub open spec fn wait_before(tag: LogicalTag, now: u64) -> u64 {
    if now < tag.instant {
        (tag.instant - now) as u64
    } else {
        0
    }
}

/// The tag at which an event due at `tag` is processed when physical time
/// is `now`: the later of the two instants, with the microstep of `tag`.
pub open spec fn caught_up(tag: LogicalTag, now: u64) -> LogicalTag {
    LogicalTag {
        instant: if now < tag.instant {
            tag.instant
        } else {
            now
        },
        microstep: tag.microstep,
    }
}

} // verus!
