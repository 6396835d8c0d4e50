//! The scheduler: the queue of the events that are due, and the decision
//! of what the event loop does next.
//!
//! The scheduler neither sleeps nor waits nor runs reactions. It is told
//! the physical time and says what is to be done: sleep, run a wave of
//! reactions at a tag, wait for events from outside, or shut down. The
//! loop around it does that and asks again.

use crate::ids::GlobalReactionId;
use crate::flowgraph::Schedulable;
use crate::queue::{
    is_earliest, key_before, lemma_earliest_unique, queue_is_empty, queue_keys, queue_new,
    queue_peek, queue_pop, queue_push, TagQueue,
};
use crate::time::{caught_up, wait_before, LogicalTag};
use crate::ports::copy_reactions;
use crate::wave::{Event, ReactionWave, RuntimeError};
use std::collections::HashMap;
use vstd::prelude::*;

verus! {

/// What the embedding program chooses.
#[derive(Debug, Clone, Copy, PartialEq, Eq, Structural)]
pub struct SchedulerOptions {
    /// The longest logical duration of a run, in nanoseconds from the
    /// initial tag. An event due later than that is not processed: the
    /// program shuts down instead. An event due exactly then is
    /// processed. Where no event is due, the program shuts down once
    /// physical time is past the timeout.
    pub timeout: Option<u64>,
    /// Whether the program goes on waiting for events from outside when
    /// none is due.
    pub keep_alive: bool,
}

/// Where a scheduler stands in its life.
#[derive(Debug, Clone, Copy, PartialEq, Eq, Structural)]
pub enum Phase {
    /// The logical timeline has no origin yet.
    Created,
    /// Events are processed.
    Running,
    /// The shutdown reactions were handed out. Nothing more happens.
    Terminated,
}

/// What the event loop is to do next.
#[derive(Debug)]
pub enum Step {
    /// Sleep for so many nanoseconds, then ask again.
    Sleep(u64),
    /// Run a wave with the given reactions at the given tag, then ask
    /// again.
    Run(LogicalTag, Vec<GlobalReactionId>),
    /// No event is due: wait for events from outside.
    Wait,
    /// Run the shutdown reactions at the given tag, then stop.
    Shutdown(LogicalTag, Vec<GlobalReactionId>),
    /// Stop: the scheduler is not running.
    Done,
    /// Stop: the run cannot go on.
    Fault(RuntimeError),
}

/// What the event loop is to do next, as a mathematical value.
pub enum Decision {
    Sleep(u64),
    Run(LogicalTag, Seq<GlobalReactionId>),
    Wait,
    Shutdown(LogicalTag, Seq<GlobalReactionId>),
    Done,
    Fault(RuntimeError),
}

impl Step {
    pub open spec fn view(&self) -> Decision {
        match self {
            Step::Sleep(d) => Decision::Sleep(*d),
            Step::Run(tag, reactions) => Decision::Run(*tag, reactions@),
            Step::Wait => Decision::Wait,
            Step::Shutdown(tag, reactions) => Decision::Shutdown(*tag, reactions@),
            Step::Done => Decision::Done,
            Step::Fault(e) => Decision::Fault(*e),
        }
    }
}

/// The state of a scheduler, as a mathematical value.
pub struct SchedulerState {
    /// The tag of the last wave, if a wave was run.
    pub last_processed: Option<LogicalTag>,
    /// The events that are due, by tag. Events of one tag are one event.
    pub events: Map<(u64, u32), Seq<GlobalReactionId>>,
    /// The origin of the logical timeline, once the scheduler was started.
    pub initial: Option<LogicalTag>,
    pub options: SchedulerOptions,
    /// The reactions to run when the program shuts down.
    pub shutdown_reactions: Seq<GlobalReactionId>,
    /// Whether a shutdown was asked for.
    pub shutdown_requested: bool,
    pub phase: Phase,
    /// The number of levels that the waves of the scheduler have room
    /// for. A program needs as many as its snapshot has levels, which is
    /// `Schedulable::level_bound`: one for each node of its data-flow
    /// graph, reactions and ports alike.
    pub max_reaction_id: u32,
}

impl SchedulerState {
    /// The current tag: that of the last wave, or the initial tag before
    /// the first wave.
    pub open spec fn current_tag(self) -> LogicalTag {
        match self.last_processed {
            Some(tag) => tag,
            None => match self.initial {
                Some(tag) => tag,
                None => LogicalTag { instant: 0, microstep: 0 },
            },
        }
    }

    /// The earliest tag at which an event is due.
    pub open spec fn earliest(self) -> (u64, u32) {
        choose|key: (u64, u32)| is_earliest(self.events.dom(), key)
    }

    /// The tag that follows the current tag at the same instant.
    pub open spec fn next_microstep(self) -> (int, int) {
        (self.current_tag().instant as int, self.current_tag().microstep + 1)
    }

    /// The event due at `key` is due after the timeout of the run.
    pub open spec fn past_timeout(self, key: (u64, u32)) -> bool {
        match (self.options.timeout, self.initial) {
            (Some(timeout), Some(initial)) => key.0 > initial.instant + timeout,
            _ => false,
        }
    }

    /// The tag at which an event due at `key` is processed when physical
    /// time is `now`: the later of the two instants with the microstep of
    /// the event, unless that is not after the last wave; then the tag
    /// that follows the last wave at its instant.
    pub open spec fn processing_tag(self, key: (u64, u32), now: u64) -> (int, int) {
        let reached = caught_up(LogicalTag { instant: key.0, microstep: key.1 }, now);
        match self.last_processed {
            Some(last) => if last.spec_is_before(&reached) {
                (reached.instant as int, reached.microstep as int)
            } else {
                (last.instant as int, last.microstep + 1)
            },
            None => (reached.instant as int, reached.microstep as int),
        }
    }

    /// Physical time `now` is past the timeout of the run.
    pub open spec fn timed_out(self, now: u64) -> bool {
        match (self.options.timeout, self.initial) {
            (Some(timeout), Some(initial)) => now > initial.instant + timeout,
            _ => false,
        }
    }

    /// The run ends at the next step: a shutdown was asked for, or the
    /// earliest event is due after the timeout, or no event is due and
    /// physical time is past the timeout.
    pub open spec fn ends(self, now: u64) -> bool {
        ||| self.shutdown_requested
        ||| self.events.dom() != Set::<(u64, u32)>::empty() && self.past_timeout(self.earliest())
        ||| self.events.dom() == Set::<(u64, u32)>::empty() && self.timed_out(now)
    }

    /// What the event loop is to do next when physical time is `now`.
    pub open spec fn decide(self, now: u64) -> Decision {
        if self.phase != Phase::Running {
            Decision::Done
        } else if self.ends(now) {
            if self.next_microstep().1 > u32::MAX {
                Decision::Fault(RuntimeError::TagOverflow)
            } else {
                Decision::Shutdown(
                    LogicalTag {
                        instant: self.current_tag().instant,
                        microstep: self.next_microstep().1 as u32,
                    },
                    self.shutdown_reactions,
                )
            }
        } else if self.events.dom() == Set::<(u64, u32)>::empty() {
            Decision::Wait
        } else if now < self.earliest().0 {
            Decision::Sleep((self.earliest().0 - now) as u64)
        } else if self.processing_tag(self.earliest(), now).1 > u32::MAX {
            Decision::Fault(RuntimeError::TagOverflow)
        } else {
            Decision::Run(
                LogicalTag {
                    instant: self.processing_tag(self.earliest(), now).0 as u64,
                    microstep: self.processing_tag(self.earliest(), now).1 as u32,
                },
                self.events[self.earliest()],
            )
        }
    }

    /// The state after the event loop was told what to do next.
    pub open spec fn advance(self, now: u64) -> SchedulerState {
        match self.decide(now) {
            Decision::Run(tag, reactions) => SchedulerState {
                last_processed: Some(tag),
                events: self.events.remove(self.earliest()),
                ..self
            },
            Decision::Shutdown(tag, reactions) => SchedulerState {
                last_processed: Some(tag),
                phase: Phase::Terminated,
                ..self
            },
            Decision::Fault(e) => SchedulerState { phase: Phase::Terminated, ..self },
            _ => self,
        }
    }

    /// The state after the event `(key, reactions)` became due: the
    /// reactions are added to those of an event of the same tag.
    pub open spec fn with_event(self, key: (u64, u32), reactions: Seq<GlobalReactionId>)
        -> SchedulerState {
        if reactions.len() == 0 {
            self
        } else {
            SchedulerState {
                events: self.events.insert(
                    key,
                    if self.events.contains_key(key) {
                        self.events[key] + reactions
                    } else {
                        reactions
                    },
                ),
                ..self
            }
        }
    }

    /// The state after each of the events `events` became due in turn.
    pub open spec fn with_events(self, events: Seq<Event>) -> SchedulerState
        decreases events.len(),
    {
        if events.len() == 0 {
            self
        } else {
            self.with_events(events.drop_last()).with_event(
                events.last().process_at.spec_key(),
                events.last().todo@,
            )
        }
    }

    /// The state after the scheduler was started at the physical time
    /// `now`: a scheduler that was not started gets the initial tag
    /// `(now, 0)` and runs.
    pub open spec fn started(self, now: u64) -> SchedulerState {
        if self.phase == Phase::Created {
            SchedulerState {
                initial: Some(LogicalTag { instant: now, microstep: 0 }),
                phase: Phase::Running,
                ..self
            }
        } else {
            self
        }
    }
}

/// Among tags that are due one is the earliest: the order of the tags
/// has no endless descent.
pub proof fn lemma_has_earliest(keys: Set<(u64, u32)>)
    ensures
        keys != Set::<(u64, u32)>::empty() ==> is_earliest(
            keys,
            choose|key: (u64, u32)| is_earliest(keys, key),
        ),
{
    if keys != Set::<(u64, u32)>::empty() {
        if forall|k: (u64, u32)| !keys.contains(k) {
            assert(keys =~= Set::<(u64, u32)>::empty());
        }
        let k = choose|k: (u64, u32)| keys.contains(k);
        lemma_earliest_below(keys, k);
    }
}

/// Where `key` is due, some tag that is due is the earliest.
proof fn lemma_earliest_below(keys: Set<(u64, u32)>, key: (u64, u32))
    requires
        keys.contains(key),
    ensures
        exists|e: (u64, u32)| is_earliest(keys, e),
    decreases key.0, key.1,
{
    if !is_earliest(keys, key) {
        let other = choose|other: (u64, u32)| keys.contains(other) && key_before(other, key);
        lemma_earliest_below(keys, other);
    }
}

/// A wave is run at a tag strictly after the tag of the wave before it,
/// and not before the instant at which its event is due has come.
pub proof fn lemma_waves_advance(state: SchedulerState, now: u64)
    requires
        state.decide(now) is Run,
    ensures
        state.last_processed matches Some(last) ==> last.spec_is_before(&state.decide(now)->Run_0),
        state.earliest().0 <= now,
        state.decide(now)->Run_0.instant >= state.earliest().0,
        state.advance(now).last_processed == Some(state.decide(now)->Run_0),
{
}

/// Logical time does not run ahead of physical time: a wave is run only
/// when the instant at which its event is due has come, and the
/// scheduler sleeps exactly until then when it has not.
pub proof fn law_physical_catch_up(state: SchedulerState, now: u64)
    ensures
        state.decide(now) is Run ==> state.earliest().0 <= now && state.decide(now)->Run_0.instant
            >= state.earliest().0,
        state.decide(now) is Sleep ==> now < state.earliest().0 && now + state.decide(
            now,
        )->Sleep_0 == state.earliest().0,
{
}

/// The tag of the shutdown is strictly after the tag of the last wave.
pub proof fn law_shutdown_is_last(state: SchedulerState, now: u64)
    requires
        state.decide(now) is Shutdown,
    ensures
        state.current_tag().spec_is_before(&state.decide(now)->Shutdown_0),
        state.advance(now).phase == Phase::Terminated,
        state.advance(now).decide(now) is Done,
{
}

/// Events that become due change nothing but the events that are due.
pub proof fn lemma_with_events_frame(state: SchedulerState, events: Seq<Event>)
    ensures
        state.with_events(events) == (SchedulerState {
            events: state.with_events(events).events,
            ..state
        }),
    decreases events.len(),
{
    if events.len() > 0 {
        lemma_with_events_frame(state, events.drop_last());
    }
}

/// What a run does: the decisions of the scheduler, and the state in
/// which it ends, when the event loop asks at the physical times of
/// `inputs` and the events of `inputs` become due after each decision.
pub open spec fn run(state: SchedulerState, inputs: Seq<(u64, Seq<Event>)>) -> (
    Seq<Decision>,
    SchedulerState,
)
    decreases inputs.len(),
{
    if inputs.len() == 0 {
        (Seq::empty(), state)
    } else {
        let before = run(state, inputs.drop_last());
        (
            before.0.push(before.1.decide(inputs.last().0)),
            before.1.advance(inputs.last().0).with_events(inputs.last().1),
        )
    }
}

/// A run makes one decision for each time at which the event loop asks.
pub proof fn lemma_run_len(state: SchedulerState, inputs: Seq<(u64, Seq<Event>)>)
    ensures
        run(state, inputs).0.len() == inputs.len(),
    decreases inputs.len(),
{
    if inputs.len() > 0 {
        lemma_run_len(state, inputs.drop_last());
    }
}

/// A run is determined by the state in which it starts, the physical
/// times at which the event loop asks, and the events that become due on
/// the way: two runs that agree on these make the same decisions, wave
/// for wave, and end in the same state.
pub proof fn law_determinism(
    first: SchedulerState,
    second: SchedulerState,
    inputs: Seq<(u64, Seq<Event>)>,
)
    requires
        first == second,
    ensures
        run(first, inputs) == run(second, inputs),
{
}

/// The tags of the waves of a run increase strictly, and none is after
/// the tag that the scheduler processed last.
pub proof fn law_tag_monotonicity(
    state: SchedulerState,
    inputs: Seq<(u64, Seq<Event>)>,
    i: int,
    j: int,
)
    requires
        0 <= i < j < inputs.len(),
        run(state, inputs).0[i] is Run,
        run(state, inputs).0[j] is Run,
    ensures
        run(state, inputs).0[i]->Run_0.spec_is_before(&run(state, inputs).0[j]->Run_0),
    decreases inputs.len(),
{
    let front = inputs.drop_last();
    let before = run(state, front);
    lemma_run_len(state, front);
    assert(run(state, inputs).0[i] == before.0[i]);
    if j == inputs.len() - 1 {
        lemma_run_last_processed(state, front, i);
        lemma_waves_advance(before.1, inputs.last().0);
    } else {
        law_tag_monotonicity(state, front, i, j);
    }
}

/// No wave of a run has a tag after the tag that the scheduler processed
/// last at the end of the run.
pub proof fn lemma_run_last_processed(state: SchedulerState, inputs: Seq<(u64, Seq<Event>)>, i: int)
    requires
        0 <= i < inputs.len(),
        run(state, inputs).0[i] is Run,
    ensures
        run(state, inputs).1.last_processed matches Some(last) && run(
            state,
            inputs,
        ).0[i]->Run_0.spec_not_after(&last),
    decreases inputs.len(),
{
    let front = inputs.drop_last();
    let before = run(state, front);
    let now = inputs.last().0;
    lemma_with_events_frame(before.1.advance(now), inputs.last().1);
    lemma_run_len(state, front);
    if i == inputs.len() - 1 {
    } else {
        assert(run(state, inputs).0[i] == before.0[i]);
        lemma_run_last_processed(state, front, i);
        if before.1.decide(now) is Run {
            lemma_waves_advance(before.1, now);
        }
    }
}

/// The number that stands for a tag in the table of the events.
pub open spec fn pack_key(key: (u64, u32)) -> u128 {
    (key.0 as u128 * 0x1_0000_0000 + key.1 as u128) as u128
}

/// Two tags with one number are one tag.
pub proof fn lemma_pack_key_injective(a: (u64, u32), b: (u64, u32))
    requires
        pack_key(a) == pack_key(b),
    ensures
        a == b,
{
}

fn pack(key: (u64, u32)) -> (p: u128)
    ensures
        p == pack_key(key),
{
    (key.0 as u128) * 0x1_0000_0000 + (key.1 as u128)
}

/// Adds the reactions `more` after the reactions `list`.
fn append_reactions(list: &mut Vec<GlobalReactionId>, more: &Vec<GlobalReactionId>)
    ensures
        final(list)@ == old(list)@ + more@,
{
    let ghost start = list@;
    let mut k: usize = 0;
    assert(list@ =~= start + more@.take(0));
    while k < more.len()
        invariant
            k <= more@.len(),
            list@ == start + more@.take(k as int),
        decreases more@.len() - k,
    {
        list.push(more[k]);
        k += 1;
        assert(list@ =~= start + more@.take(k as int));
    }
    assert(more@.take(k as int) =~= more@);
}

/// The scheduler of a reactor program.
pub struct SyncScheduler {
    last_processed: Option<LogicalTag>,
    queue: TagQueue,
    payloads: HashMap<u128, Vec<GlobalReactionId>>,
    max_reaction_id: u32,
    initial_time: Option<LogicalTag>,
    options: SchedulerOptions,
    shutdown_reactions: Vec<GlobalReactionId>,
    shutdown_requested: bool,
    phase: Phase,
}

impl View for SyncScheduler {
    type V = SchedulerState;

    closed spec fn view(&self) -> SchedulerState {
        SchedulerState {
            last_processed: self.last_processed,
            events: Map::new(
                |key: (u64, u32)| queue_keys(self.queue).contains(key),
                |key: (u64, u32)| self.payloads@[pack_key(key)]@,
            ),
            initial: self.initial_time,
            options: self.options,
            shutdown_reactions: self.shutdown_reactions@,
            shutdown_requested: self.shutdown_requested,
            phase: self.phase,
            max_reaction_id: self.max_reaction_id,
        }
    }
}

impl SyncScheduler {
    /// The table of the events holds the reactions of the tags of the
    /// queue, and of no other tag.
    #[verifier::type_invariant]
    spec fn inv(&self) -> bool {
        &&& forall|key: (u64, u32)| #[trigger]
            queue_keys(self.queue).contains(key) <==> self.payloads@.contains_key(pack_key(key))
        &&& forall|key: (u64, u32)| #[trigger]
            queue_keys(self.queue).contains(key) ==> self.payloads@[pack_key(key)]@.len() > 0
        &&& self.phase == Phase::Running ==> self.initial_time is Some
    }

    /// The number of levels that the waves of the scheduler have room
    /// for.
    pub open spec fn spec_max_reaction_id(&self) -> u32 {
        self@.max_reaction_id
    }

    /// What holds of every scheduler: an event that is due has reactions
    /// to run, a scheduler that runs has an initial tag, and where events
    /// are due one of them is the earliest.
    pub open spec fn wf(&self) -> bool {
        &&& forall|key: (u64, u32)| #[trigger]
            self@.events.contains_key(key) ==> self@.events[key].len() > 0
        &&& self@.phase == Phase::Running ==> self@.initial is Some
        &&& self@.events.dom() != Set::<(u64, u32)>::empty() ==> is_earliest(
            self@.events.dom(),
            self@.earliest(),
        )
    }

    /// Every scheduler is well formed.
    pub fn is_wf(&self)
        ensures
            self.wf(),
    {
        proof {
            use_type_invariant(self);
            lemma_has_earliest(self@.events.dom());
        }
    }

    /// A scheduler whose waves have room for `max_reaction_id` levels,
    /// without a timeout, that does not wait for events from outside. A
    /// program needs as many levels as `Schedulable::level_bound` says:
    /// one for each node of its data-flow graph, reactions and ports
    /// alike. The scheduler does nothing until it is started.
    pub fn new(max_reaction_id: u32) -> (s: Self)
        ensures
            s@ == (SchedulerState {
                last_processed: None,
                events: Map::empty(),
                initial: None,
                options: SchedulerOptions { timeout: None, keep_alive: false },
                shutdown_reactions: Seq::empty(),
                shutdown_requested: false,
                phase: Phase::Created,
                max_reaction_id,
            }),
            s.spec_max_reaction_id() == max_reaction_id,
    {
        Self::with_options(max_reaction_id, SchedulerOptions { timeout: None, keep_alive: false })
    }

    /// A scheduler whose waves have room for `max_reaction_id` levels, with
    /// the given options. A program needs as many levels as
    /// `Schedulable::level_bound` says.
    pub fn with_options(max_reaction_id: u32, options: SchedulerOptions) -> (s: Self)
        ensures
            s@ == (SchedulerState {
                last_processed: None,
                events: Map::empty(),
                initial: None,
                options,
                shutdown_reactions: Seq::empty(),
                shutdown_requested: false,
                phase: Phase::Created,
                max_reaction_id,
            }),
            s.spec_max_reaction_id() == max_reaction_id,
    {
        let s = SyncScheduler {
            last_processed: None,
            queue: queue_new(),
            payloads: HashMap::new(),
            max_reaction_id,
            initial_time: None,
            options,
            shutdown_reactions: Vec::new(),
            shutdown_requested: false,
            phase: Phase::Created,
        };
        assert(s@.events =~= Map::empty());
        s
    }

    /// Takes the scheduler out of `self` and leaves an empty scheduler in
    /// its place.
    fn take_apart(&mut self) -> (s: SyncScheduler)
        ensures
            s == *old(self),
    {
        let mut taken = Self::with_options(self.max_reaction_id, self.options);
        std::mem::swap(self, &mut taken);
        taken
    }

    /// The current tag.
    pub fn current_tag(&self) -> (tag: LogicalTag)
        ensures
            tag == self@.current_tag(),
    {
        match self.last_processed {
            Some(tag) => tag,
            None => match self.initial_time {
                Some(tag) => tag,
                None => LogicalTag { instant: 0, microstep: 0 },
            },
        }
    }

    /// Where the scheduler stands in its life.
    pub fn phase(&self) -> (p: Phase)
        ensures
            p == self@.phase,
    {
        self.phase
    }

    /// Whether no event is due.
    pub fn is_idle(&self) -> (b: bool)
        ensures
            b == (self@.events.dom() == Set::<(u64, u32)>::empty()),
    {
        let b = queue_is_empty(&self.queue);
        assert(self@.events.dom() =~= queue_keys(self.queue));
        b
    }

    /// Makes an event due. Its reactions are added to those of an event
    /// that is due at the same tag. An event without reactions is
    /// dropped.
    pub fn push_event(&mut self, evt: Event)
        ensures
            final(self)@ == old(self)@.with_event(evt.process_at.spec_key(), evt.todo@),
            final(self).spec_max_reaction_id() == old(self).spec_max_reaction_id(),
    {
        broadcast use vstd::std_specs::hash::group_hash_axioms;

        if evt.todo.len() == 0 {
            return ;
        }
        let taken = self.take_apart();
        proof {
            use_type_invariant(&taken);
        }
        let ghost before = taken@;
        let SyncScheduler {
            last_processed,
            mut queue,
            mut payloads,
            max_reaction_id,
            initial_time,
            options,
            shutdown_reactions,
            shutdown_requested,
            phase,
        } = taken;
        let key = evt.process_at.key();
        let p = pack(key);
        let ghost old_keys = queue_keys(queue);
        let ghost old_payloads = payloads@;
        let list = match payloads.remove(&p) {
            Some(existing) => {
                let mut list = existing;
                append_reactions(&mut list, &evt.todo);
                list
            },
            None => evt.todo,
        };
        payloads.insert(p, list);
        queue_push(&mut queue, key);
        proof {
            assert forall|other: (u64, u32)| #[trigger]
                queue_keys(queue).contains(other) <==> payloads@.contains_key(
                    pack_key(other),
                ) by {
                if other != key {
                    if pack_key(other) == pack_key(key) {
                        lemma_pack_key_injective(other, key);
                    }
                    assert(old_keys.contains(other) <==> old_payloads.contains_key(
                        pack_key(other),
                    ));
                }
            }
            assert forall|other: (u64, u32)| #[trigger]
                queue_keys(queue).contains(other) implies payloads@[pack_key(other)]@.len()
                > 0 by {
                if other != key {
                    if pack_key(other) == pack_key(key) {
                        lemma_pack_key_injective(other, key);
                    }
                    assert(old_keys.contains(other));
                }
            }
        }
        *self = SyncScheduler {
            last_processed,
            queue,
            payloads,
            max_reaction_id,
            initial_time,
            options,
            shutdown_reactions,
            shutdown_requested,
            phase,
        };
        proof {
            let after = self@.events;
            let expected = before.with_event(key, evt.todo@).events;
            assert(before.events.contains_key(key) <==> old_keys.contains(key));
            assert forall|other: (u64, u32)| after.contains_key(other) <==> expected.contains_key(
                other,
            ) by {
                assert(before.events.contains_key(other) <==> old_keys.contains(other));
            }
            assert forall|other: (u64, u32)| after.contains_key(other) implies after[other]
                == expected[other] by {
                if other != key {
                    if pack_key(other) == pack_key(key) {
                        lemma_pack_key_injective(other, key);
                    }
                    assert(old_keys.contains(other));
                }
            }
            assert(after =~= expected);
        }
    }
    /// Fixes the origin of the logical timeline at the physical time
    /// `now`, and gives the context in which the reactors of the program
    /// register their startup and shutdown reactions.
    pub fn startup<'a>(&'a mut self, now: u64) -> (ctx: StartupCtx<'a>)
        ensures
            ctx.state() == old(self)@.started(now),
            !ctx.registers_shutdown(),
            ctx.spec_max_reaction_id() == old(self).spec_max_reaction_id(),
            *final(self) == *final(ctx.scheduler),
    {
        let taken = self.take_apart();
        proof {
            use_type_invariant(&taken);
        }
        let ghost before = taken@;
        let SyncScheduler {
            last_processed,
            queue,
            payloads,
            max_reaction_id,
            initial_time,
            options,
            shutdown_reactions,
            shutdown_requested,
            phase,
        } = taken;
        let (initial_time, phase) = match phase {
            Phase::Created => (Some(LogicalTag { instant: now, microstep: 0 }), Phase::Running),
            _ => (initial_time, phase),
        };
        *self = SyncScheduler {
            last_processed,
            queue,
            payloads,
            max_reaction_id,
            initial_time,
            options,
            shutdown_reactions,
            shutdown_requested,
            phase,
        };
        assert(self@.events =~= before.events);
        StartupCtx { scheduler: self, shutdown: false }
    }

    /// Adds reactions to those that run when the program shuts down.
    pub fn register_shutdown(&mut self, reactions: &Vec<GlobalReactionId>)
        ensures
            final(self)@ == (SchedulerState {
                shutdown_reactions: old(self)@.shutdown_reactions + reactions@,
                ..old(self)@
            }),
            final(self).spec_max_reaction_id() == old(self).spec_max_reaction_id(),
    {
        let taken = self.take_apart();
        proof {
            use_type_invariant(&taken);
        }
        let ghost before = taken@;
        let SyncScheduler {
            last_processed,
            queue,
            payloads,
            max_reaction_id,
            initial_time,
            options,
            mut shutdown_reactions,
            shutdown_requested,
            phase,
        } = taken;
        append_reactions(&mut shutdown_reactions, reactions);
        *self = SyncScheduler {
            last_processed,
            queue,
            payloads,
            max_reaction_id,
            initial_time,
            options,
            shutdown_reactions,
            shutdown_requested,
            phase,
        };
        assert(self@.events =~= before.events);
    }

    /// Asks for the program to shut down at the next step.
    pub fn request_shutdown(&mut self)
        ensures
            final(self)@ == (SchedulerState { shutdown_requested: true, ..old(self)@ }),
            final(self).spec_max_reaction_id() == old(self).spec_max_reaction_id(),
    {
        let taken = self.take_apart();
        proof {
            use_type_invariant(&taken);
        }
        let ghost before = taken@;
        let SyncScheduler {
            last_processed,
            queue,
            payloads,
            max_reaction_id,
            initial_time,
            options,
            shutdown_reactions,
            shutdown_requested,
            phase,
        } = taken;
        *self = SyncScheduler {
            last_processed,
            queue,
            payloads,
            max_reaction_id,
            initial_time,
            options,
            shutdown_reactions,
            shutdown_requested: true,
            phase,
        };
        assert(self@.events =~= before.events);
    }

    /// Tells the scheduler that the wait for events from outside has run
    /// out. Unless the program is kept alive, this asks for the shutdown.
    pub fn wait_timed_out(&mut self)
        ensures
            final(self)@ == (SchedulerState {
                shutdown_requested: old(self)@.shutdown_requested
                    || !old(self)@.options.keep_alive,
                ..old(self)@
            }),
            final(self).spec_max_reaction_id() == old(self).spec_max_reaction_id(),
    {
        if !self.options.keep_alive {
            self.request_shutdown();
        } else {
            assert(self@ == (SchedulerState {
                shutdown_requested: self@.shutdown_requested || !self@.options.keep_alive,
                ..self@
            }));
        }
    }

    /// Takes in what a wave left: the events that its reactions scheduled
    /// become due, and a request to shut down is recorded.
    pub fn finish_wave(&mut self, later: Vec<Event>, shutdown_requested: bool)
        ensures
            final(self)@ == (SchedulerState {
                shutdown_requested: old(self)@.shutdown_requested || shutdown_requested,
                ..old(self)@.with_events(later@)
            }),
            final(self).spec_max_reaction_id() == old(self).spec_max_reaction_id(),
    {
        let ghost before = self@;
        let mut later = later;
        let ghost all = later@;
        let mut rest: Vec<Event> = Vec::new();
        // The events are taken from the end, so they are put back in order first.
        while later.len() > 0
            invariant
                all == later@ + rest@.reverse(),
            decreases later@.len(),
        {
            let ghost prev_later = later@;
            let ghost prev_rest = rest@;
            let evt = later.pop().unwrap();
            rest.push(evt);
            assert(rest@.reverse() =~= seq![evt] + prev_rest.reverse());
            assert(prev_later =~= later@ + seq![evt]);
            assert(all =~= later@ + rest@.reverse());
        }
        assert(all =~= rest@.reverse());
        let ghost total = rest@.len();
        assert(all.take(0) =~= Seq::<Event>::empty());
        while rest.len() > 0
            invariant
                total == all.len(),
                rest@.len() <= total,
                forall|k: int| 0 <= k < rest@.len() ==> #[trigger] rest@[k] == all[total - 1 - k],
                self@ == before.with_events(all.take(total - rest@.len())),
                self.spec_max_reaction_id() == old(self).spec_max_reaction_id(),
            decreases rest@.len(),
        {
            let ghost done = total - rest@.len();
            let evt = rest.pop().unwrap();
            assert(evt == all[done]);
            assert(all.take(done + 1).drop_last() =~= all.take(done));
            assert(all.take(done + 1).last() == evt);
            self.push_event(evt);
        }
        assert(all.take(total as int) =~= all);
        proof {
            lemma_with_events_frame(before, all);
        }
        if shutdown_requested {
            self.request_shutdown();
        }
    }

    /// The tag at which an event due at `up_to_time` is processed when
    /// physical time is `now`: logical time does not run ahead of physical
    /// time, so the instant is the later of the two.
    pub fn catch_up_physical_time(up_to_time: LogicalTag, now: u64) -> (tag: LogicalTag)
        ensures
            tag == caught_up(up_to_time, now),
    {
        if now < up_to_time.instant {
            up_to_time
        } else {
            LogicalTag { instant: now, microstep: up_to_time.microstep }
        }
    }

    /// A wave at the tag `logical_time` with the given reactions pending.
    /// The wave has room for as many levels as the scheduler was made
    /// for: a reaction whose level is not below that number is refused.
    pub fn new_wave<'s>(
        &self,
        sched: &'s Schedulable,
        logical_time: LogicalTag,
        reactions: &[GlobalReactionId],
    ) -> (r: Result<ReactionWave<'s>, RuntimeError>)
        ensures
            r is Ok <==> self.spec_max_reaction_id() <= crate::bitset::BITSET_LIMIT && forall|
                k: int,
            |
                0 <= k < reactions@.len() ==> crate::wave::admissible(
                    #[trigger] reactions@[k],
                    sched.level_fn(),
                    self.spec_max_reaction_id() as nat,
                ),
            r matches Ok(wave) ==> wave.starts(
                *sched,
                logical_time,
                reactions@,
                self.spec_max_reaction_id() as usize,
            ),
            r matches Err(e) ==> (e == RuntimeError::TooManyReactions
                <==> self.spec_max_reaction_id() > crate::bitset::BITSET_LIMIT) && (e
                != RuntimeError::TooManyReactions ==> exists|k: int|
                0 <= k < reactions@.len() && !crate::wave::admissible(
                    #[trigger] reactions@[k],
                    sched.level_fn(),
                    self.spec_max_reaction_id() as nat,
                ) && e == RuntimeError::UnknownReaction(reactions@[k])),
    {
        ReactionWave::with_room(sched, logical_time, reactions, self.max_reaction_id as usize)
    }

    /// Says what the event loop is to do next when physical time is
    /// `now`, and moves on to the state in which that was done.
    pub fn step(&mut self, now: u64) -> (r: Step)
        ensures
            r@ == old(self)@.decide(now),
            final(self)@ == old(self)@.advance(now),
            final(self).spec_max_reaction_id() == old(self).spec_max_reaction_id(),
    {
        broadcast use vstd::std_specs::hash::group_hash_axioms;

        proof {
            use_type_invariant(&*self);
        }
        match self.phase {
            Phase::Running => {},
            _ => {
                return Step::Done;
            },
        }
        let taken = self.take_apart();
        proof {
            use_type_invariant(&taken);
        }
        let ghost before = taken@;
        let SyncScheduler {
            last_processed,
            mut queue,
            mut payloads,
            max_reaction_id,
            initial_time,
            options,
            shutdown_reactions,
            shutdown_requested,
            phase,
        } = taken;
        let ghost old_keys = queue_keys(queue);
        let ghost old_payloads = payloads@;
        assert(before.events.dom() =~= old_keys);
        let next = queue_peek(&queue);
        proof {
            if let Some(key) = next {
                assert(is_earliest(before.events.dom(), key));
                lemma_earliest_unique(before.events.dom(), key, before.earliest());
            }
        }
        let current = match last_processed {
            Some(tag) => tag,
            None => match initial_time {
                Some(tag) => tag,
                None => LogicalTag { instant: 0, microstep: 0 },
            },
        };
        let past_timeout = match next {
            None => false,
            Some(key) => match (options.timeout, initial_time) {
                (Some(timeout), Some(initial)) => match initial.instant.checked_add(timeout) {
                    Some(limit) => key.0 > limit,
                    None => false,
                },
                _ => false,
            },
        };
        let idle_timed_out = match next {
            Some(_) => false,
            None => match (options.timeout, initial_time) {
                (Some(timeout), Some(initial)) => match initial.instant.checked_add(timeout) {
                    Some(limit) => now > limit,
                    None => false,
                },
                _ => false,
            },
        };
        if shutdown_requested || past_timeout || idle_timed_out {
            if current.microstep == u32::MAX {
                *self = SyncScheduler {
                    last_processed,
                    queue,
                    payloads,
                    max_reaction_id,
                    initial_time,
                    options,
                    shutdown_reactions,
                    shutdown_requested,
                    phase: Phase::Terminated,
                };
                assert(self@.events =~= before.events);
                return Step::Fault(RuntimeError::TagOverflow);
            }
            let tag = LogicalTag { instant: current.instant, microstep: current.microstep + 1 };
            let reactions = copy_reactions(&shutdown_reactions);
            *self = SyncScheduler {
                last_processed: Some(tag),
                queue,
                payloads,
                max_reaction_id,
                initial_time,
                options,
                shutdown_reactions,
                shutdown_requested,
                phase: Phase::Terminated,
            };
            assert(self@.events =~= before.events);
            return Step::Shutdown(tag, reactions);
        }
        let key = match next {
            None => {
                *self = SyncScheduler {
                    last_processed,
                    queue,
                    payloads,
                    max_reaction_id,
                    initial_time,
                    options,
                    shutdown_reactions,
                    shutdown_requested,
                    phase,
                };
                assert(self@.events =~= before.events);
                return Step::Wait;
            },
            Some(key) => key,
        };
        if now < key.0 {
            *self = SyncScheduler {
                last_processed,
                queue,
                payloads,
                max_reaction_id,
                initial_time,
                options,
                shutdown_reactions,
                shutdown_requested,
                phase,
            };
            assert(self@.events =~= before.events);
            return Step::Sleep(key.0 - now);
        }
        let reached = Self::catch_up_physical_time(LogicalTag::from_key(key), now);
        let tag = match last_processed {
            None => reached,
            Some(last) => {
                if last.is_before(&reached) {
                    reached
                } else if last.microstep == u32::MAX {
                    *self = SyncScheduler {
                        last_processed,
                        queue,
                        payloads,
                        max_reaction_id,
                        initial_time,
                        options,
                        shutdown_reactions,
                        shutdown_requested,
                        phase: Phase::Terminated,
                    };
                    assert(self@.events =~= before.events);
                    return Step::Fault(RuntimeError::TagOverflow);
                } else {
                    LogicalTag { instant: last.instant, microstep: last.microstep + 1 }
                }
            },
        };
        let popped = queue_pop(&mut queue);
        proof {
            lemma_earliest_unique(old_keys, key, popped->0);
        }
        let reactions = payloads.remove(&pack(key)).unwrap();
        proof {
            assert forall|other: (u64, u32)| #[trigger]
                queue_keys(queue).contains(other) <==> payloads@.contains_key(
                    pack_key(other),
                ) by {
                if other != key {
                    if pack_key(other) == pack_key(key) {
                        lemma_pack_key_injective(other, key);
                    }
                    assert(old_keys.contains(other) <==> old_payloads.contains_key(
                        pack_key(other),
                    ));
                }
            }
            assert forall|other: (u64, u32)| #[trigger]
                queue_keys(queue).contains(other) implies payloads@[pack_key(other)]@.len()
                > 0 by {
                if pack_key(other) == pack_key(key) {
                    lemma_pack_key_injective(other, key);
                }
                assert(old_keys.contains(other));
            }
        }
        *self = SyncScheduler {
            last_processed: Some(tag),
            queue,
            payloads,
            max_reaction_id,
            initial_time,
            options,
            shutdown_reactions,
            shutdown_requested,
            phase,
        };
        proof {
            let after = self@.events;
            let expected = before.events.remove(key);
            assert forall|other: (u64, u32)| after.contains_key(other) implies after[other]
                == expected[other] by {
                if pack_key(other) == pack_key(key) {
                    lemma_pack_key_injective(other, key);
                }
            }
            assert(after =~= expected);
        }
        Step::Run(tag, reactions)
    }
}

/// What registers the startup and the shutdown reactions of a reactor.
pub trait ReactorBehavior {
    /// Hands the startup reactions of the reactor to `ctx`, which takes
    /// what it is handed as startup reactions.
    fn enqueue_startup(&self, ctx: &mut StartupCtx<'_>)
        requires
            !old(ctx).registers_shutdown(),
    ;

    /// Hands the shutdown reactions of the reactor to `ctx`, which takes
    /// what it is handed as shutdown reactions.
    fn enqueue_shutdown(&self, ctx: &mut StartupCtx<'_>)
        requires
            old(ctx).registers_shutdown(),
    ;
}

/// The context in which the reactors of a program register their startup
/// and shutdown reactions, before the first wave.
pub struct StartupCtx<'a> {
    /// The scheduler that is started.
    pub scheduler: &'a mut SyncScheduler,
    /// Whether reactions handed in are taken as shutdown reactions.
    pub shutdown: bool,
}

impl<'a> StartupCtx<'a> {
    /// The state of the scheduler.
    pub open spec fn state(&self) -> SchedulerState {
        self.scheduler@
    }

    /// The number of levels that the waves of the scheduler have room
    /// for.
    pub open spec fn spec_max_reaction_id(&self) -> u32 {
        self.scheduler.spec_max_reaction_id()
    }

    /// Whether reactions handed in are taken as shutdown reactions.
    pub open spec fn registers_shutdown(&self) -> bool {
        self.shutdown
    }

    /// Takes reactions in: as reactions to run at the initial tag, or,
    /// while shutdown reactions are registered, as reactions to run at
    /// the shutdown.
    pub fn enqueue(&mut self, reactions: &Vec<GlobalReactionId>)
        ensures
            *final(final(self).scheduler) == *final(old(self).scheduler),
            final(self).registers_shutdown() == old(self).registers_shutdown(),
            final(self).spec_max_reaction_id() == old(self).spec_max_reaction_id(),
            final(self).state() == if old(self).registers_shutdown() {
                SchedulerState {
                    shutdown_reactions: old(self).state().shutdown_reactions + reactions@,
                    ..old(self).state()
                }
            } else {
                old(self).state().with_event(
                    old(self).state().current_tag().spec_key(),
                    reactions@,
                )
            },
    {
        if self.shutdown {
            self.scheduler.register_shutdown(reactions);
        } else {
            let tag = self.scheduler.current_tag();
            let todo = copy_reactions(reactions);
            self.scheduler.push_event(Event { process_at: tag, todo });
        }
    }

    /// Has a reactor register its startup reactions, then its shutdown
    /// reactions. Afterwards reactions handed in are taken as startup
    /// reactions again, and the scheduler is well formed, whatever the
    /// reactor did.
    pub fn start<R: ReactorBehavior>(&mut self, r: &R)
        ensures
            !final(self).registers_shutdown(),
            final(self).scheduler.wf(),
    {
        self.shutdown = false;
        r.enqueue_startup(self);
        self.shutdown = true;
        r.enqueue_shutdown(self);
        self.shutdown = false;
        self.scheduler.is_wf();
    }
}

} // verus!
