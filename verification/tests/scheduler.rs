use reactor_core::action::LogicalAction;
use reactor_core::error::DependencyKind;
use reactor_core::flowgraph::{FlowGraph, Schedulable};
use reactor_core::ids::{GlobalId, GlobalReactionId, LocalReactionId, ReactorId};
use reactor_core::ports::{Port, PortBank, PortKind};
use reactor_core::scheduler::{
    Phase, ReactorBehavior, SchedulerOptions, StartupCtx, Step, SyncScheduler,
};
use reactor_core::time::{LogicalTag, Offset};
use reactor_core::wave::{Event, LogicalCtx, ReactionInvoker, RuntimeError};

const MS: u64 = 1_000_000;
const SEC: u64 = 1_000 * MS;

fn gid(container: u16, local: u16) -> GlobalId {
    GlobalId::new(ReactorId::new_const(container), LocalReactionId::new_const(local))
}

fn rid(container: u16, local: u16) -> GlobalReactionId {
    GlobalReactionId::new(ReactorId::new_const(container), LocalReactionId::new_const(local))
}

fn event(instant: u64, microstep: u32, todo: Vec<GlobalReactionId>) -> Event {
    Event { process_at: LogicalTag::new(instant, microstep), todo }
}

fn started(now: u64) -> SyncScheduler {
    let mut s = SyncScheduler::new(16);
    s.startup(now);
    s
}

fn expect_run(step: Step) -> (LogicalTag, Vec<GlobalReactionId>) {
    match step {
        Step::Run(tag, reactions) => (tag, reactions),
        other => panic!("expected a wave, got {:?}", other),
    }
}

fn expect_shutdown(step: Step) -> (LogicalTag, Vec<GlobalReactionId>) {
    match step {
        Step::Shutdown(tag, reactions) => (tag, reactions),
        other => panic!("expected the shutdown, got {:?}", other),
    }
}

#[test]
fn a_scheduler_does_nothing_before_it_is_started() {
    let mut s = SyncScheduler::new(4);
    assert_eq!(s.phase(), Phase::Created);
    assert!(s.is_idle());
    assert!(matches!(s.step(0), Step::Done));
    s.push_event(event(5, 0, vec![rid(1, 0)]));
    assert!(!s.is_idle());
    assert!(matches!(s.step(10), Step::Done));
    assert_eq!(s.phase(), Phase::Created);
}

#[test]
fn empty_program_shuts_down_at_once() {
    let mut s = SyncScheduler::new(0);
    s.startup(100);
    assert_eq!(s.phase(), Phase::Running);
    assert_eq!(s.current_tag(), LogicalTag::new(100, 0));
    // nothing is due: the loop waits, the wait runs out, the program ends
    assert!(matches!(s.step(100), Step::Wait));
    s.wait_timed_out();
    let (tag, reactions) = expect_shutdown(s.step(101));
    assert_eq!(tag, LogicalTag::new(100, 1));
    assert!(reactions.is_empty());
    assert_eq!(s.phase(), Phase::Terminated);
    assert!(matches!(s.step(102), Step::Done));
}

#[test]
fn startup_reactions_run_at_the_initial_tag() {
    let hello = rid(0, 0);
    let bye = rid(0, 1);
    let mut s = SyncScheduler::new(2);
    {
        let mut ctx = s.startup(100);
        ctx.enqueue(&vec![hello]);
        ctx.shutdown = true;
        ctx.enqueue(&vec![bye]);
    }
    let (tag, reactions) = expect_run(s.step(100));
    assert_eq!(tag, LogicalTag::new(100, 0));
    assert_eq!(reactions, vec![hello]);
    assert!(matches!(s.step(100), Step::Wait));
    s.wait_timed_out();
    let (tag, reactions) = expect_shutdown(s.step(100));
    assert_eq!(tag, LogicalTag::new(100, 1));
    assert_eq!(reactions, vec![bye]);
    assert!(matches!(s.step(100), Step::Done));
}

struct Hello {
    startup: Vec<GlobalReactionId>,
    shutdown: Vec<GlobalReactionId>,
}

impl ReactorBehavior for Hello {
    fn enqueue_startup(&self, ctx: &mut StartupCtx<'_>) {
        ctx.enqueue(&self.startup);
    }

    fn enqueue_shutdown(&self, ctx: &mut StartupCtx<'_>) {
        ctx.enqueue(&self.shutdown);
    }
}

#[test]
fn reactors_register_their_startup_and_shutdown_reactions() {
    let first = Hello { startup: vec![rid(1, 0)], shutdown: vec![rid(1, 1)] };
    let second = Hello { startup: vec![rid(2, 0)], shutdown: vec![] };
    let third = Hello { startup: vec![], shutdown: vec![rid(3, 1)] };
    let mut s = SyncScheduler::new(8);
    {
        let mut ctx = s.startup(7);
        ctx.start(&first);
        assert!(!ctx.shutdown);
        ctx.start(&second);
        ctx.start(&third);
        assert!(!ctx.shutdown);
    }
    assert!(!s.startup(7).shutdown);
    let (tag, reactions) = expect_run(s.step(7));
    assert_eq!(tag, LogicalTag::new(7, 0));
    assert_eq!(reactions, vec![rid(1, 0), rid(2, 0)]);
    s.request_shutdown();
    let (_, reactions) = expect_shutdown(s.step(7));
    assert_eq!(reactions, vec![rid(1, 1), rid(3, 1)]);
}

#[test]
fn a_keep_alive_program_goes_on_waiting() {
    let mut s =
        SyncScheduler::with_options(1, SchedulerOptions { timeout: None, keep_alive: true });
    s.startup(0);
    assert!(matches!(s.step(0), Step::Wait));
    s.wait_timed_out();
    assert!(matches!(s.step(1), Step::Wait));
    s.request_shutdown();
    assert!(matches!(s.step(2), Step::Shutdown(_, _)));
}

#[test]
fn events_come_out_by_tag() {
    let mut s = started(0);
    s.push_event(event(30, 0, vec![rid(1, 3)]));
    s.push_event(event(10, 1, vec![rid(1, 1)]));
    s.push_event(event(20, 0, vec![rid(1, 2)]));
    s.push_event(event(10, 0, vec![rid(1, 0)]));
    let mut seen = vec![];
    for now in [10, 10, 20, 30] {
        let (tag, reactions) = expect_run(s.step(now));
        seen.push((tag.instant, tag.microstep, reactions[0].0.local().raw));
    }
    assert_eq!(seen, vec![(10, 0, 0), (10, 1, 1), (20, 0, 2), (30, 0, 3)]);
    assert!(s.is_idle());
}

#[test]
fn events_of_one_tag_are_one_wave() {
    let mut s = started(0);
    s.push_event(event(10, 0, vec![rid(1, 0), rid(1, 1)]));
    s.push_event(event(10, 0, vec![rid(2, 0)]));
    s.push_event(event(10, 0, vec![]));
    // an event without reactions is dropped
    s.push_event(event(99, 0, vec![]));
    let (tag, reactions) = expect_run(s.step(10));
    assert_eq!(tag, LogicalTag::new(10, 0));
    assert_eq!(reactions, vec![rid(1, 0), rid(1, 1), rid(2, 0)]);
    assert!(s.is_idle());
    assert!(matches!(s.step(10), Step::Wait));
}

#[test]
fn the_scheduler_sleeps_until_an_event_is_due() {
    let mut s = started(1_000);
    s.push_event(event(5_000, 0, vec![rid(1, 0)]));
    match s.step(1_200) {
        Step::Sleep(d) => assert_eq!(d, 3_800),
        other => panic!("expected a sleep, got {:?}", other),
    }
    // nothing was taken from the queue
    assert!(!s.is_idle());
    match s.step(4_999) {
        Step::Sleep(d) => assert_eq!(d, 1),
        other => panic!("expected a sleep, got {:?}", other),
    }
    let (tag, _) = expect_run(s.step(5_000));
    assert_eq!(tag, LogicalTag::new(5_000, 0));
    assert_eq!(s.current_tag(), tag);
}

#[test]
fn a_late_wave_runs_at_the_physical_time() {
    assert_eq!(
        SyncScheduler::catch_up_physical_time(LogicalTag::new(50, 3), 40),
        LogicalTag::new(50, 3)
    );
    assert_eq!(
        SyncScheduler::catch_up_physical_time(LogicalTag::new(50, 3), 50),
        LogicalTag::new(50, 3)
    );
    assert_eq!(
        SyncScheduler::catch_up_physical_time(LogicalTag::new(50, 3), 70),
        LogicalTag::new(70, 3)
    );
    let mut s = started(0);
    s.push_event(event(50, 3, vec![rid(1, 0)]));
    let (tag, _) = expect_run(s.step(70));
    assert_eq!(tag, LogicalTag::new(70, 3));
}

#[test]
fn wave_tags_increase_strictly() {
    let mut s = started(0);
    s.push_event(event(5, 0, vec![rid(1, 0)]));
    s.push_event(event(6, 0, vec![rid(1, 1)]));
    s.push_event(event(7, 2, vec![rid(1, 2)]));
    // all three are processed late, at the same physical time
    let (first, _) = expect_run(s.step(10));
    let (second, _) = expect_run(s.step(10));
    let (third, _) = expect_run(s.step(10));
    assert_eq!(first, LogicalTag::new(10, 0));
    assert_eq!(second, LogicalTag::new(10, 1));
    assert_eq!(third, LogicalTag::new(10, 2));
    // a clock that went back does not take the tags back
    s.push_event(event(8, 0, vec![rid(1, 3)]));
    let (fourth, _) = expect_run(s.step(9));
    assert_eq!(fourth, LogicalTag::new(10, 3));
}

#[test]
fn a_timeout_ends_the_run_before_the_first_event_beyond_it() {
    let options = SchedulerOptions { timeout: Some(100), keep_alive: false };
    let mut s = SyncScheduler::with_options(1, options);
    s.startup(1_000);
    s.register_shutdown(&vec![rid(1, 9)]);
    s.push_event(event(1_100, 0, vec![rid(1, 0)]));
    s.push_event(event(1_101, 0, vec![rid(1, 1)]));
    let (tag, _) = expect_run(s.step(1_100));
    assert_eq!(tag, LogicalTag::new(1_100, 0));
    let (tag, reactions) = expect_shutdown(s.step(1_100));
    assert_eq!(tag, LogicalTag::new(1_100, 1));
    assert_eq!(reactions, vec![rid(1, 9)]);
    // the event beyond the timeout is never processed
    assert!(!s.is_idle());
    assert!(matches!(s.step(2_000), Step::Done));
}

#[test]
fn the_microstep_cannot_overflow() {
    let mut s = started(0);
    s.push_event(event(5, u32::MAX, vec![rid(1, 0)]));
    s.push_event(event(5, 0, vec![rid(1, 1)]));
    let (a, _) = expect_run(s.step(5));
    let (b, _) = expect_run(s.step(5));
    assert_eq!(a, LogicalTag::new(5, 0));
    assert_eq!(b, LogicalTag::new(5, u32::MAX));
    s.request_shutdown();
    match s.step(5) {
        Step::Fault(e) => assert_eq!(e, RuntimeError::TagOverflow),
        other => panic!("expected a fault, got {:?}", other),
    }
    assert_eq!(s.phase(), Phase::Terminated);
}

#[test]
fn finish_wave_takes_in_what_the_wave_left() {
    let mut s = started(0);
    s.finish_wave(
        vec![
            event(20, 0, vec![rid(1, 0)]),
            event(10, 0, vec![rid(1, 1)]),
            event(20, 0, vec![rid(1, 2)]),
        ],
        false,
    );
    let (tag, reactions) = expect_run(s.step(10));
    assert_eq!((tag, reactions), (LogicalTag::new(10, 0), vec![rid(1, 1)]));
    let (tag, reactions) = expect_run(s.step(20));
    assert_eq!((tag, reactions), (LogicalTag::new(20, 0), vec![rid(1, 0), rid(1, 2)]));
    s.finish_wave(vec![event(30, 0, vec![rid(1, 3)])], true);
    // a shutdown drains no further events
    let (tag, _) = expect_shutdown(s.step(30));
    assert_eq!(tag, LogicalTag::new(20, 1));
}

/// A reactor with an action `tick` of delay 1s, a reaction to `tick` that
/// schedules `tick` again and emits on its output port, and a reaction that
/// only schedules `tick`; and a reactor that prints what the first emits.
struct Ticker {
    sched: Schedulable,
    bank: PortBank<u32>,
    emit: GlobalReactionId,
    kick: GlobalReactionId,
    print: GlobalReactionId,
    out: Port,
    tick: LogicalAction,
}

fn ticker() -> Ticker {
    let emit = rid(1, 0);
    let kick = rid(1, 3);
    let print = rid(2, 0);
    let mut bank = PortBank::<u32>::new();
    let out = bank.new_port(PortKind::Output, gid(1, 1));
    let tick = LogicalAction::new(Some(SEC), gid(1, 2));
    let mut flow = FlowGraph::new();
    flow.register_reaction(emit);
    flow.register_reaction(kick);
    flow.register_reaction(print);
    flow.add_reactions(vec![emit, kick]);
    flow.add_reactions(vec![print]);
    flow.add_trigger_dependency(kick, tick.0.id, DependencyKind::Affects).unwrap();
    flow.add_data_dependency(emit, out.id, DependencyKind::Affects).unwrap();
    flow.add_data_dependency(print, out.id, DependencyKind::Use).unwrap();
    flow.add_trigger_dependency(emit, tick.0.id, DependencyKind::Use).unwrap();
    flow.add_trigger_dependency(emit, tick.0.id, DependencyKind::Affects).unwrap();
    let sched = flow.consume_to_schedulable().unwrap();
    Ticker { sched, bank, emit, kick, print, out, tick }
}

struct TickerBodies {
    emit: GlobalReactionId,
    kick: GlobalReactionId,
    print: GlobalReactionId,
    out: Port,
    tick: LogicalAction,
    count: u32,
    emitted: Vec<LogicalTag>,
    printed: Vec<(LogicalTag, u32)>,
}

impl ReactionInvoker<u32> for TickerBodies {
    fn fire(
        &mut self,
        ctx: &mut LogicalCtx<'_, '_>,
        bank: &mut PortBank<u32>,
        reaction: GlobalReactionId,
    ) {
        if reaction == self.emit {
            self.count += 1;
            ctx.set(bank, &self.out, self.count).unwrap();
            ctx.schedule(&self.tick, Offset::Asap).unwrap();
            self.emitted.push(ctx.get_logical_time());
        } else if reaction == self.kick {
            ctx.schedule(&self.tick, Offset::Asap).unwrap();
        } else if reaction == self.print {
            let v = ctx.get(bank, &self.out).unwrap().unwrap();
            self.printed.push((ctx.get_logical_time(), v));
        }
    }
}

/// Runs the event loop on a clock that jumps to wherever the scheduler sleeps to.
fn run_ticker(timeout_ms: u64, t0: u64) -> (Vec<LogicalTag>, Vec<(LogicalTag, u32)>, LogicalTag) {
    run_ticker_from(timeout_ms, t0, true)
}

/// Runs the ticker from a startup reaction that emits at once, or from one that
/// only schedules the first tick.
fn run_ticker_from(
    timeout_ms: u64,
    t0: u64,
    emit_at_startup: bool,
) -> (Vec<LogicalTag>, Vec<(LogicalTag, u32)>, LogicalTag) {
    let Ticker { sched, mut bank, emit, kick, print, out, tick } = ticker();
    let options = SchedulerOptions { timeout: Some(timeout_ms * MS), keep_alive: false };
    let mut scheduler = SyncScheduler::with_options(sched.level_bound() as u32, options);
    scheduler.startup(t0).enqueue(&vec![if emit_at_startup { emit } else { kick }]);
    let mut bodies = TickerBodies {
        emit,
        kick,
        print,
        out,
        tick,
        count: 0,
        emitted: vec![],
        printed: vec![],
    };
    let mut now = t0;
    for _ in 0..1000 {
        match scheduler.step(now) {
            Step::Sleep(d) => now += d,
            Step::Run(tag, reactions) => {
                let wave = scheduler.new_wave(&sched, tag, &reactions).unwrap();
                let outcome = wave.consume(&mut bodies, &mut bank);
                assert!(outcome.unfinished.is_empty());
                assert_eq!(bank.get(&out), None);
                scheduler.finish_wave(outcome.later, outcome.shutdown_requested);
            }
            Step::Wait => scheduler.wait_timed_out(),
            Step::Shutdown(tag, reactions) => {
                assert!(reactions.is_empty());
                return (bodies.emitted, bodies.printed, tag);
            }
            Step::Done => panic!("the shutdown comes first"),
            Step::Fault(e) => panic!("fault: {:?}", e),
        }
    }
    panic!("the run did not end");
}

#[test]
fn periodic_self_scheduling_emits_four_times_in_three_and_a_half_seconds() {
    let t0 = 7 * SEC;
    let (emitted, _, end) = run_ticker(3_500, t0);
    assert_eq!(
        emitted,
        vec![
            LogicalTag::new(t0, 0),
            LogicalTag::new(t0 + SEC, 0),
            LogicalTag::new(t0 + 2 * SEC, 0),
            LogicalTag::new(t0 + 3 * SEC, 0),
        ]
    );
    assert_eq!(end, LogicalTag::new(t0 + 3 * SEC, 1));
}

#[test]
fn the_consumer_sees_each_emission_in_tag_order() {
    let t0 = 0;
    let (_, printed, _) = run_ticker(1_500, t0);
    assert_eq!(printed, vec![(LogicalTag::new(0, 0), 1), (LogicalTag::new(SEC, 0), 2)]);
}

#[test]
fn producer_and_relay_print_two_lines_in_two_and_a_half_seconds() {
    let t0 = 3 * SEC;
    // the producer emits one second after the start, and every second from then on
    let (emitted, printed, end) = run_ticker_from(2_500, t0, false);
    assert_eq!(emitted, vec![LogicalTag::new(t0 + SEC, 0), LogicalTag::new(t0 + 2 * SEC, 0)]);
    assert_eq!(
        printed,
        vec![(LogicalTag::new(t0 + SEC, 0), 1), (LogicalTag::new(t0 + 2 * SEC, 0), 2)]
    );
    assert_eq!(end, LogicalTag::new(t0 + 2 * SEC, 1));
}

#[test]
fn two_runs_of_one_program_are_the_same() {
    assert_eq!(run_ticker(5_500, 42), run_ticker(5_500, 42));
    assert_eq!(run_ticker(5_500, 42).0.len(), 6);
}

#[test]
fn new_wave_has_the_room_the_scheduler_was_made_for() {
    let Ticker { sched, emit, print, .. } = ticker();
    let level_of_print = sched.level_of(&print).unwrap();
    assert!(sched.level_of(&emit).unwrap() < level_of_print);
    let roomy = SyncScheduler::new(sched.level_bound() as u32);
    let tag = LogicalTag::new(0, 0);
    let wave = roomy.new_wave(&sched, tag, &[print, emit]).unwrap();
    assert_eq!(wave.room(), sched.level_bound());
    let tight = SyncScheduler::new(level_of_print as u32);
    assert!(tight.new_wave(&sched, tag, &[emit]).is_ok());
    match tight.new_wave(&sched, tag, &[print]) {
        Err(e) => assert_eq!(e, RuntimeError::UnknownReaction(print)),
        Ok(_) => panic!("the wave has no room for the reaction"),
    }
}

#[test]
fn an_idle_run_ends_when_physical_time_is_past_the_timeout() {
    let options = SchedulerOptions { timeout: Some(100), keep_alive: true };
    let mut s = SyncScheduler::with_options(1, options);
    s.startup(1_000);
    assert!(matches!(s.step(1_050), Step::Wait));
    s.wait_timed_out();
    // exactly at the timeout the run goes on
    assert!(matches!(s.step(1_100), Step::Wait));
    let (tag, _) = expect_shutdown(s.step(1_101));
    assert_eq!(tag, LogicalTag::new(1_000, 1));
    // an event that is due in time is processed even when the loop is late
    let mut late = SyncScheduler::with_options(1, options);
    late.startup(1_000);
    late.push_event(event(1_090, 0, vec![rid(1, 0)]));
    let (tag, _) = expect_run(late.step(1_500));
    assert_eq!(tag, LogicalTag::new(1_500, 0));
    assert!(matches!(late.step(1_500), Step::Shutdown(_, _)));
}
