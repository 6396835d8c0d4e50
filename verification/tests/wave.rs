use reactor_core::action::LogicalAction;
use reactor_core::error::DependencyKind;
use reactor_core::flowgraph::{FlowGraph, Schedulable};
use reactor_core::ids::{GlobalId, GlobalReactionId, LocalReactionId, ReactorId};
use reactor_core::ports::{Port, PortBank, PortKind};
use reactor_core::time::{LogicalTag, Offset};
use reactor_core::wave::{LogicalCtx, ReactionInvoker, ReactionWave, RuntimeError};

const SEC: u64 = 1_000_000_000;

fn gid(container: u16, local: u16) -> GlobalId {
    GlobalId::new(ReactorId::new_const(container), LocalReactionId::new_const(local))
}

fn rid(container: u16, local: u16) -> GlobalReactionId {
    GlobalReactionId::new(ReactorId::new_const(container), LocalReactionId::new_const(local))
}

/// A writes P; B and C use P; B writes QB, C writes QC; D uses QB and QC.
/// X is a reaction of its own. Action T triggers A, and A may schedule T.
struct Diamond {
    sched: Schedulable,
    bank: PortBank<i32>,
    a: GlobalReactionId,
    b: GlobalReactionId,
    c: GlobalReactionId,
    d: GlobalReactionId,
    x: GlobalReactionId,
    p: Port,
    qb: Port,
    qc: Port,
    tick: LogicalAction,
}

fn diamond() -> Diamond {
    let (a, b, c, d, x) = (rid(1, 0), rid(2, 0), rid(3, 0), rid(4, 0), rid(5, 0));
    let mut bank = PortBank::<i32>::new();
    let p = bank.new_port(PortKind::Output, gid(1, 1));
    let qb = bank.new_port(PortKind::Output, gid(2, 1));
    let qc = bank.new_port(PortKind::Output, gid(3, 1));
    let tick = LogicalAction::new(Some(SEC), gid(1, 2));
    let mut flow = FlowGraph::new();
    for r in [a, b, c, d, x] {
        flow.register_reaction(r);
    }
    flow.add_reactions(vec![x]);
    flow.add_data_dependency(d, qc.id, DependencyKind::Use).unwrap();
    flow.add_data_dependency(d, qb.id, DependencyKind::Use).unwrap();
    flow.add_data_dependency(c, qc.id, DependencyKind::Affects).unwrap();
    flow.add_data_dependency(b, qb.id, DependencyKind::Affects).unwrap();
    flow.add_data_dependency(c, p.id, DependencyKind::Use).unwrap();
    flow.add_data_dependency(b, p.id, DependencyKind::Use).unwrap();
    flow.add_data_dependency(a, p.id, DependencyKind::Affects).unwrap();
    flow.add_trigger_dependency(a, tick.0.id, DependencyKind::Use).unwrap();
    flow.add_trigger_dependency(a, tick.0.id, DependencyKind::Affects).unwrap();
    let sched = flow.consume_to_schedulable().unwrap();
    Diamond { sched, bank, a, b, c, d, x, p, qb, qc, tick }
}

/// Runs the bodies of the reactions of the diamond and records what they saw.
struct Bodies {
    a: GlobalReactionId,
    b: GlobalReactionId,
    c: GlobalReactionId,
    d: GlobalReactionId,
    p: Port,
    qb: Port,
    qc: Port,
    seen_by_d: Vec<(Option<i32>, Option<i32>)>,
    errors: Vec<RuntimeError>,
}

impl ReactionInvoker<i32> for Bodies {
    fn fire(
        &mut self,
        ctx: &mut LogicalCtx<'_, '_>,
        bank: &mut PortBank<i32>,
        reaction: GlobalReactionId,
    ) {
        if reaction == self.a {
            ctx.set(bank, &self.p, 10).unwrap();
        } else if reaction == self.b {
            let v = ctx.get(bank, &self.p).unwrap().unwrap();
            ctx.set(bank, &self.qb, v + 1).unwrap();
        } else if reaction == self.c {
            let v = ctx.get(bank, &self.p).unwrap().unwrap();
            ctx.set(bank, &self.qc, v + 2).unwrap();
            // C did not declare to read QB, nor to set P
            self.errors.push(ctx.get(bank, &self.qb).unwrap_err());
            self.errors.push(ctx.set(bank, &self.p, 0).unwrap_err());
        } else if reaction == self.d {
            let from_b = ctx.get(bank, &self.qb).unwrap();
            let from_c = ctx.get(bank, &self.qc).unwrap();
            self.seen_by_d.push((from_b, from_c));
        }
    }
}

#[test]
fn diamond_fires_the_join_once_after_both_branches() {
    let Diamond { sched, mut bank, a, b, c, d, p, qb, qc, .. } = diamond();
    let tag = LogicalTag::new(SEC, 0);
    let wave = ReactionWave::new(&sched, tag, &[a]).unwrap();
    let mut bodies = Bodies { a, b, c, d, p, qb, qc, seen_by_d: vec![], errors: vec![] };
    let outcome = wave.consume(&mut bodies, &mut bank);
    assert_eq!(outcome.fired.len(), 4);
    assert_eq!(outcome.fired[0], a);
    assert_eq!(outcome.fired[3], d);
    assert!(outcome.fired[1..3].contains(&b) && outcome.fired[1..3].contains(&c));
    assert!(outcome.unfinished.is_empty());
    assert!(outcome.later.is_empty());
    assert!(!outcome.shutdown_requested);
    assert_eq!(outcome.tag, tag);
    // D ran once, and saw what both B and C wrote
    assert_eq!(bodies.seen_by_d, vec![(Some(11), Some(12))]);
    assert_eq!(
        bodies.errors,
        vec![RuntimeError::UndeclaredRead(c, qb.id), RuntimeError::UndeclaredWrite(c, p.id)]
    );
    // the values do not outlive the wave
    assert_eq!(bank.get(&p), None);
    assert_eq!(bank.get(&qb), None);
    assert_eq!(bank.get(&qc), None);
}

#[test]
fn a_wave_in_which_nothing_is_set_runs_what_was_asked_for() {
    let Diamond { sched, mut bank, a, b, c, d, x, p, qb, qc, .. } = diamond();
    let mut bodies = Bodies { a: x, b, c, d, p, qb, qc, seen_by_d: vec![], errors: vec![] };
    bank.set(&p, 4);
    // A is taken for X here, and X sets nothing: B, C and D do not run
    let wave = ReactionWave::new(&sched, LogicalTag::new(2, 0), &[a]).unwrap();
    let outcome = wave.consume(&mut bodies, &mut bank);
    assert_eq!(outcome.fired, vec![a]);
    assert!(outcome.unfinished.is_empty());
    assert_eq!(bank.get(&p), None);
    // a wave with nothing pending runs nothing and clears the ports
    bank.set(&p, 5);
    let mut started = ReactionWave::new(&sched, LogicalTag::new(3, 0), &[d]).unwrap();
    assert_eq!(started.next_reaction(), Some(d));
    let outcome = started.consume(&mut bodies, &mut bank);
    assert_eq!(outcome.fired, vec![d]);
    assert!(bodies.seen_by_d.is_empty());
    assert_eq!(bank.get(&p), None);
}

#[test]
fn a_wave_orders_its_reactions_by_level() {
    let Diamond { sched, a, b, c, d, x, .. } = diamond();
    let tag = LogicalTag::new(0, 0);
    // asked for from the last to the first, and some of them twice
    let mut wave = ReactionWave::new(&sched, tag, &[d, c, d, b, a, x, a]).unwrap();
    let mut fired = vec![];
    while let Some(r) = wave.next_reaction() {
        assert_eq!(wave.current_reaction(), Some(r));
        fired.push(r);
    }
    assert_eq!(wave.current_reaction(), None);
    assert!(!wave.has_pending());
    assert_eq!(fired.len(), 5);
    let level = |r: &GlobalReactionId| sched.level_of(r).unwrap();
    for pair in fired.windows(2) {
        assert!(level(&pair[0]) < level(&pair[1]));
    }
    let outcome = wave.finish();
    assert_eq!(outcome.fired, fired);
}

#[test]
fn a_reaction_runs_once_even_if_set_twice() {
    let Diamond { sched, mut bank, a, b, c, d, p, .. } = diamond();
    let mut wave = ReactionWave::new(&sched, LogicalTag::new(0, 0), &[a]).unwrap();
    assert_eq!(wave.next_reaction(), Some(a));
    wave.set(&mut bank, &p, 1).unwrap();
    wave.set(&mut bank, &p, 2).unwrap();
    assert_eq!(bank.get(&p), Some(2));
    let mut rest = vec![];
    while let Some(r) = wave.next_reaction() {
        rest.push(r);
    }
    assert_eq!(rest.len(), 3);
    assert!(rest.contains(&b) && rest.contains(&c));
    assert_eq!(rest[2], d);
}

#[test]
fn nothing_is_allowed_outside_a_reaction() {
    let Diamond { sched, mut bank, a, p, tick, .. } = diamond();
    let mut wave = ReactionWave::new(&sched, LogicalTag::new(0, 0), &[a]).unwrap();
    assert_eq!(wave.set(&mut bank, &p, 1), Err(RuntimeError::NoReaction));
    assert_eq!(wave.get(&bank, &p), Err(RuntimeError::NoReaction));
    assert_eq!(wave.schedule(&tick, Offset::Asap), Err(RuntimeError::NoReaction));
    assert_eq!(bank.get(&p), None);
    assert!(wave.has_pending());
}

#[test]
fn a_driven_port_cannot_be_set() {
    let (w, u) = (rid(1, 0), rid(2, 0));
    let mut bank = PortBank::<i32>::new();
    let out = bank.new_port(PortKind::Output, gid(1, 1));
    let inp = bank.new_port(PortKind::Input, gid(2, 1));
    let mut flow = FlowGraph::new();
    flow.register_reaction(w);
    flow.register_reaction(u);
    flow.add_data_dependency(w, out.id, DependencyKind::Affects).unwrap();
    flow.add_data_dependency(u, inp.id, DependencyKind::Use).unwrap();
    flow.add_port_dependency(out.id, inp.id).unwrap();
    // the assembler would have refused this declaration, the graph takes it
    flow.add_data_dependency(w, inp.id, DependencyKind::Affects).unwrap();
    bank.bind(&out, &inp);
    let sched = flow.consume_to_schedulable().unwrap();
    let mut wave = ReactionWave::new(&sched, LogicalTag::new(0, 0), &[w]).unwrap();
    assert_eq!(wave.next_reaction(), Some(w));
    assert_eq!(wave.set(&mut bank, &inp, 3), Err(RuntimeError::DrivenPort(w, inp.id)));
    assert_eq!(bank.get(&inp), None);
    assert_eq!(wave.set(&mut bank, &out, 3), Ok(()));
    // the value is seen through the binding, by the reaction that uses the input
    assert_eq!(wave.next_reaction(), Some(u));
    assert_eq!(wave.get(&bank, &inp), Ok(Some(3)));
    assert_eq!(wave.get(&bank, &out), Err(RuntimeError::UndeclaredRead(u, out.id)));
}

#[test]
fn scheduling_makes_an_event_for_a_later_tag() {
    let Diamond { sched, a, b, tick, .. } = diamond();
    let tag = LogicalTag::new(5 * SEC, 3);
    let mut wave = ReactionWave::new(&sched, tag, &[a, b]).unwrap();
    assert_eq!(wave.get_logical_time(), tag);
    assert_eq!(wave.next_reaction(), Some(a));
    assert_eq!(wave.schedule(&tick, Offset::Asap), Ok(()));
    assert_eq!(wave.schedule(&tick, Offset::After(SEC / 2)), Ok(()));
    assert_eq!(wave.next_reaction(), Some(b));
    // B did not declare to schedule the action
    assert_eq!(
        wave.schedule(&tick, Offset::Asap),
        Err(RuntimeError::UndeclaredSchedule(b, tick.0.id))
    );
    let outcome = wave.finish();
    assert_eq!(outcome.later.len(), 2);
    assert_eq!(outcome.later[0].process_at, LogicalTag::new(6 * SEC, 0));
    assert_eq!(outcome.later[0].todo, vec![a]);
    assert_eq!(outcome.later[1].process_at, LogicalTag::new(6 * SEC + SEC / 2, 0));
    assert_eq!(outcome.later[1].todo, vec![a]);
}

#[test]
fn an_undelayed_action_is_due_at_the_next_microstep() {
    let r = rid(1, 0);
    let now = LogicalAction::new(None, gid(1, 1));
    let idle = LogicalAction::new(None, gid(1, 2));
    let mut flow = FlowGraph::new();
    flow.register_reaction(r);
    flow.add_reactions(vec![r]);
    flow.add_trigger_dependency(r, now.0.id, DependencyKind::Use).unwrap();
    flow.add_trigger_dependency(r, now.0.id, DependencyKind::Affects).unwrap();
    flow.add_trigger_dependency(r, idle.0.id, DependencyKind::Affects).unwrap();
    let sched = flow.consume_to_schedulable().unwrap();
    let mut wave = ReactionWave::new(&sched, LogicalTag::new(9, 4), &[r]).unwrap();
    assert_eq!(wave.next_reaction(), Some(r));
    assert_eq!(wave.schedule(&now, Offset::Asap), Ok(()));
    // an action that triggers nothing makes no event
    assert_eq!(wave.schedule(&idle, Offset::Asap), Ok(()));
    let outcome = wave.finish();
    assert_eq!(outcome.later.len(), 1);
    assert_eq!(outcome.later[0].process_at, LogicalTag::new(9, 5));

    let mut late = ReactionWave::new(&sched, LogicalTag::new(9, u32::MAX), &[r]).unwrap();
    assert_eq!(late.next_reaction(), Some(r));
    assert_eq!(late.schedule(&now, Offset::Asap), Err(RuntimeError::TagOverflow));
    assert_eq!(late.schedule(&now, Offset::After(1)), Ok(()));
    assert_eq!(late.finish().later[0].process_at, LogicalTag::new(10, 0));
}

#[test]
fn unknown_reactions_are_refused() {
    let Diamond { sched, a, d, .. } = diamond();
    let stranger = rid(9, 9);
    let tag = LogicalTag::new(0, 0);
    match ReactionWave::new(&sched, tag, &[a, stranger]) {
        Err(e) => assert_eq!(e, RuntimeError::UnknownReaction(stranger)),
        Ok(_) => panic!("a reaction without a level must be refused"),
    }
    // a wave with too little room refuses the levels beyond it
    let level_of_d = sched.level_of(&d).unwrap();
    match ReactionWave::with_room(&sched, tag, &[d], level_of_d) {
        Err(e) => assert_eq!(e, RuntimeError::UnknownReaction(d)),
        Ok(_) => panic!("a level beyond the room must be refused"),
    }
    let wave = ReactionWave::with_room(&sched, tag, &[d], level_of_d + 1).unwrap();
    assert_eq!(wave.room(), level_of_d + 1);
    assert_eq!(ReactionWave::new(&sched, tag, &[]).unwrap().room(), sched.level_bound());
}

#[test]
fn a_wave_without_room_changes_nothing_on_set() {
    let Diamond { sched, mut bank, a, p, .. } = diamond();
    let level_of_a = sched.level_of(&a).unwrap();
    // room for A, but for none of the reactions downstream of P
    let mut wave =
        ReactionWave::with_room(&sched, LogicalTag::new(0, 0), &[a], level_of_a + 1).unwrap();
    assert_eq!(wave.next_reaction(), Some(a));
    match wave.set(&mut bank, &p, 1) {
        Err(RuntimeError::UnknownReaction(_)) => {}
        other => panic!("expected a refusal, got {:?}", other),
    }
    assert_eq!(bank.get(&p), None);
    assert!(!wave.has_pending());
}

#[test]
fn a_shutdown_request_is_kept_for_the_end_of_the_wave() {
    let Diamond { sched, a, x, .. } = diamond();
    let mut wave = ReactionWave::new(&sched, LogicalTag::new(0, 0), &[a, x]).unwrap();
    wave.next_reaction();
    wave.request_shutdown();
    // the wave goes on
    assert!(wave.has_pending());
    assert!(wave.next_reaction().is_some());
    assert!(wave.finish().shutdown_requested);
}

struct Shutter;

impl ReactionInvoker<i32> for Shutter {
    fn fire(
        &mut self,
        ctx: &mut LogicalCtx<'_, '_>,
        _bank: &mut PortBank<i32>,
        _reaction: GlobalReactionId,
    ) {
        assert_eq!(ctx.get_logical_time(), LogicalTag::new(7, 7));
        ctx.request_shutdown();
    }
}

#[test]
fn the_context_hands_the_request_to_the_wave() {
    let Diamond { sched, mut bank, x, .. } = diamond();
    let wave = ReactionWave::new(&sched, LogicalTag::new(7, 7), &[x]).unwrap();
    let outcome = wave.consume(&mut Shutter, &mut bank);
    assert!(outcome.shutdown_requested);
    assert_eq!(outcome.fired, vec![x]);
}
