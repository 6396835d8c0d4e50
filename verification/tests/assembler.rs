use reactor_core::action::Action;
use reactor_core::assembler::{Assembler, Reactor, RunnableReactor, WorldReactor};
use reactor_core::error::{AssemblyError, DependencyKind};
use reactor_core::ids::{GlobalId, GlobalReactionId, LocalReactionId, ReactorId};
use reactor_core::ports::{BindStatus, Port, PortBank};

fn gid(container: u16, local: u16) -> GlobalId {
    GlobalId::new(ReactorId::new_const(container), LocalReactionId::new_const(local))
}

fn rid(container: u16, local: u16) -> GlobalReactionId {
    GlobalReactionId::new(ReactorId::new_const(container), LocalReactionId::new_const(local))
}

fn local(raw: u16) -> LocalReactionId {
    LocalReactionId::new_const(raw)
}

type Script = fn(&mut Assembler, &mut PortBank<i32>, &Parts) -> Result<(), AssemblyError>;

fn nothing(_: &mut Assembler, _: &mut PortBank<i32>, _: &Parts) -> Result<(), AssemblyError> {
    Ok(())
}

/// The banks of the program, and what the reactors are to declare.
struct Lab {
    ints: PortBank<i32>,
    /// Run by each cell, with its own ports and those of its leaf.
    in_cell: Script,
    /// Run by the world, with its own ports and those of its two cells.
    in_world: Script,
}

impl Lab {
    fn new(in_cell: Script, in_world: Script) -> Self {
        Lab { ints: PortBank::new(), in_cell, in_world }
    }
}

#[derive(Clone, Copy)]
struct Ports {
    input: Port,
    output: Port,
}

/// The ports that a script sees: those of the reactor that runs it, and those
/// of its sub-reactors.
struct Parts {
    own: Ports,
    act: Option<Action>,
    below: Vec<Ports>,
}

/// A reactor without reactions.
struct Leaf {
    ports: Ports,
}

impl Reactor<Lab> for Leaf {
    type State = u8;

    fn reaction_names() -> Vec<&'static str> {
        vec![]
    }

    fn initial_state() -> u8 {
        7
    }

    fn type_label() -> &'static str {
        "Leaf"
    }

    fn assemble(assembler: &mut Assembler, lab: &mut Lab) -> Result<Self, AssemblyError> {
        let input = assembler.new_input_port(&mut lab.ints, "in")?;
        let output = assembler.new_output_port(&mut lab.ints, "out")?;
        Ok(Leaf { ports: Ports { input, output } })
    }
}

/// A reactor with two reactions, two ports, an action and a leaf.
struct Cell {
    ports: Ports,
}

impl Reactor<Lab> for Cell {
    type State = ();

    fn reaction_names() -> Vec<&'static str> {
        vec!["first", "second"]
    }

    fn initial_state() {}

    fn type_label() -> &'static str {
        "Cell"
    }

    fn assemble(assembler: &mut Assembler, lab: &mut Lab) -> Result<Self, AssemblyError> {
        let input = assembler.new_input_port(&mut lab.ints, "in")?;
        let output = assembler.new_output_port(&mut lab.ints, "out")?;
        let act = assembler.new_action("act", Some(5), true)?;
        let leaf = assembler.new_subreactor::<Lab, Leaf>(lab, "leaf")?;
        let own = Ports { input, output };
        let parts = Parts { own, act: Some(act), below: vec![leaf.reactor().ports] };
        let script = lab.in_cell;
        script(assembler, &mut lab.ints, &parts)?;
        Ok(Cell { ports: own })
    }
}

struct World {
    left: RunnableReactor<Cell, ()>,
    right: RunnableReactor<Cell, ()>,
}

impl WorldReactor<Lab> for World {
    fn assemble(assembler: &mut Assembler, lab: &mut Lab) -> Result<Self, AssemblyError> {
        let input = assembler.new_input_port(&mut lab.ints, "in")?;
        let output = assembler.new_output_port(&mut lab.ints, "out")?;
        let left = assembler.new_subreactor::<Lab, Cell>(lab, "left")?;
        let right = assembler.new_subreactor::<Lab, Cell>(lab, "right")?;
        let parts = Parts {
            own: Ports { input, output },
            act: None,
            below: vec![left.reactor().ports, right.reactor().ports],
        };
        let script = lab.in_world;
        script(assembler, &mut lab.ints, &parts)?;
        Ok(World { left, right })
    }
}

fn assemble(in_cell: Script, in_world: Script) -> Result<(), AssemblyError> {
    let mut lab = Lab::new(in_cell, in_world);
    Assembler::make_world::<Lab, World>(&mut lab).map(|_| ())
}

fn expect_binding(r: Result<(), AssemblyError>, cause: &str) {
    match r {
        Err(AssemblyError::InvalidBinding(text, _, _)) => assert_eq!(text, cause),
        other => panic!("expected an invalid binding, got {:?}", other),
    }
}

fn expect_dependency(r: Result<(), AssemblyError>, cause: &str, kind: DependencyKind) {
    match r {
        Err(AssemblyError::InvalidDependency(text, _, k, _)) => {
            assert_eq!(text, cause);
            assert_eq!(k, kind);
        }
        other => panic!("expected an invalid dependency, got {:?}", other),
    }
}

/// What a cell reports is wrapped in the id that the world gave to the cell.
fn in_context(r: Result<(), AssemblyError>) -> Result<(), AssemblyError> {
    match r {
        Err(AssemblyError::InContext(id, inner)) => {
            assert_eq!(id, gid(0, 2));
            Err(*inner)
        }
        other => other,
    }
}

#[test]
fn a_program_assembles_into_a_snapshot() {
    fn in_cell(a: &mut Assembler, _: &mut PortBank<i32>, p: &Parts) -> Result<(), AssemblyError> {
        let act = p.act.as_ref().unwrap();
        a.reaction_uses(local(0), &p.own.input)?;
        a.reaction_affects(local(1), &p.own.output)?;
        a.action_triggers(act, local(1))?;
        a.reaction_schedules(local(0), act)
    }
    fn in_world(a: &mut Assembler, b: &mut PortBank<i32>, p: &Parts) -> Result<(), AssemblyError> {
        a.bind_ports(b, &p.below[0].output, &p.below[1].input)
    }
    let mut lab = Lab::new(in_cell, in_world);
    let (world, sched) = Assembler::make_world::<Lab, World>(&mut lab).unwrap();
    let world_id = world.global_id();
    let left = &world.reactor().left;
    let right = &world.reactor().right;
    // the world is reactor 0; its names are in, out, left, right, :root:
    assert_eq!(world_id, gid(0, 4));
    assert_eq!(left.global_id(), gid(0, 2));
    assert_eq!(right.global_id(), gid(0, 3));
    assert_eq!(*world.state(), ());
    // the left cell is reactor 1 and its leaf reactor 2; the right cell is reactor 3
    let (l_in, l_out) = (left.reactor().ports.input, left.reactor().ports.output);
    let (r_in, r_out) = (right.reactor().ports.input, right.reactor().ports.output);
    assert_eq!((l_in.id, l_out.id), (gid(1, 2), gid(1, 3)));
    assert_eq!((r_in.id, r_out.id), (gid(3, 2), gid(3, 3)));
    let act_left = gid(1, 4);
    assert_eq!(sched.get_allowed_reads(&rid(1, 0)), &[l_in.id]);
    assert_eq!(sched.get_allowed_writes(&rid(1, 1)), &[l_out.id]);
    assert_eq!(sched.get_allowed_schedules(&rid(1, 0)), &[act_left]);
    assert_eq!(sched.get_triggered_reactions(&act_left), &[rid(1, 1)]);
    assert_eq!(sched.get_triggered_reactions(&gid(3, 4)), &[rid(3, 1)]);
    // left.out is bound to right.in, which the first reaction of right uses,
    // and the second reaction of right comes after the first
    assert_eq!(sched.get_downstream_reactions(&l_out.id), &[rid(3, 0), rid(3, 1)]);
    assert_eq!(sched.get_downstream_reactions(&r_in.id), &[rid(3, 0), rid(3, 1)]);
    assert_eq!(sched.get_downstream_reactions(&r_out.id), &[]);
    let level = |r: GlobalReactionId| sched.level_of(&r).unwrap();
    assert!(level(rid(1, 0)) < level(rid(1, 1)));
    assert!(level(rid(1, 1)) < level(rid(3, 0)));
    assert!(level(rid(3, 0)) < level(rid(3, 1)));
    // the ports are bound in the bank as well
    assert_eq!(lab.ints.bind_status(&r_in), BindStatus::BoundDownstream);
    assert_eq!(lab.ints.bind_status(&l_out), BindStatus::BoundUpstream);
    lab.ints.set(&l_out, 5);
    assert_eq!(lab.ints.get(&r_in), Some(5));
    assert_eq!(lab.ints.get(&l_in), None);
}

#[test]
fn sub_reactors_start_in_their_initial_state() {
    fn in_world(a: &mut Assembler, lab_ints: &mut PortBank<i32>, _: &Parts) -> Result<(), AssemblyError> {
        let _ = lab_ints;
        assert_eq!(a.get_reactor_id(), ReactorId::new_const(0));
        assert_eq!(a.name_count(), 4);
        Ok(())
    }
    assert!(assemble(nothing, in_world).is_ok());
    let mut lab = Lab::new(nothing, nothing);
    let mut root = Assembler::new();
    let leaf = root.new_subreactor::<Lab, Leaf>(&mut lab, "leaf").unwrap();
    assert_eq!(*leaf.state(), 7);
    assert_eq!(leaf.global_id(), gid(0, 0));
    assert_eq!(leaf.reactor().ports.input.id, gid(1, 0));
    assert_eq!(leaf.reactor().ports.output.id, gid(1, 1));
    assert!(root.is_in_direct_subreactor(gid(1, 0)));
    assert!(!root.is_in_reactor(gid(1, 0)));
    assert!(root.is_in_reactor(gid(0, 9)));
    assert!(!root.is_in_direct_subreactor(gid(5, 0)));
    assert_eq!(root.existing_id(local(0)), None);
}

#[test]
fn a_name_is_given_once_in_a_reactor() {
    fn in_cell(a: &mut Assembler, b: &mut PortBank<i32>, _: &Parts) -> Result<(), AssemblyError> {
        // the same names in another reactor are fine, the same name twice is not
        a.new_output_port(b, "fresh")?;
        a.new_input_port(b, "fresh").map(|_| ())
    }
    match in_context(assemble(in_cell, nothing)) {
        Err(AssemblyError::DuplicateName(name)) => assert_eq!(name, "fresh"),
        other => panic!("expected a duplicate name, got {:?}", other),
    }
    fn clash_with_reaction(a: &mut Assembler, _: &mut PortBank<i32>, _: &Parts) -> Result<(), AssemblyError> {
        a.new_action("second", None, false).map(|_| ())
    }
    match in_context(assemble(clash_with_reaction, nothing)) {
        Err(AssemblyError::DuplicateName(name)) => assert_eq!(name, "second"),
        other => panic!("expected a duplicate name, got {:?}", other),
    }
    fn clash_of_reactors(a: &mut Assembler, b: &mut PortBank<i32>, _: &Parts) -> Result<(), AssemblyError> {
        let _ = b;
        let mut lab = Lab::new(nothing, nothing);
        a.new_subreactor::<Lab, Leaf>(&mut lab, "left").map(|_| ())
    }
    match assemble(nothing, clash_of_reactors) {
        Err(AssemblyError::DuplicateName(name)) => assert_eq!(name, "left"),
        other => panic!("expected a duplicate name, got {:?}", other),
    }
}

#[test]
fn errors_of_a_sub_reactor_carry_its_id() {
    fn in_cell(a: &mut Assembler, b: &mut PortBank<i32>, _: &Parts) -> Result<(), AssemblyError> {
        a.new_input_port(b, "in").map(|_| ())
    }
    let e = assemble(in_cell, nothing).unwrap_err();
    assert_eq!(e.message(), "While assembling 0/2: Duplicate name 'in'");
}

#[test]
fn a_reaction_uses_inputs_of_its_reactor_and_outputs_of_sub_reactors() {
    fn ok(a: &mut Assembler, _: &mut PortBank<i32>, p: &Parts) -> Result<(), AssemblyError> {
        a.reaction_uses(local(0), &p.own.input)?;
        a.reaction_uses(local(1), &p.below[0].output)
    }
    assert!(assemble(ok, nothing).is_ok());
    fn own_output(a: &mut Assembler, _: &mut PortBank<i32>, p: &Parts) -> Result<(), AssemblyError> {
        a.reaction_uses(local(0), &p.own.output)
    }
    expect_dependency(
        in_context(assemble(own_output, nothing)),
        "Reaction can only use output ports of sub-reactors",
        DependencyKind::Use,
    );
    fn input_below(a: &mut Assembler, _: &mut PortBank<i32>, p: &Parts) -> Result<(), AssemblyError> {
        a.reaction_uses(local(0), &p.below[0].input)
    }
    expect_dependency(
        in_context(assemble(input_below, nothing)),
        "Reaction can only use input ports of this reactor",
        DependencyKind::Use,
    );
    fn no_such_reaction(a: &mut Assembler, _: &mut PortBank<i32>, p: &Parts) -> Result<(), AssemblyError> {
        assert_eq!(a.existing_id(local(1)), Some(rid(1, 1)));
        assert_eq!(a.existing_id(local(2)), None);
        a.reaction_uses(local(2), &p.own.input)
    }
    let e = in_context(assemble(no_such_reaction, nothing)).unwrap_err();
    assert_eq!(
        e.message(),
        "Invalid dependency: Reaction is not declared by this reactor (for dependency '1/2' uses '1/2')"
    );
    // the world has no reactions at all
    fn in_world(a: &mut Assembler, _: &mut PortBank<i32>, p: &Parts) -> Result<(), AssemblyError> {
        a.reaction_uses(local(0), &p.own.input)
    }
    expect_dependency(
        assemble(nothing, in_world),
        "Reaction is not declared by this reactor",
        DependencyKind::Use,
    );
}

#[test]
fn a_reaction_affects_outputs_of_its_reactor_and_inputs_of_sub_reactors() {
    fn ok(a: &mut Assembler, _: &mut PortBank<i32>, p: &Parts) -> Result<(), AssemblyError> {
        a.reaction_affects(local(0), &p.own.output)?;
        a.reaction_affects(local(1), &p.below[0].input)
    }
    assert!(assemble(ok, nothing).is_ok());
    fn own_input(a: &mut Assembler, _: &mut PortBank<i32>, p: &Parts) -> Result<(), AssemblyError> {
        a.reaction_affects(local(0), &p.own.input)
    }
    expect_dependency(
        in_context(assemble(own_input, nothing)),
        "Reaction can only affect input ports of sub-reactors",
        DependencyKind::Affects,
    );
    fn output_below(a: &mut Assembler, _: &mut PortBank<i32>, p: &Parts) -> Result<(), AssemblyError> {
        a.reaction_affects(local(0), &p.below[0].output)
    }
    expect_dependency(
        in_context(assemble(output_below, nothing)),
        "Reaction can only affect output ports of this reactor",
        DependencyKind::Affects,
    );
    fn bound(a: &mut Assembler, b: &mut PortBank<i32>, p: &Parts) -> Result<(), AssemblyError> {
        a.bind_ports(b, &p.own.input, &p.below[0].input)?;
        a.reaction_affects(local(0), &p.below[0].input)
    }
    let e = in_context(assemble(bound, nothing)).unwrap_err();
    assert_eq!(
        e.message(),
        "Invalid dependency: Port is already bound (for dependency '1/0' affects '2/0')"
    );
    // being upstream of a port does not keep a port from being set
    fn upstream(a: &mut Assembler, b: &mut PortBank<i32>, p: &Parts) -> Result<(), AssemblyError> {
        a.bind_ports(b, &p.below[0].output, &p.own.output)?;
        a.reaction_affects(local(0), &p.below[0].input)
    }
    assert!(assemble(upstream, nothing).is_ok());
}

#[test]
fn actions_belong_to_the_reactor_that_declares_their_dependencies() {
    fn foreign(a: &mut Assembler, _: &mut PortBank<i32>, _: &Parts) -> Result<(), AssemblyError> {
        let elsewhere = Action::new(None, gid(9, 0), true);
        a.action_triggers(&elsewhere, local(0))
    }
    expect_dependency(
        in_context(assemble(foreign, nothing)),
        "Action is not declared by this reactor",
        DependencyKind::Use,
    );
    fn unknown(a: &mut Assembler, _: &mut PortBank<i32>, p: &Parts) -> Result<(), AssemblyError> {
        a.reaction_schedules(local(5), p.act.as_ref().unwrap())
    }
    expect_dependency(
        in_context(assemble(unknown, nothing)),
        "Reaction is not declared by this reactor",
        DependencyKind::Affects,
    );
}

#[test]
fn bindings_follow_the_structure_of_the_program() {
    // input of this reactor -> input of a sub-reactor, or output of this reactor
    fn pass_in(a: &mut Assembler, b: &mut PortBank<i32>, p: &Parts) -> Result<(), AssemblyError> {
        a.bind_ports(b, &p.own.input, &p.below[0].input)?;
        a.bind_ports(b, &p.own.input, &p.own.output)
    }
    assert!(assemble(nothing, pass_in).is_ok());
    // output of a sub-reactor -> input of another one, or output of this reactor
    fn pass_on(a: &mut Assembler, b: &mut PortBank<i32>, p: &Parts) -> Result<(), AssemblyError> {
        a.bind_ports(b, &p.below[0].output, &p.below[1].input)?;
        a.bind_ports(b, &p.below[0].output, &p.own.output)
    }
    assert!(assemble(nothing, pass_on).is_ok());

    fn rule_1(a: &mut Assembler, b: &mut PortBank<i32>, p: &Parts) -> Result<(), AssemblyError> {
        a.bind_ports(b, &p.below[0].input, &p.below[1].input)
    }
    expect_binding(
        assemble(nothing, rule_1),
        "1. Upstream port must be an input port of this reactor",
    );
    fn rule_1_i(a: &mut Assembler, b: &mut PortBank<i32>, p: &Parts) -> Result<(), AssemblyError> {
        let second = a.new_input_port(b, "second")?;
        a.bind_ports(b, &p.own.input, &second)
    }
    expect_binding(
        assemble(nothing, rule_1_i),
        "1.i. Downstream port should be declared in a direct sub-reactor",
    );
    fn rule_1_ii(a: &mut Assembler, b: &mut PortBank<i32>, p: &Parts) -> Result<(), AssemblyError> {
        a.bind_ports(b, &p.own.input, &p.below[0].output)
    }
    expect_binding(
        assemble(nothing, rule_1_ii),
        "1.ii. Downstream port should be declared in this reactor",
    );
    fn rule_2(a: &mut Assembler, b: &mut PortBank<i32>, p: &Parts) -> Result<(), AssemblyError> {
        a.bind_ports(b, &p.own.output, &p.below[0].input)
    }
    expect_binding(
        assemble(nothing, rule_2),
        "2. Upstream port must be an output port of a direct sub-reactor",
    );
    fn rule_2_i(a: &mut Assembler, b: &mut PortBank<i32>, p: &Parts) -> Result<(), AssemblyError> {
        a.bind_ports(b, &p.below[0].output, &p.below[0].input)
    }
    expect_binding(
        assemble(nothing, rule_2_i),
        "2.i. Downstream port should be declared in a different direct sub-reactor",
    );
    fn rule_2_i_far(a: &mut Assembler, b: &mut PortBank<i32>, p: &Parts) -> Result<(), AssemblyError> {
        a.bind_ports(b, &p.below[0].output, &p.own.input)
    }
    expect_binding(
        assemble(nothing, rule_2_i_far),
        "2.i. Downstream port should be declared in a different direct sub-reactor",
    );
    fn rule_2_ii(a: &mut Assembler, b: &mut PortBank<i32>, p: &Parts) -> Result<(), AssemblyError> {
        a.bind_ports(b, &p.below[0].output, &p.below[1].output)
    }
    expect_binding(
        assemble(nothing, rule_2_ii),
        "2.ii. Downstream port should be declared in this reactor",
    );
    // the ports of a sub-reactor of a sub-reactor are out of reach
    fn too_deep(a: &mut Assembler, b: &mut PortBank<i32>, p: &Parts) -> Result<(), AssemblyError> {
        let leaf_input = Port { id: gid(2, 0), ..p.below[0].input };
        a.bind_ports(b, &p.own.input, &leaf_input)
    }
    expect_binding(
        assemble(nothing, too_deep),
        "1.i. Downstream port should be declared in a direct sub-reactor",
    );
}

#[test]
fn a_port_is_bound_once() {
    fn twice(a: &mut Assembler, b: &mut PortBank<i32>, p: &Parts) -> Result<(), AssemblyError> {
        a.bind_ports(b, &p.below[0].output, &p.below[1].input)?;
        a.bind_ports(b, &p.below[0].output, &p.below[1].input)
    }
    let e = assemble(nothing, twice).unwrap_err();
    assert_eq!(
        e.message(),
        "Invalid binding: Downstream port is already bound (while binding '1/3' to '3/2')"
    );
    fn two_upstreams(a: &mut Assembler, b: &mut PortBank<i32>, p: &Parts) -> Result<(), AssemblyError> {
        a.bind_ports(b, &p.below[0].output, &p.own.output)?;
        a.bind_ports(b, &p.below[1].output, &p.own.output)
    }
    expect_binding(assemble(nothing, two_upstreams), "Downstream port is already bound");
}

#[test]
fn chains_of_bindings_are_made_from_upstream() {
    // the cell binds its input to the input of its leaf, then the world binds to the
    // input of the cell: the cell's input is upstream of a port already
    fn in_cell(a: &mut Assembler, b: &mut PortBank<i32>, p: &Parts) -> Result<(), AssemblyError> {
        a.bind_ports(b, &p.own.input, &p.below[0].input)
    }
    fn in_world(a: &mut Assembler, b: &mut PortBank<i32>, p: &Parts) -> Result<(), AssemblyError> {
        a.bind_ports(b, &p.own.input, &p.below[0].input)
    }
    expect_binding(assemble(in_cell, in_world), "Downstream port is already bound");
    // from upstream it works: the world's input reaches the inputs of both cells
    fn fan_out(a: &mut Assembler, b: &mut PortBank<i32>, p: &Parts) -> Result<(), AssemblyError> {
        a.bind_ports(b, &p.own.input, &p.below[0].input)?;
        a.bind_ports(b, &p.own.input, &p.below[1].input)
    }
    assert!(assemble(nothing, fan_out).is_ok());
}

#[test]
fn used_and_affected_ports_are_not_bound() {
    fn in_cell(a: &mut Assembler, _: &mut PortBank<i32>, p: &Parts) -> Result<(), AssemblyError> {
        a.reaction_uses(local(0), &p.own.input)?;
        a.reaction_affects(local(1), &p.own.output)
    }
    // upstream is used by a reaction (of the leaf's parent, on the leaf's output)
    fn uses_then_binds(a: &mut Assembler, b: &mut PortBank<i32>, p: &Parts) -> Result<(), AssemblyError> {
        a.reaction_uses(local(0), &p.below[0].output)?;
        a.bind_ports(b, &p.below[0].output, &p.own.output)
    }
    expect_binding(
        in_context(assemble(uses_then_binds, nothing)),
        "Upstream port is used by a reaction",
    );
    // downstream is affected by a reaction
    fn affects_then_binds(a: &mut Assembler, b: &mut PortBank<i32>, p: &Parts) -> Result<(), AssemblyError> {
        a.reaction_affects(local(0), &p.own.output)?;
        a.bind_ports(b, &p.below[0].output, &p.own.output)
    }
    let e = in_context(assemble(affects_then_binds, nothing)).unwrap_err();
    assert_eq!(
        e.message(),
        "Invalid binding: Downstream port is affected by a reaction or another port (while binding '2/1' to '1/3')"
    );
    // the world cannot bind into the input of a cell whose reaction uses it? it can:
    // using the downstream port is what bindings are for
    fn in_world(a: &mut Assembler, b: &mut PortBank<i32>, p: &Parts) -> Result<(), AssemblyError> {
        a.bind_ports(b, &p.below[0].output, &p.below[1].input)
    }
    assert!(assemble(in_cell, in_world).is_ok());
}

#[test]
fn a_cycle_in_the_data_flow_fails_the_assembly() {
    // in each cell the first reaction uses the input and the second affects the output
    fn in_cell(a: &mut Assembler, _: &mut PortBank<i32>, p: &Parts) -> Result<(), AssemblyError> {
        a.reaction_uses(local(0), &p.own.input)?;
        a.reaction_affects(local(1), &p.own.output)
    }
    // left.out -> right.in and right.out -> left.in close the loop
    fn in_world(a: &mut Assembler, b: &mut PortBank<i32>, p: &Parts) -> Result<(), AssemblyError> {
        a.bind_ports(b, &p.below[0].output, &p.below[1].input)?;
        a.bind_ports(b, &p.below[1].output, &p.below[0].input)
    }
    match assemble(in_cell, in_world) {
        Err(AssemblyError::CyclicDependency(msg)) => {
            assert!(msg.starts_with("Dependency cycle containing "));
            let member = &msg["Dependency cycle containing ".len()..];
            let members = ["1/0", "1/1", "1/2", "1/3", "3/0", "3/1", "3/2", "3/3"];
            assert!(members.contains(&member));
        }
        other => panic!("expected a cyclic dependency, got {:?}", other),
    }
    // without the second binding there is no cycle
    fn open(a: &mut Assembler, b: &mut PortBank<i32>, p: &Parts) -> Result<(), AssemblyError> {
        a.bind_ports(b, &p.below[0].output, &p.below[1].input)
    }
    assert!(assemble(in_cell, open).is_ok());
}

#[test]
fn the_assembler_reports_its_room() {
    let mut root = Assembler::new();
    assert_eq!(root.room(), 0xffff_fffe);
    root.is_wf();
    let mut lab = Lab::new(nothing, nothing);
    root.new_subreactor::<Lab, Cell>(&mut lab, "cell").unwrap();
    // the two reactions of the cell and the edge between them
    assert_eq!(root.room(), 0xffff_fffe - 2);
    assert!(root.finish().is_ok());
}

#[test]
fn the_world_is_named_at_the_end() {
    let mut root = Assembler::new();
    let mut lab = Lab::new(nothing, nothing);
    root.new_input_port(&mut lab.ints, "in").unwrap();
    let (world, sched) = root.finish_world(17u8).unwrap();
    assert_eq!(*world.reactor(), 17);
    assert_eq!(world.global_id(), gid(0, 1));
    assert_eq!(sched.level_bound(), 0);
    // the name of the world is taken like any other
    let mut taken = Assembler::new();
    taken.new_action(":root:", None, true).unwrap();
    match taken.finish_world(()) {
        Err(AssemblyError::DuplicateName(name)) => assert_eq!(name, ":root:"),
        other => panic!("expected a duplicate name, got {:?}", other.map(|_| ())),
    }
}

#[test]
fn the_graphs_can_be_dumped() {
    fn in_cell(a: &mut Assembler, _: &mut PortBank<i32>, p: &Parts) -> Result<(), AssemblyError> {
        a.reaction_uses(local(0), &p.own.input)?;
        a.reaction_schedules(local(1), p.act.as_ref().unwrap())
    }
    let mut root = Assembler::new();
    let (dataflow, triggers) = root.graph_dump();
    assert_eq!(dataflow, "digraph {}");
    assert_eq!(triggers, "digraph {}");
    let mut lab = Lab::new(in_cell, nothing);
    root.new_subreactor::<Lab, Cell>(&mut lab, "cell").unwrap();
    let (dataflow, triggers) = root.graph_dump();
    assert_eq!(
        dataflow,
        "digraph {node 0 [ label = \"/cell/0@first\" ]; node 1 [ label = \"/cell/1@second\" ]; \
         node 2 [ label = \"/cell/in\" ]; 0 -> 1; 2 -> 0; }"
    );
    assert_eq!(
        triggers,
        "digraph {node 0 [ label = \"/cell/1@second\" ]; node 1 [ label = \"/cell/act\" ]; 0 -> 1; }"
    );
}

#[test]
fn a_sub_reactor_is_entered_and_left() {
    let mut root = Assembler::new();
    let mut lab = Lab::new(nothing, nothing);
    root.new_input_port(&mut lab.ints, "in").unwrap();
    let (id, saved) = root.enter_subreactor("cell", "Cell", &vec!["first", "second"]).unwrap();
    assert_eq!(id, gid(0, 1));
    // the assembler now assembles the sub-reactor, whose reactions are declared
    assert_eq!(root.get_reactor_id(), ReactorId::new_const(1));
    assert_eq!(root.name_count(), 2);
    assert_eq!(root.existing_id(local(0)), Some(rid(1, 0)));
    assert_eq!(root.existing_id(local(1)), Some(rid(1, 1)));
    assert_eq!(root.existing_id(local(2)), None);
    let port = root.new_output_port(&mut lab.ints, "out").unwrap();
    assert_eq!(port.id, gid(1, 2));
    assert!(root.reaction_affects(local(1), &port).is_ok());
    assert!(root.leave_subreactor(saved));
    // back in the parent, which sees the port of its sub-reactor
    assert_eq!(root.get_reactor_id(), ReactorId::new_const(0));
    assert_eq!(root.name_count(), 2);
    assert!(root.is_in_direct_subreactor(port.id));
    let (dataflow, _) = root.graph_dump();
    assert_eq!(
        dataflow,
        "digraph {node 0 [ label = \"/cell/0@first\" ]; node 1 [ label = \"/cell/1@second\" ]; \
         node 2 [ label = \"/cell/out\" ]; 0 -> 1; 1 -> 2; }"
    );
}

#[test]
fn a_sub_reactor_is_refused_before_it_is_entered() {
    let mut root = Assembler::new();
    let mut lab = Lab::new(nothing, nothing);
    root.new_input_port(&mut lab.ints, "in").unwrap();
    // a name that was given
    match root.enter_subreactor("in", "Cell", &vec!["first"]) {
        Err(AssemblyError::DuplicateName(name)) => assert_eq!(name, "in"),
        other => panic!("expected a duplicate name, got {:?}", other.map(|e| e.0)),
    }
    assert_eq!(root.name_count(), 1);
    // more reactions than a reactor can have
    let many = vec!["r"; 65537];
    match root.enter_subreactor("cell", "Cell", &many) {
        Err(AssemblyError::Overflow(_)) => {}
        other => panic!("expected an overflow, got {:?}", other.map(|e| e.0)),
    }
    assert_eq!(root.name_count(), 1);
    // a name that occurs twice among the reactions
    match root.enter_subreactor("cell", "Cell", &vec!["first", "second", "first"]) {
        Err(AssemblyError::InContext(id, inner)) => {
            assert_eq!(id, gid(0, 1));
            assert_eq!(inner.message(), "Duplicate name 'first'");
        }
        other => panic!("expected an error of the sub-reactor, got {:?}", other.map(|e| e.0)),
    }
    // the sub-reactor has its name, the assembler is still in the parent
    assert_eq!(root.name_count(), 2);
    assert_eq!(root.get_reactor_id(), ReactorId::new_const(0));
    assert!(root.enter_subreactor("other", "Cell", &vec![]).is_ok());
    assert_eq!(root.get_reactor_id(), ReactorId::new_const(1));
}

/// A reactor that gives two of its reactions one name.
struct Twice;

impl Reactor<Lab> for Twice {
    type State = ();

    fn reaction_names() -> Vec<&'static str> {
        vec!["again", "again"]
    }

    fn initial_state() {}

    fn type_label() -> &'static str {
        "Twice"
    }

    fn assemble(_: &mut Assembler, _: &mut Lab) -> Result<Self, AssemblyError> {
        Ok(Twice)
    }
}

#[test]
fn reactions_of_one_reactor_have_different_names() {
    let mut root = Assembler::new();
    let mut lab = Lab::new(nothing, nothing);
    match root.new_subreactor::<Lab, Twice>(&mut lab, "twice") {
        Err(e) => assert_eq!(e.message(), "While assembling 0/0: Duplicate name 'again'"),
        Ok(_) => panic!("the reactor must be refused"),
    }
}
