use reactor_core::ids::{GlobalId, LocalReactionId, ReactorId};
use reactor_core::ports::{
    assert_deps_eq, set_fake_downstream, set_port, BindStatus, Port, PortBank, PortKind,
};

fn new_port(bank: &mut PortBank<i32>, kind: PortKind, local: u16) -> Port {
    let id = GlobalId::new(ReactorId::new_const(0), LocalReactionId::new_const(local));
    bank.new_port(kind, id)
}

fn input_port(bank: &mut PortBank<i32>, local: u16) -> Port {
    new_port(bank, PortKind::Input, local)
}

fn output_port(bank: &mut PortBank<i32>, local: u16) -> Port {
    new_port(bank, PortKind::Output, local)
}

/// Binds two ports, and panics where the downstream port is bound already.
fn bind_ports(bank: &mut PortBank<i32>, upstream: &Port, downstream: &Port) {
    assert!(upstream.slot != downstream.slot);
    assert_eq!(BindStatus::Unbound, bank.bind_status(downstream));
    bank.bind(upstream, downstream);
}

#[test]
fn a_port_is_initially_empty() {
    let mut bank = PortBank::<i32>::new();
    let port = input_port(&mut bank, 0);
    assert_eq!(None, bank.get(&port));
}

#[test]
fn binding_two_ports_should_let_values_be_read() {
    let mut bank = PortBank::<i32>::new();
    let upstream = output_port(&mut bank, 0);
    let downstream = input_port(&mut bank, 1);

    assert_eq!(None, bank.get(&downstream));

    bind_ports(&mut bank, &upstream, &downstream);

    assert_eq!(None, bank.get(&downstream));

    set_port(&mut bank, &upstream, 5);

    assert_eq!(Some(5), bank.get(&downstream));
}

#[test]
fn a_port_can_be_upstream_of_several_ports() {
    let mut bank = PortBank::<i32>::new();
    let upstream = output_port(&mut bank, 0);
    let d1 = input_port(&mut bank, 1);
    let d2 = input_port(&mut bank, 2);

    assert_eq!(None, bank.get(&d1));
    assert_eq!(None, bank.get(&d2));

    bind_ports(&mut bank, &upstream, &d1);
    bind_ports(&mut bank, &upstream, &d2);

    assert_eq!(None, bank.get(&d1));
    assert_eq!(None, bank.get(&d2));

    set_port(&mut bank, &upstream, 5);

    assert_eq!(Some(5), bank.get(&d1));
    assert_eq!(Some(5), bank.get(&d2));

    set_port(&mut bank, &upstream, 6);

    assert_eq!(Some(6), bank.get(&d1));
    assert_eq!(Some(6), bank.get(&d2));
}

#[test]
fn transitive_binding_should_let_values_flow() {
    let mut bank = PortBank::<i32>::new();
    let upstream = output_port(&mut bank, 0);
    let d1 = input_port(&mut bank, 1);
    let d2 = input_port(&mut bank, 2);

    assert_eq!(None, bank.get(&d1));
    assert_eq!(None, bank.get(&d2));

    // upstream -> d1 -> d2
    bind_ports(&mut bank, &upstream, &d1);
    bind_ports(&mut bank, &d1, &d2);

    assert_eq!(None, bank.get(&d1));
    assert_eq!(None, bank.get(&d2));

    set_port(&mut bank, &upstream, 5);

    assert_eq!(Some(5), bank.get(&d1));
    assert_eq!(Some(5), bank.get(&d2));

    set_port(&mut bank, &upstream, 6);

    assert_eq!(Some(6), bank.get(&d1));
    assert_eq!(Some(6), bank.get(&d2));
}

#[test]
fn transitive_binding_in_topo_order_is_ok() {
    let mut bank = PortBank::<i32>::new();
    let upstream = output_port(&mut bank, 0);
    let d1 = input_port(&mut bank, 1);
    let d2 = input_port(&mut bank, 2);
    let b1 = input_port(&mut bank, 3);
    let b2 = input_port(&mut bank, 4);

    assert_eq!(None, bank.get(&d1));
    assert_eq!(None, bank.get(&d2));

    // upstream -> d1 -> d2 -> b1
    //                   d2 -> b2

    bind_ports(&mut bank, &upstream, &d1);

    bind_ports(&mut bank, &d1, &d2);

    bind_ports(&mut bank, &d2, &b1);
    bind_ports(&mut bank, &d2, &b2);

    assert_eq!(None, bank.get(&d1));
    assert_eq!(None, bank.get(&d2));

    set_port(&mut bank, &upstream, 5);

    assert_eq!(Some(5), bank.get(&d1));
    assert_eq!(Some(5), bank.get(&d2));
    assert_eq!(Some(5), bank.get(&b1));
    assert_eq!(Some(5), bank.get(&b2));

    set_port(&mut bank, &upstream, 6);

    assert_eq!(Some(6), bank.get(&d1));
    assert_eq!(Some(6), bank.get(&d2));
    assert_eq!(Some(6), bank.get(&b2));
    assert_eq!(Some(6), bank.get(&b1));
}

#[test]
#[should_panic]
fn transitive_binding_in_non_topo_order_panics() {
    let mut bank = PortBank::<i32>::new();
    let a = output_port(&mut bank, 0);
    let b = input_port(&mut bank, 1);
    let c = input_port(&mut bank, 2);

    bind_ports(&mut bank, &b, &c);
    bind_ports(&mut bank, &a, &b);
}

#[test]
fn dependencies_are_adopted_by_upstream_when_binding() {
    let container = ReactorId::new_const(0);
    let mut bank = PortBank::<i32>::new();
    let up = output_port(&mut bank, 0);
    let down = input_port(&mut bank, 1);

    set_fake_downstream(container, vec![0], &mut bank, &up);
    set_fake_downstream(container, vec![1, 2, 3], &mut bank, &down);

    assert!(assert_deps_eq(container, vec![0], &bank, &up));

    bind_ports(&mut bank, &up, &down);

    assert!(assert_deps_eq(container, vec![0, 1, 2, 3], &bank, &up));
}

#[test]
#[should_panic]
fn repeated_binding_panics() {
    let mut bank = PortBank::<i32>::new();
    let upstream = output_port(&mut bank, 0);
    let downstream = input_port(&mut bank, 1);

    bind_ports(&mut bank, &upstream, &downstream);
    bind_ports(&mut bank, &upstream, &downstream);
}

#[test]
fn a_wave_end_clears_every_port() {
    let mut bank = PortBank::<i32>::new();
    let upstream = output_port(&mut bank, 0);
    let downstream = input_port(&mut bank, 1);
    let aside = output_port(&mut bank, 2);
    bind_ports(&mut bank, &upstream, &downstream);
    set_port(&mut bank, &upstream, 5);
    set_port(&mut bank, &aside, 9);
    assert_eq!(Some(5), bank.get(&downstream));
    assert_eq!(Some(9), bank.get(&aside));

    bank.clear();

    assert_eq!(None, bank.get(&upstream));
    assert_eq!(None, bank.get(&downstream));
    assert_eq!(None, bank.get(&aside));
    // the binding outlives the values
    set_port(&mut bank, &upstream, 7);
    assert_eq!(Some(7), bank.get(&downstream));
    assert_eq!(None, bank.get(&aside));
}

#[test]
fn bind_status_follows_the_bindings() {
    let mut bank = PortBank::<i32>::new();
    let a = output_port(&mut bank, 0);
    let b = input_port(&mut bank, 1);
    let c = input_port(&mut bank, 2);
    assert_eq!(BindStatus::Unbound, bank.bind_status(&a));
    bind_ports(&mut bank, &a, &b);
    assert_eq!(BindStatus::BoundUpstream, bank.bind_status(&a));
    assert_eq!(BindStatus::BoundDownstream, bank.bind_status(&b));
    bind_ports(&mut bank, &b, &c);
    assert_eq!(BindStatus::BoundDownstream, bank.bind_status(&b));
    assert_eq!(BindStatus::BoundDownstream, bank.bind_status(&c));
}

#[test]
fn set_returns_the_recorded_dependencies() {
    let container = ReactorId::new_const(4);
    let mut bank = PortBank::<i32>::new();
    let up = output_port(&mut bank, 0);
    set_fake_downstream(container, vec![2, 1], &mut bank, &up);
    let deps = bank.set(&up, 1);
    assert_eq!(deps.len(), 2);
    assert_eq!(deps[0].0.raw, 4 * 65536 + 2);
    assert_eq!(deps[1].0.raw, 4 * 65536 + 1);
    assert!(!assert_deps_eq(container, vec![1, 2], &bank, &up));
    assert!(!assert_deps_eq(container, vec![2], &bank, &up));
}

#[test]
fn ports_know_their_kind() {
    let mut bank = PortBank::<i32>::new();
    let a = output_port(&mut bank, 0);
    let b = input_port(&mut bank, 1);
    assert!(a.is_output() && !a.is_input());
    assert!(b.is_input() && !b.is_output());
    assert_eq!(a.global_id().raw, 0);
    assert_eq!(b.global_id().raw, 1);
    assert_eq!(a.slot, 0);
    assert_eq!(b.slot, 1);
}
