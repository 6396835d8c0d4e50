use reactor_core::error::{AssemblyError, DependencyKind};
use reactor_core::ids::{
    GlobalId, GlobalReactionId, IdRegistry, LocalReactionId, ReactorDebugInfo, ReactorId, TriggerId,
};

fn gid(container: u16, local: u16) -> GlobalId {
    GlobalId::new(ReactorId::new_const(container), LocalReactionId::new_const(local))
}

#[test]
fn global_id_packs_container_and_local() {
    let id = gid(3, 7);
    assert_eq!(id.raw, 3 * 65536 + 7);
    assert_eq!(id.container(), ReactorId::new_const(3));
    assert_eq!(id.local(), LocalReactionId::new_const(7));
    assert_eq!(id.hash_value(), 3 * 65536 + 7);
}

#[test]
fn global_id_extremes() {
    let id = gid(0xffff, 0xffff);
    assert_eq!(id.raw, u32::MAX);
    assert_eq!(id.container().raw, 0xffff);
    assert_eq!(id.local().raw, 0xffff);
    assert_eq!(GlobalId::first_id().raw, 0);
    assert_eq!(GlobalId::first_id(), gid(0, 0));
}

#[test]
fn next_id_stays_in_the_reactor() {
    let id = gid(2, 0xfffe).next_id();
    assert_eq!(id, gid(2, 0xffff));
    assert_eq!(gid(5, 0).next_id(), gid(5, 1));
}

#[test]
fn id_range_spans_len_ids() {
    let range = gid(1, 10).id_range(5);
    assert_eq!(range.start, gid(1, 10));
    assert_eq!(range.end, gid(1, 15));
    assert!(range.contains(&gid(1, 14)) && !range.contains(&gid(1, 15)));
    let empty = gid(1, 10).id_range(0);
    assert_eq!(empty.start, empty.end);
    assert!(empty.is_empty());
    assert_eq!(gid(1, 0).id_range(0xffff).end, gid(1, 0xffff));
}

#[test]
fn ids_are_ordered_by_container_then_local() {
    assert!(gid(1, 9) < gid(2, 0));
    assert!(gid(1, 1) < gid(1, 2));
    assert!(GlobalReactionId::new(ReactorId::new_const(0), LocalReactionId::new_const(3))
        < GlobalReactionId::new(ReactorId::new_const(0), LocalReactionId::new_const(4)));
}

#[test]
fn index_types_give_their_index() {
    assert_eq!(LocalReactionId::new_const(12).index(), 12);
    assert_eq!(ReactorId::new_const(65535).index(), 65535);
    assert_eq!(LocalReactionId::zero().raw, 0);
    assert_eq!(ReactorId::default().raw, 0);
}

#[test]
fn ids_are_written_as_container_slash_local() {
    assert_eq!(gid(3, 7).display(), "3/7");
    assert_eq!(gid(0, 0).display(), "0/0");
    assert_eq!(gid(65535, 10).display(), "65535/10");
    assert_eq!(gid(120, 4096).display(), "120/4096");
    let r = GlobalReactionId::new(ReactorId::new_const(9), LocalReactionId::new_const(100));
    assert_eq!(r.display(), "9/100");
}

#[test]
fn trigger_ids_hash_to_their_packed_form() {
    assert_eq!(TriggerId::new(gid(1, 2)).hash_value(), 65536 + 2);
    assert_eq!(TriggerId::startup().hash_value(), u32::MAX);
    assert_eq!(TriggerId::shutdown().hash_value(), u32::MAX);
    assert!(TriggerId::startup() != TriggerId::shutdown());
    assert!(TriggerId::new(gid(1, 2)) == TriggerId::new(gid(1, 2)));
}

#[test]
fn debug_info_builds_paths() {
    let root = ReactorDebugInfo::root("World");
    assert_eq!(root.display(), "/");
    assert_eq!(root.inst_name, "/");
    let child = root.derive("Producer", "producer");
    assert_eq!(child.display(), "/producer/");
    assert_eq!(child.inst_name, "producer");
    assert_eq!(child.reactor_type, "Producer");
    let grandchild = child.derive("Relay", "relay");
    assert_eq!(grandchild.display(), "/producer/relay/");
    assert_eq!(grandchild.duplicate().display(), "/producer/relay/");
}

#[test]
fn registry_formats_components_and_reactions() {
    let mut registry = IdRegistry::new();
    let root = ReactorDebugInfo::root("World");
    registry.record_reactor(&root);
    registry.record_reactor(&root.derive("Producer", "producer"));
    assert_eq!(registry.reactor_count(), 2);
    assert_eq!(registry.get_debug_info(ReactorId::new_const(1)).display(), "/producer/");
    assert_eq!(registry.get_debug_label(gid(1, 0)), None);
    assert_eq!(registry.fmt_component_path(gid(1, 3)), "/producer/3");
    let reaction = GlobalReactionId::new(ReactorId::new_const(1), LocalReactionId::new_const(0));
    assert_eq!(registry.fmt_reaction(reaction), "/producer/0");
    registry.record(gid(1, 0), String::from("emit"));
    assert_eq!(registry.get_debug_label(gid(1, 0)), Some("emit"));
    assert_eq!(registry.fmt_reaction(reaction), "/producer/0@emit");
    assert_eq!(registry.fmt_component_path(gid(0, 12)), "/12");
}

#[test]
fn assembly_errors_describe_themselves() {
    let binding = AssemblyError::InvalidBinding("some cause", gid(0, 1), gid(2, 3));
    assert_eq!(binding.message(), "Invalid binding: some cause (while binding '0/1' to '2/3')");
    let uses = AssemblyError::InvalidDependency("why", gid(1, 0), DependencyKind::Use, gid(1, 4));
    assert_eq!(uses.message(), "Invalid dependency: why (for dependency '1/0' uses '1/4')");
    let affects =
        AssemblyError::InvalidDependency("why", gid(1, 0), DependencyKind::Affects, gid(1, 4));
    assert_eq!(affects.message(), "Invalid dependency: why (for dependency '1/0' affects '1/4')");
    assert_eq!(AssemblyError::DuplicateName("out").message(), "Duplicate name 'out'");
    assert_eq!(
        AssemblyError::CyclicDependency(String::from("Dependency cycle containing 0/1")).message(),
        "Cyclic dependency: Dependency cycle containing 0/1"
    );
    let nested = AssemblyError::InContext(
        gid(0, 5),
        Box::new(AssemblyError::InContext(gid(1, 2), Box::new(AssemblyError::DuplicateName("x")))),
    );
    assert_eq!(nested.message(), "While assembling 0/5: While assembling 1/2: Duplicate name 'x'");
    assert_eq!(
        AssemblyError::Overflow("while allocating next id").message(),
        "Overflow while allocating next id"
    );
    assert_eq!(DependencyKind::Use.verb(), "uses");
    assert_eq!(DependencyKind::Affects.verb(), "affects");
}

#[test]
fn ids_can_be_stepped_through() {
    assert_eq!(GlobalId::steps_between(&gid(1, 2), &gid(1, 7)), Some(5));
    assert_eq!(GlobalId::steps_between(&gid(1, 2), &gid(1, 2)), Some(0));
    assert_eq!(GlobalId::steps_between(&gid(1, 7), &gid(1, 2)), None);
    assert_eq!(GlobalId::steps_between(&gid(0, 0xffff), &gid(1, 0)), Some(1));
    assert_eq!(GlobalId::forward_checked(gid(1, 2), 5), Some(gid(1, 7)));
    assert_eq!(GlobalId::forward_checked(gid(0xffff, 0xffff), 1), None);
    assert_eq!(GlobalId::forward_checked(gid(0xffff, 0xfffe), 1), Some(gid(0xffff, 0xffff)));
    assert_eq!(GlobalId::forward_checked(gid(0, 0), usize::MAX), None);
    assert_eq!(GlobalId::backward_checked(gid(1, 7), 5), Some(gid(1, 2)));
    assert_eq!(GlobalId::backward_checked(gid(0, 4), 5), None);
    assert_eq!(GlobalId::backward_checked(gid(0, 4), 4), Some(gid(0, 0)));
    assert_eq!(GlobalId::backward_checked(gid(9, 9), usize::MAX), None);
}

#[test]
fn components_are_written_with_their_label() {
    let mut registry = IdRegistry::new();
    let root = ReactorDebugInfo::root("World");
    registry.record_reactor(&root);
    registry.record_reactor(&root.derive("Producer", "producer"));
    assert_eq!(registry.fmt_component(gid(1, 3)), "/producer/3");
    registry.record(gid(1, 3), String::from("out"));
    assert_eq!(registry.fmt_component(gid(1, 3)), "/producer/out");
    assert_eq!(registry.fmt_component(gid(0, 3)), "/3");
    // a second label takes the place of the first
    registry.record(gid(1, 3), String::from("output"));
    assert_eq!(registry.fmt_component(gid(1, 3)), "/producer/output");
}
