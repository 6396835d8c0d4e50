//! The two dependency graphs of a reactor program, and the snapshot of
//! them that the scheduler runs on.
//!
//! The data-flow graph links reactions and ports and must be acyclic. The
//! trigger graph links reactions and actions and may have cycles, because
//! the delay of an action breaks them.

use crate::error::{AssemblyError, DependencyKind};
use crate::graph::{
    has_cycle, has_id, ids_unique, index_of, is_topological_order, lemma_index_of,
    edges_in_range, is_path, lemma_neighbors_in_range, lemma_path_follows_order,
    dot_text, lemma_with_node, neighbors, on_cycle, reachable, with_node, cycle_message, Direction,
    GraphWrapper, GRAPH_LIMIT,
};
use crate::ids::{GlobalId, GlobalReactionId, IdRegistry};
use std::collections::HashMap;
use std::collections::HashSet;
use vstd::prelude::*;

verus! {

/// A node of the data-flow graph.
#[derive(Debug, Clone, Copy, PartialEq, Eq, Structural)]
pub enum FlowGraphElement {
    ReactionElt(GlobalReactionId),
    PortElt(GlobalId),
}

/// The weight of the node of a reaction.
pub open spec fn reaction_weight(reaction: GlobalReactionId) -> (bool, u32) {
    (true, reaction.0.raw)
}

/// The weight of the node of a port or of an action.
pub open spec fn component_weight(id: GlobalId) -> (bool, u32) {
    (false, id.raw)
}

impl FlowGraphElement {
    pub open spec fn spec_global_id(&self) -> GlobalId {
        match self {
            FlowGraphElement::PortElt(id) => *id,
            FlowGraphElement::ReactionElt(id) => id.0,
        }
    }

    #[verifier::when_used_as_spec(spec_global_id)]
    pub fn global_id(&self) -> (id: GlobalId)
        ensures
            id == self.spec_global_id(),
    {
        match self {
            FlowGraphElement::PortElt(id) => *id,
            FlowGraphElement::ReactionElt(id) => id.0,
        }
    }

    pub open spec fn spec_weight(&self) -> (bool, u32) {
        match self {
            FlowGraphElement::PortElt(id) => component_weight(*id),
            FlowGraphElement::ReactionElt(id) => reaction_weight(*id),
        }
    }

    /// The weight of the node that stands for the element.
    #[verifier::when_used_as_spec(spec_weight)]
    pub fn weight(&self) -> (w: (bool, u32))
        ensures
            w == self.spec_weight(),
    {
        match self {
            FlowGraphElement::PortElt(id) => (false, id.raw),
            FlowGraphElement::ReactionElt(id) => (true, id.0.raw),
        }
    }

    /// The element that a node of the given weight stands for.
    pub fn from_weight(w: (bool, u32)) -> (e: Self)
        ensures
            e.spec_weight() == w,
    {
        if w.0 {
            FlowGraphElement::ReactionElt(GlobalReactionId(GlobalId { raw: w.1 }))
        } else {
            FlowGraphElement::PortElt(GlobalId { raw: w.1 })
        }
    }
}

/// A node of the trigger graph.
#[derive(Debug, Clone, Copy, PartialEq, Eq, Structural)]
pub enum TriggerGraphElement {
    ReactionElt(GlobalReactionId),
    ActionElt(GlobalId),
}

impl TriggerGraphElement {
    pub open spec fn spec_global_id(&self) -> GlobalId {
        match self {
            TriggerGraphElement::ActionElt(id) => *id,
            TriggerGraphElement::ReactionElt(id) => id.0,
        }
    }

    #[verifier::when_used_as_spec(spec_global_id)]
    pub fn global_id(&self) -> (id: GlobalId)
        ensures
            id == self.spec_global_id(),
    {
        match self {
            TriggerGraphElement::ActionElt(id) => *id,
            TriggerGraphElement::ReactionElt(id) => id.0,
        }
    }

    pub open spec fn spec_weight(&self) -> (bool, u32) {
        match self {
            TriggerGraphElement::ActionElt(id) => component_weight(*id),
            TriggerGraphElement::ReactionElt(id) => reaction_weight(*id),
        }
    }

    /// The weight of the node that stands for the element.
    #[verifier::when_used_as_spec(spec_weight)]
    pub fn weight(&self) -> (w: (bool, u32))
        ensures
            w == self.spec_weight(),
    {
        match self {
            TriggerGraphElement::ActionElt(id) => (false, id.raw),
            TriggerGraphElement::ReactionElt(id) => (true, id.0.raw),
        }
    }

    /// The element that a node of the given weight stands for.
    pub fn from_weight(w: (bool, u32)) -> (e: Self)
        ensures
            e.spec_weight() == w,
    {
        if w.0 {
            TriggerGraphElement::ReactionElt(GlobalReactionId(GlobalId { raw: w.1 }))
        } else {
            TriggerGraphElement::ActionElt(GlobalId { raw: w.1 })
        }
    }
}

/// The cause given when a port that already has something upstream is
/// bound again.
pub open spec fn cause_downstream_affected() -> Seq<char> {
    "Downstream port is affected by a reaction or another port"@
}

/// The nodes after each of the reactions `rs` was looked up in turn.
pub open spec fn with_reactions(nodes: Seq<(bool, u32)>, rs: Seq<GlobalReactionId>) -> Seq<
    (bool, u32),
>
    decreases rs.len(),
{
    if rs.len() == 0 {
        nodes
    } else {
        with_node(with_reactions(nodes, rs.drop_last()), reaction_weight(rs.last()))
    }
}

/// The edges of priority between the reactions `rs` of one reactor: one
/// from each reaction to the reaction declared after it.
pub open spec fn priority_edges(nodes: Seq<(bool, u32)>, rs: Seq<GlobalReactionId>) -> Seq<
    (usize, usize),
> {
    Seq::new(
        if rs.len() == 0 {
            0
        } else {
            (rs.len() - 1) as nat
        },
        |k: int| (index_of(nodes, rs[k].0.raw), index_of(nodes, rs[k + 1].0.raw)),
    )
}

/// The data-flow graph and the trigger graph of a program under assembly.
pub struct FlowGraph {
    dataflow: GraphWrapper,
    triggers: GraphWrapper,
    closed_reactions: HashSet<u32>,
}

impl Default for FlowGraph {
    fn default() -> (g: Self)
        ensures
            g.wf(),
            g.dataflow_nodes() == Seq::<(bool, u32)>::empty(),
            g.dataflow_edges() == Seq::<(usize, usize)>::empty(),
            g.trigger_nodes() == Seq::<(bool, u32)>::empty(),
            g.trigger_edges() == Seq::<(usize, usize)>::empty(),
            g.registered() == Set::<u32>::empty(),
    {
        FlowGraph::new()
    }
}

impl FlowGraph {
    /// The weights of the nodes of the data-flow graph, by node index.
    pub closed spec fn dataflow_nodes(&self) -> Seq<(bool, u32)> {
        self.dataflow.nodes()
    }

    /// The edges of the data-flow graph, oldest first.
    pub closed spec fn dataflow_edges(&self) -> Seq<(usize, usize)> {
        self.dataflow.edges()
    }

    /// The weights of the nodes of the trigger graph, by node index.
    pub closed spec fn trigger_nodes(&self) -> Seq<(bool, u32)> {
        self.triggers.nodes()
    }

    /// The edges of the trigger graph, oldest first.
    pub closed spec fn trigger_edges(&self) -> Seq<(usize, usize)> {
        self.triggers.edges()
    }

    /// The packed ids of the reactions that were registered.
    pub closed spec fn registered(&self) -> Set<u32> {
        self.closed_reactions@
    }

    /// The invariant of the two graphs.
    pub closed spec fn wf(&self) -> bool {
        &&& self.dataflow.wf()
        &&& self.triggers.wf()
    }

    /// What the invariant says of the nodes and edges.
    pub proof fn lemma_wf(&self)
        requires
            self.wf(),
        ensures
            ids_unique(self.dataflow_nodes()),
            ids_unique(self.trigger_nodes()),
            crate::graph::edges_in_range(self.dataflow_edges(), self.dataflow_nodes().len()),
            crate::graph::edges_in_range(self.trigger_edges(), self.trigger_nodes().len()),
            self.dataflow_nodes().len() <= GRAPH_LIMIT,
            self.dataflow_edges().len() <= GRAPH_LIMIT,
            self.trigger_nodes().len() <= GRAPH_LIMIT,
            self.trigger_edges().len() <= GRAPH_LIMIT,
    {
    }

    /// Two empty graphs.
    pub fn new() -> (g: Self)
        ensures
            g.wf(),
            g.dataflow_nodes() == Seq::<(bool, u32)>::empty(),
            g.dataflow_edges() == Seq::<(usize, usize)>::empty(),
            g.trigger_nodes() == Seq::<(bool, u32)>::empty(),
            g.trigger_edges() == Seq::<(usize, usize)>::empty(),
            g.registered() == Set::<u32>::empty(),
    {
        FlowGraph {
            dataflow: GraphWrapper::new(),
            triggers: GraphWrapper::new(),
            closed_reactions: HashSet::new(),
        }
    }

    /// How many nodes and edges the data-flow graph can still take.
    pub fn dataflow_room(&self) -> (room: usize)
        requires
            self.wf(),
        ensures
            room == vstd::math::min(
                GRAPH_LIMIT - self.dataflow_nodes().len(),
                GRAPH_LIMIT - self.dataflow_edges().len(),
            ),
    {
        let a = GRAPH_LIMIT - self.dataflow.node_count();
        let b = GRAPH_LIMIT - self.dataflow.edge_count();
        if a <= b {
            a
        } else {
            b
        }
    }

    /// How many nodes and edges the trigger graph can still take.
    pub fn trigger_room(&self) -> (room: usize)
        requires
            self.wf(),
        ensures
            room == vstd::math::min(
                GRAPH_LIMIT - self.trigger_nodes().len(),
                GRAPH_LIMIT - self.trigger_edges().len(),
            ),
    {
        let a = GRAPH_LIMIT - self.triggers.node_count();
        let b = GRAPH_LIMIT - self.triggers.edge_count();
        if a <= b {
            a
        } else {
            b
        }
    }

    /// Records that the port `downstream` is bound to the port `upstream`.
    /// Both ports become nodes. The binding is refused, and no edge added,
    /// when something already leads into `downstream`: a reaction that
    /// affects it, or another port.
    pub fn add_port_dependency(&mut self, upstream: GlobalId, downstream: GlobalId) -> (r: Result<
        (),
        AssemblyError,
    >)
        requires
            old(self).wf(),
            old(self).dataflow_nodes().len() + 2 <= GRAPH_LIMIT,
            old(self).dataflow_edges().len() < GRAPH_LIMIT,
        ensures
            final(self).wf(),
            final(self).trigger_nodes() == old(self).trigger_nodes(),
            final(self).trigger_edges() == old(self).trigger_edges(),
            final(self).registered() == old(self).registered(),
            final(self).dataflow_nodes() == with_node(
                with_node(old(self).dataflow_nodes(), component_weight(upstream)),
                component_weight(downstream),
            ),
            r is Err <==> neighbors(
                old(self).dataflow_edges(),
                index_of(final(self).dataflow_nodes(), downstream.raw),
                false,
            ).len() > 0,
            r is Ok ==> final(self).dataflow_edges() == old(self).dataflow_edges().push(
                (
                    index_of(final(self).dataflow_nodes(), upstream.raw),
                    index_of(final(self).dataflow_nodes(), downstream.raw),
                ),
            ),
            r matches Err(e) ==> final(self).dataflow_edges() == old(self).dataflow_edges() && (
            e matches AssemblyError::InvalidBinding(cause, up, down) && cause@
                == cause_downstream_affected() && up == upstream && down == downstream),
    {
        proof {
            lemma_with_node(self.dataflow.nodes(), component_weight(upstream));
            lemma_with_node(
                with_node(self.dataflow.nodes(), component_weight(upstream)),
                component_weight(downstream),
            );
        }
        let up_id = self.dataflow.get_node((false, upstream.raw));
        let down_id = self.dataflow.get_node((false, downstream.raw));
        let incoming = self.dataflow.neighbor_indices(down_id, Direction::Incoming);
        if incoming.len() > 0 {
            Err(
                AssemblyError::InvalidBinding(
                    "Downstream port is affected by a reaction or another port",
                    upstream,
                    downstream,
                ),
            )
        } else {
            self.dataflow.add_edge(up_id, down_id);
            Ok(())
        }
    }

    /// Records that a reaction uses or affects a port.
    pub fn add_data_dependency(
        &mut self,
        reaction: GlobalReactionId,
        data: GlobalId,
        kind: DependencyKind,
    ) -> (r: Result<(), AssemblyError>)
        requires
            old(self).wf(),
            old(self).dataflow_nodes().len() + 2 <= GRAPH_LIMIT,
            old(self).dataflow_edges().len() < GRAPH_LIMIT,
        ensures
            final(self).wf(),
            r is Ok,
            final(self).trigger_nodes() == old(self).trigger_nodes(),
            final(self).trigger_edges() == old(self).trigger_edges(),
            final(self).registered() == old(self).registered(),
            final(self).dataflow_nodes() == with_node(
                with_node(old(self).dataflow_nodes(), reaction_weight(reaction)),
                component_weight(data),
            ),
            final(self).dataflow_edges() == old(self).dataflow_edges().push(
                crate::graph::dependency_edge(
                    final(self).dataflow_nodes(),
                    reaction.0.raw,
                    data.raw,
                    kind,
                ),
            ),
    {
        self.dataflow.add_dependency((true, reaction.0.raw), (false, data.raw), kind)
    }

    /// Records that a reaction schedules an action (`Affects`), or that an
    /// action triggers a reaction (`Use`).
    pub fn add_trigger_dependency(
        &mut self,
        reaction: GlobalReactionId,
        action: GlobalId,
        kind: DependencyKind,
    ) -> (r: Result<(), AssemblyError>)
        requires
            old(self).wf(),
            old(self).trigger_nodes().len() + 2 <= GRAPH_LIMIT,
            old(self).trigger_edges().len() < GRAPH_LIMIT,
        ensures
            final(self).wf(),
            r is Ok,
            final(self).dataflow_nodes() == old(self).dataflow_nodes(),
            final(self).dataflow_edges() == old(self).dataflow_edges(),
            final(self).registered() == old(self).registered(),
            final(self).trigger_nodes() == with_node(
                with_node(old(self).trigger_nodes(), reaction_weight(reaction)),
                component_weight(action),
            ),
            final(self).trigger_edges() == old(self).trigger_edges().push(
                crate::graph::dependency_edge(
                    final(self).trigger_nodes(),
                    reaction.0.raw,
                    action.raw,
                    kind,
                ),
            ),
    {
        self.triggers.add_dependency((true, reaction.0.raw), (false, action.raw), kind)
    }

    /// Declares the reactions of one reactor, in the order of their
    /// declaration. Each becomes a node, and each gets an edge to the
    /// reaction declared after it: of two reactions of one reactor that
    /// are due at the same tag, the one declared first runs first.
    pub fn add_reactions(&mut self, reactions: Vec<GlobalReactionId>)
        requires
            old(self).wf(),
            old(self).dataflow_nodes().len() + reactions@.len() <= GRAPH_LIMIT,
            old(self).dataflow_edges().len() + reactions@.len() <= GRAPH_LIMIT,
        ensures
            final(self).wf(),
            final(self).trigger_nodes() == old(self).trigger_nodes(),
            final(self).trigger_edges() == old(self).trigger_edges(),
            final(self).registered() == old(self).registered(),
            final(self).dataflow_nodes() == with_reactions(old(self).dataflow_nodes(), reactions@),
            final(self).dataflow_edges() == old(self).dataflow_edges() + priority_edges(
                final(self).dataflow_nodes(),
                reactions@,
            ),
    {
        let ghost nodes0 = self.dataflow.nodes();
        let ghost edges0 = self.dataflow.edges();
        let mut k: usize = 0;
        let mut prev: usize = 0;
        assert(self.dataflow.edges() =~= edges0 + priority_edges(
            self.dataflow.nodes(),
            reactions@.take(0),
        ));
        while k < reactions.len()
            invariant
                self.dataflow.wf(),
                self.triggers.wf(),
                self.triggers == old(self).triggers,
                self.closed_reactions == old(self).closed_reactions,
                k <= reactions@.len(),
                nodes0.len() + reactions@.len() <= GRAPH_LIMIT,
                edges0.len() + reactions@.len() <= GRAPH_LIMIT,
                self.dataflow.nodes() == with_reactions(nodes0, reactions@.take(k as int)),
                self.dataflow.nodes().len() <= nodes0.len() + k,
                self.dataflow.edges() == edges0 + priority_edges(
                    self.dataflow.nodes(),
                    reactions@.take(k as int),
                ),
                forall|j: int| 0 <= j < k ==> has_id(self.dataflow.nodes(), #[trigger] reactions@[j].0.raw),
                k > 0 ==> prev == index_of(self.dataflow.nodes(), reactions@[k - 1].0.raw) && prev
                    < self.dataflow.nodes().len(),
            decreases reactions@.len() - k,
        {
            let ghost before = self.dataflow.nodes();
            let r = reactions[k];
            proof {
                lemma_with_node(before, reaction_weight(r));
                assert(reactions@.take(k + 1).drop_last() =~= reactions@.take(k as int));
                assert(reactions@.take(k + 1).last() == r);
            }
            let cur = self.dataflow.get_node((true, r.0.raw));
            let ghost after = self.dataflow.nodes();
            proof {
                assert forall|j: int| 0 <= j < k + 1 implies has_id(
                    after,
                    #[trigger] reactions@[j].0.raw,
                ) by {
                    if j < k {
                        assert(has_id(before, reactions@[j].0.raw));
                    }
                }
                assert(priority_edges(after, reactions@.take(k as int)) =~= priority_edges(
                    before,
                    reactions@.take(k as int),
                )) by {
                    assert forall|j: int| 0 <= j < k implies index_of(
                        after,
                        (#[trigger] reactions@[j]).0.raw,
                    ) == index_of(before, reactions@[j].0.raw) by {
                        assert(has_id(before, reactions@[j].0.raw));
                    }
                }
            }
            if k > 0 {
                proof {
                    assert(has_id(before, reactions@[k - 1].0.raw));
                }
                self.dataflow.add_edge(prev, cur);
                proof {
                    assert(self.dataflow.edges() =~= edges0 + priority_edges(
                        after,
                        reactions@.take(k + 1),
                    ));
                }
            } else {
                proof {
                    assert(self.dataflow.edges() =~= edges0 + priority_edges(
                        after,
                        reactions@.take(k + 1),
                    ));
                }
            }
            prev = cur;
            k += 1;
        }
        assert(reactions@.take(k as int) =~= reactions@);
    }

    /// Every reaction that the two graphs hold was registered.
    pub open spec fn reactions_registered(&self) -> bool {
        &&& all_registered(self.dataflow_nodes(), self.registered())
        &&& all_registered(self.trigger_nodes(), self.registered())
    }

    /// Appends to `output` the ports among the neighbours of node `idx` of
    /// the data-flow graph in one direction.
    pub fn acc_port_dependencies(&self, idx: usize, output: &mut Vec<GlobalId>, direction: Direction)
        requires
            self.wf(),
            idx < self.dataflow_nodes().len(),
        ensures
            final(output)@ == old(output)@ + component_neighbors(
                self.dataflow_nodes(),
                self.dataflow_edges(),
                idx,
                direction == Direction::Outgoing,
            ),
    {
        acc_component_neighbors(&self.dataflow, idx, output, direction)
    }

    /// Sorts the data-flow graph and takes the snapshot that the scheduler
    /// runs on. A cycle in the data-flow graph is an error, and the only
    /// one.
    pub fn consume_to_schedulable(self) -> (r: Result<Schedulable, AssemblyError>)
        requires
            self.wf(),
            self.reactions_registered(),
        ensures
            r is Ok <==> !has_cycle(self.dataflow_edges()),
            r matches Ok(s) ==> exists|order: Seq<usize>|
                is_topological_order(order, self.dataflow_nodes().len(), self.dataflow_edges())
                    && #[trigger] s.describes(self, order),
            r matches Err(e) ==> exists|n: usize|
                n < self.dataflow_nodes().len() && #[trigger] on_cycle(self.dataflow_edges(), n)
                    && (e matches AssemblyError::CyclicDependency(msg) && msg@ == cycle_message(
                    self.dataflow_nodes()[n as int].1,
                )),
    {
        match self.dataflow.toposorted() {
            Err(e) => {
                proof {
                    let n = choose|n: usize|
                        n < self.dataflow.nodes().len() && #[trigger] on_cycle(
                            self.dataflow.edges(),
                            n,
                        ) && (e matches AssemblyError::CyclicDependency(msg) && msg@
                            == cycle_message(self.dataflow.nodes()[n as int].1));
                    assert(on_cycle(self.dataflow_edges(), n));
                }
                Err(e)
            },
            Ok(sorted) => {
                let ghost order = sorted@;
                assert(is_topological_order(
                    order,
                    self.dataflow_nodes().len(),
                    self.dataflow_edges(),
                ));
                let s = self.build_schedulable(sorted);
                assert(s.describes(self, order));
                let r = Ok(s);
                assert(r matches Ok(s) && is_topological_order(
                    order,
                    self.dataflow_nodes().len(),
                    self.dataflow_edges(),
                ) && s.describes(self, order));
                r
            },
        }
    }

    /// Takes the snapshot of the two graphs for a given topological order
    /// of the data-flow graph.
    pub fn build_schedulable(self, order: Vec<usize>) -> (s: Schedulable)
        requires
            self.wf(),
            self.reactions_registered(),
            is_topological_order(order@, self.dataflow_nodes().len(), self.dataflow_edges()),
        ensures
            s.describes(self, order@),
    {
        let reaction_levels = build_levels(&self.dataflow, &order);
        let reactions_by_port_id = build_downstream(&self.dataflow, &order);
        let reaction_uses_port = build_component_lists(&self.dataflow, Direction::Incoming);
        let reaction_affects_port = build_component_lists(&self.dataflow, Direction::Outgoing);
        let reaction_schedules_action = build_component_lists(&self.triggers, Direction::Outgoing);
        let action_triggers_reaction = build_triggered(&self.triggers);
        let level_bound = self.dataflow.node_count();
        let no_reactions: Vec<GlobalReactionId> = Vec::new();
        let no_components: Vec<GlobalId> = Vec::new();
        proof {
            lemma_levels_ordered(
                reaction_levels@,
                reactions_by_port_id@,
                reaction_affects_port@,
                self.dataflow.nodes(),
                self.dataflow.edges(),
                order@,
            );
            lemma_levels_positions(reaction_levels@, self.dataflow.nodes(), order@);
            let g = Schedulable {
                reactions_by_port_id,
                reaction_uses_port,
                reaction_affects_port,
                reaction_schedules_action,
                action_triggers_reaction,
                reaction_levels,
                level_bound,
                no_reactions,
                no_components,
            };
            assert forall|p: GlobalId|
                sorted_by_level(#[trigger] g.downstream_reactions(p), g.level_fn()) by {
                let list = list_or_empty(reactions_by_port_id@, p.raw);
                let level = |r: GlobalReactionId| level_in(reaction_levels@, r);
                assert(sorted_by_level(list, level));
                assert forall|k: int| 0 <= k < list.len() implies (#[trigger] (g.level_fn())(
                    list[k],
                )) is Some by {
                    assert(level(list[k]) is Some);
                }
                assert forall|j: int, k: int| 0 <= j < k < list.len() implies (#[trigger] (
                g.level_fn())(list[j]))->0 < (#[trigger] (g.level_fn())(list[k]))->0 by {
                    assert(level(list[j])->0 < level(list[k])->0);
                }
            }
            assert(g.ordered());
        }
        let s = Schedulable {
            reactions_by_port_id,
            reaction_uses_port,
            reaction_affects_port,
            reaction_schedules_action,
            action_triggers_reaction,
            reaction_levels,
            level_bound,
            no_reactions,
            no_components,
        };
        s
    }

    /// Whether the port is bound to an upstream port: whether an edge
    /// leads from a port to it.
    pub open spec fn spec_has_upstream_port(&self, port: GlobalId) -> bool {
        has_id(self.dataflow_nodes(), port.raw) && component_neighbors(
            self.dataflow_nodes(),
            self.dataflow_edges(),
            index_of(self.dataflow_nodes(), port.raw),
            false,
        ).len() > 0
    }

    /// Whether the port is bound to an upstream port.
    pub fn has_upstream_port(&self, port: GlobalId) -> (b: bool)
        requires
            self.wf(),
        ensures
            b == self.spec_has_upstream_port(port),
    {
        match self.dataflow.find(port.raw) {
            None => false,
            Some(idx) => {
                let mut found: Vec<GlobalId> = Vec::new();
                acc_component_neighbors(&self.dataflow, idx, &mut found, Direction::Incoming);
                assert(found@ =~= component_neighbors(
                    self.dataflow_nodes(),
                    self.dataflow_edges(),
                    idx,
                    false,
                ));
                found.len() > 0
            },
        }
    }

    /// Whether a reaction uses the port: whether an edge leads from the
    /// port to a reaction.
    pub open spec fn spec_is_used(&self, port: GlobalId) -> bool {
        has_id(self.dataflow_nodes(), port.raw) && reaction_neighbors(
            self.dataflow_nodes(),
            self.dataflow_edges(),
            index_of(self.dataflow_nodes(), port.raw),
            true,
        ).len() > 0
    }

    /// Whether a reaction uses the port.
    pub fn is_used(&self, port: GlobalId) -> (b: bool)
        requires
            self.wf(),
        ensures
            b == self.spec_is_used(port),
    {
        match self.dataflow.find(port.raw) {
            None => false,
            Some(idx) => {
                let mut found: Vec<GlobalReactionId> = Vec::new();
                acc_reaction_neighbors(&self.dataflow, idx, &mut found, Direction::Outgoing);
                assert(found@ =~= reaction_neighbors(
                    self.dataflow_nodes(),
                    self.dataflow_edges(),
                    idx,
                    true,
                ));
                found.len() > 0
            },
        }
    }

    /// The dump of the data-flow graph in the DOT language, for
    /// diagnostics.
    pub fn dataflow_dot(&self, registry: &IdRegistry) -> (s: String)
        requires
            self.wf(),
        ensures
            s@ == dot_text(*registry, self.dataflow_nodes(), self.dataflow_edges()),
    {
        self.dataflow.to_dot(registry)
    }

    /// The dump of the trigger graph in the DOT language, for diagnostics.
    pub fn trigger_dot(&self, registry: &IdRegistry) -> (s: String)
        requires
            self.wf(),
        ensures
            s@ == dot_text(*registry, self.trigger_nodes(), self.trigger_edges()),
    {
        self.triggers.to_dot(registry)
    }

    /// Records a reaction as one that can be run.
    pub fn register_reaction(&mut self, reaction: GlobalReactionId)
        requires
            old(self).wf(),
        ensures
            final(self).wf(),
            final(self).dataflow_nodes() == old(self).dataflow_nodes(),
            final(self).dataflow_edges() == old(self).dataflow_edges(),
            final(self).trigger_nodes() == old(self).trigger_nodes(),
            final(self).trigger_edges() == old(self).trigger_edges(),
            final(self).registered() == old(self).registered().insert(reaction.0.raw),
    {
        broadcast use vstd::std_specs::hash::group_hash_axioms;

        self.closed_reactions.insert(reaction.0.raw);
    }
}

/// The list that a table holds for an id, empty where it holds none.
pub open spec fn list_or_empty<T>(table: Map<u32, Vec<T>>, id: u32) -> Seq<T> {
    if table.contains_key(id) {
        table[id]@
    } else {
        Seq::empty()
    }
}

/// Picks the reaction of a node, if the node is a reaction.
pub open spec fn reaction_at(nodes: Seq<(bool, u32)>) -> spec_fn(usize) -> Option<
    GlobalReactionId,
> {
    |v: usize|
        if v < nodes.len() && nodes[v as int].0 {
            Some(GlobalReactionId(GlobalId { raw: nodes[v as int].1 }))
        } else {
            None
        }
}

/// Picks the port or action of a node, if the node is no reaction.
pub open spec fn component_at(nodes: Seq<(bool, u32)>) -> spec_fn(usize) -> Option<GlobalId> {
    |v: usize|
        if v < nodes.len() && !nodes[v as int].0 {
            Some(GlobalId { raw: nodes[v as int].1 })
        } else {
            None
        }
}

/// Picks the reaction of a node, if the node is a reaction that the node
/// `from` reaches.
pub open spec fn descendant_at(nodes: Seq<(bool, u32)>, edges: Seq<(usize, usize)>, from: usize)
    -> spec_fn(usize) -> Option<GlobalReactionId> {
    |v: usize|
        if v < nodes.len() && nodes[v as int].0 && reachable(edges, from, v) {
            Some(GlobalReactionId(GlobalId { raw: nodes[v as int].1 }))
        } else {
            None
        }
}

/// The reactions that the node `port` reaches, in the order `order`.
pub open spec fn port_descendants(
    nodes: Seq<(bool, u32)>,
    edges: Seq<(usize, usize)>,
    order: Seq<usize>,
    port: usize,
) -> Seq<GlobalReactionId> {
    order.filter_map(descendant_at(nodes, edges, port))
}

/// The reactions among the neighbours of node `a`, the most recently
/// added edge first.
pub open spec fn reaction_neighbors(
    nodes: Seq<(bool, u32)>,
    edges: Seq<(usize, usize)>,
    a: usize,
    outgoing: bool,
) -> Seq<GlobalReactionId> {
    neighbors(edges, a, outgoing).filter_map(reaction_at(nodes))
}

/// The ports or actions among the neighbours of node `a`, the most
/// recently added edge first.
pub open spec fn component_neighbors(
    nodes: Seq<(bool, u32)>,
    edges: Seq<(usize, usize)>,
    a: usize,
    outgoing: bool,
) -> Seq<GlobalId> {
    neighbors(edges, a, outgoing).filter_map(component_at(nodes))
}

/// Some node stands for the reaction with the packed id `id`.
pub open spec fn is_reaction_node(nodes: Seq<(bool, u32)>, id: u32) -> bool {
    has_id(nodes, id) && nodes[index_of(nodes, id) as int].0
}

/// Some node stands for the port or action with the packed id `id`.
pub open spec fn is_component_node(nodes: Seq<(bool, u32)>, id: u32) -> bool {
    has_id(nodes, id) && !nodes[index_of(nodes, id) as int].0
}

/// The place in `s` of the element that gave the `k`-th element of
/// `s.filter_map(f)`.
pub open spec fn filter_map_source<A, B>(s: Seq<A>, f: spec_fn(A) -> Option<B>, k: int) -> int
    decreases s.len(),
{
    if s.len() == 0 {
        0
    } else {
        let rest = s.drop_last();
        if f(s.last()) is Some && k == rest.filter_map(f).len() {
            s.len() - 1
        } else {
            filter_map_source(rest, f, k)
        }
    }
}

/// Each element of `s.filter_map(f)` is what `f` gives for the element of
/// `s` at its source.
pub proof fn lemma_filter_map_source<A, B>(s: Seq<A>, f: spec_fn(A) -> Option<B>, k: int)
    requires
        0 <= k < s.filter_map(f).len(),
    ensures
        0 <= filter_map_source(s, f, k) < s.len(),
        f(s[filter_map_source(s, f, k)]) == Some(s.filter_map(f)[k]),
    decreases s.len(),
{
    if s.len() > 0 {
        let rest = s.drop_last();
        if f(s.last()) is Some && k == rest.filter_map(f).len() {
        } else {
            lemma_filter_map_source(rest, f, k);
        }
    }
}

/// The sources of the elements of `s.filter_map(f)` increase.
pub proof fn lemma_filter_map_source_increases<A, B>(
    s: Seq<A>,
    f: spec_fn(A) -> Option<B>,
    j: int,
    k: int,
)
    requires
        0 <= j < k < s.filter_map(f).len(),
    ensures
        filter_map_source(s, f, j) < filter_map_source(s, f, k),
    decreases s.len(),
{
    if s.len() > 0 {
        let rest = s.drop_last();
        if f(s.last()) is Some && k == rest.filter_map(f).len() {
            lemma_filter_map_source(rest, f, j);
        } else {
            lemma_filter_map_source_increases(rest, f, j, k);
        }
    }
}


/// The table holds, for each node of the wanted kind, the list that `f`
/// gives for the node, under the id of the node; and nothing else.
pub open spec fn table_describes<T>(
    table: Map<u32, Vec<T>>,
    nodes: Seq<(bool, u32)>,
    want_reaction: bool,
    f: spec_fn(usize) -> Seq<T>,
) -> bool {
    forall|id: u32| #[trigger]
        list_or_empty(table, id) == if has_id(nodes, id) && nodes[index_of(nodes, id) as int].0
            == want_reaction {
            f(index_of(nodes, id))
        } else {
            Seq::empty()
        }
}

/// The table describes the nodes below index `v`, and no others.
spec fn table_partial<T>(
    table: Map<u32, Vec<T>>,
    nodes: Seq<(bool, u32)>,
    want_reaction: bool,
    f: spec_fn(usize) -> Seq<T>,
    v: int,
) -> bool {
    &&& forall|key: u32| #[trigger]
        table.contains_key(key) ==> has_id(nodes, key) && index_of(nodes, key) < v
            && nodes[index_of(nodes, key) as int].0 == want_reaction && table[key]@ == f(
            index_of(nodes, key),
        )
    &&& forall|u: int|
        0 <= u < v && (#[trigger] nodes[u]).0 == want_reaction ==> table.contains_key(nodes[u].1)
}

proof fn lemma_table_step<T>(
    table: Map<u32, Vec<T>>,
    nodes: Seq<(bool, u32)>,
    want_reaction: bool,
    f: spec_fn(usize) -> Seq<T>,
    v: usize,
    list: Vec<T>,
)
    requires
        table_partial(table, nodes, want_reaction, f, v as int),
        ids_unique(nodes),
        v < nodes.len() <= GRAPH_LIMIT,
        nodes[v as int].0 == want_reaction,
        list@ == f(v),
    ensures
        table_partial(table.insert(nodes[v as int].1, list), nodes, want_reaction, f, v + 1),
{
    lemma_index_of(nodes, v as int);
    let after = table.insert(nodes[v as int].1, list);
    assert forall|u: int|
        0 <= u < v + 1 && (#[trigger] nodes[u]).0 == want_reaction implies after.contains_key(
        nodes[u].1,
    ) by {
        if u < v {
            assert(table.contains_key(nodes[u].1));
        }
    }
}

proof fn lemma_table_skip<T>(
    table: Map<u32, Vec<T>>,
    nodes: Seq<(bool, u32)>,
    want_reaction: bool,
    f: spec_fn(usize) -> Seq<T>,
    v: usize,
)
    requires
        table_partial(table, nodes, want_reaction, f, v as int),
        v < nodes.len(),
        nodes[v as int].0 != want_reaction,
    ensures
        table_partial(table, nodes, want_reaction, f, v + 1),
{
}

proof fn lemma_table_done<T>(
    table: Map<u32, Vec<T>>,
    nodes: Seq<(bool, u32)>,
    want_reaction: bool,
    f: spec_fn(usize) -> Seq<T>,
)
    requires
        table_partial(table, nodes, want_reaction, f, nodes.len() as int),
        ids_unique(nodes),
        nodes.len() <= GRAPH_LIMIT,
    ensures
        table_describes(table, nodes, want_reaction, f),
{
    assert forall|id: u32| #[trigger]
        list_or_empty(table, id) == if has_id(nodes, id) && nodes[index_of(nodes, id) as int].0
            == want_reaction {
            f(index_of(nodes, id))
        } else {
            Seq::empty()
        } by {
        if has_id(nodes, id) && nodes[index_of(nodes, id) as int].0 == want_reaction {
            let u = index_of(nodes, id) as int;
            assert(nodes[u].1 == id);
            assert(table.contains_key(nodes[u].1));
        }
    }
}

/// The table of levels holds, for each reaction node, its position in
/// `order`, under the id of the node; and nothing else.
pub open spec fn levels_describe(
    levels: Map<u32, usize>,
    nodes: Seq<(bool, u32)>,
    order: Seq<usize>,
) -> bool {
    levels_partial(levels, nodes, order, order.len() as int)
}

/// The table of levels describes the positions below `j`, and no others.
pub open spec fn levels_partial(
    levels: Map<u32, usize>,
    nodes: Seq<(bool, u32)>,
    order: Seq<usize>,
    j: int,
) -> bool {
    &&& forall|key: u32| #[trigger]
        levels.contains_key(key) ==> levels[key] < j && order[levels[key] as int] < nodes.len()
            && nodes[order[levels[key] as int] as int] == (true, key)
    &&& forall|f: int|
        0 <= f < j && nodes[(#[trigger] order[f]) as int].0 ==> levels.contains_key(
            nodes[order[f] as int].1,
        ) && levels[nodes[order[f] as int].1] == f
}

/// Appends to `output` the ports or actions among the neighbours of node
/// `gid` in one direction.
fn acc_component_neighbors(
    graph: &GraphWrapper,
    gid: usize,
    output: &mut Vec<GlobalId>,
    direction: Direction,
)
    requires
        graph.wf(),
        gid < graph.nodes().len(),
    ensures
        final(output)@ == old(output)@ + component_neighbors(
            graph.nodes(),
            graph.edges(),
            gid,
            direction == Direction::Outgoing,
        ),
{
    let ghost start = output@;
    let ghost pick = component_at(graph.nodes());
    let around = graph.neighbor_indices(gid, direction);
    let mut k: usize = 0;
    assert(around@.take(0).filter_map(pick) =~= Seq::<GlobalId>::empty());
    assert(output@ =~= start + around@.take(0).filter_map(pick));
    while k < around.len()
        invariant
            graph.wf(),
            k <= around@.len(),
            pick == component_at(graph.nodes()),
            forall|j: int| 0 <= j < around@.len() ==> #[trigger] around@[j] < graph.nodes().len(),
            output@ == start + around@.take(k as int).filter_map(pick),
        decreases around@.len() - k,
    {
        let w = graph.to_elt(around[k]);
        proof {
            assert(around@.take(k + 1).drop_last() =~= around@.take(k as int));
            assert(around@.take(k + 1).last() == around@[k as int]);
        }
        if !w.0 {
            output.push(GlobalId { raw: w.1 });
        }
        k += 1;
        assert(output@ =~= start + around@.take(k as int).filter_map(pick));
    }
    assert(around@.take(k as int) =~= around@);
}

/// Appends to `output` the reactions among the neighbours of node `gid`
/// in one direction.
fn acc_reaction_neighbors(
    graph: &GraphWrapper,
    gid: usize,
    output: &mut Vec<GlobalReactionId>,
    direction: Direction,
)
    requires
        graph.wf(),
        gid < graph.nodes().len(),
    ensures
        final(output)@ == old(output)@ + reaction_neighbors(
            graph.nodes(),
            graph.edges(),
            gid,
            direction == Direction::Outgoing,
        ),
{
    let ghost start = output@;
    let ghost pick = reaction_at(graph.nodes());
    let around = graph.neighbor_indices(gid, direction);
    let mut k: usize = 0;
    assert(around@.take(0).filter_map(pick) =~= Seq::<GlobalReactionId>::empty());
    assert(output@ =~= start + around@.take(0).filter_map(pick));
    while k < around.len()
        invariant
            graph.wf(),
            k <= around@.len(),
            pick == reaction_at(graph.nodes()),
            forall|j: int| 0 <= j < around@.len() ==> #[trigger] around@[j] < graph.nodes().len(),
            output@ == start + around@.take(k as int).filter_map(pick),
        decreases around@.len() - k,
    {
        let w = graph.to_elt(around[k]);
        proof {
            assert(around@.take(k + 1).drop_last() =~= around@.take(k as int));
            assert(around@.take(k + 1).last() == around@[k as int]);
        }
        if w.0 {
            output.push(GlobalReactionId(GlobalId { raw: w.1 }));
        }
        k += 1;
        assert(output@ =~= start + around@.take(k as int).filter_map(pick));
    }
    assert(around@.take(k as int) =~= around@);
}

/// The reactions that node `port` reaches, in the order `order`.
fn collect_descendants(graph: &GraphWrapper, order: &Vec<usize>, port: usize) -> (r: Vec<
    GlobalReactionId,
>)
    requires
        graph.wf(),
        port < graph.nodes().len(),
        forall|j: int| 0 <= j < order@.len() ==> #[trigger] order@[j] < graph.nodes().len(),
    ensures
        r@ == port_descendants(graph.nodes(), graph.edges(), order@, port),
{
    let ghost pick = descendant_at(graph.nodes(), graph.edges(), port);
    let mut out: Vec<GlobalReactionId> = Vec::new();
    let mut k: usize = 0;
    assert(out@ =~= order@.take(0).filter_map(pick));
    while k < order.len()
        invariant
            graph.wf(),
            port < graph.nodes().len(),
            k <= order@.len(),
            pick == descendant_at(graph.nodes(), graph.edges(), port),
            forall|j: int| 0 <= j < order@.len() ==> #[trigger] order@[j] < graph.nodes().len(),
            out@ == order@.take(k as int).filter_map(pick),
        decreases order@.len() - k,
    {
        let follower = order[k];
        let w = graph.to_elt(follower);
        proof {
            assert(order@.take(k + 1).drop_last() =~= order@.take(k as int));
            assert(order@.take(k + 1).last() == follower);
        }
        if w.0 {
            if graph.connects(port, follower) {
                out.push(GlobalReactionId(GlobalId { raw: w.1 }));
            }
        }
        k += 1;
        assert(out@ =~= order@.take(k as int).filter_map(pick));
    }
    assert(order@.take(k as int) =~= order@);
    out
}

/// The position in `order` of each reaction node.
fn build_levels(graph: &GraphWrapper, order: &Vec<usize>) -> (levels: HashMap<u32, usize>)
    requires
        graph.wf(),
        is_topological_order(order@, graph.nodes().len(), graph.edges()),
    ensures
        levels_describe(levels@, graph.nodes(), order@),
{
    broadcast use vstd::std_specs::hash::group_hash_axioms;

    let mut levels: HashMap<u32, usize> = HashMap::new();
    let mut j: usize = 0;
    while j < order.len()
        invariant
            graph.wf(),
            is_topological_order(order@, graph.nodes().len(), graph.edges()),
            j <= order@.len(),
            levels_partial(levels@, graph.nodes(), order@, j as int),
        decreases order@.len() - j,
    {
        let v = order[j];
        let w = graph.to_elt(v);
        if w.0 {
            let ghost before = levels@;
            levels.insert(w.1, j);
            proof {
                let nodes = graph.nodes();
                assert forall|f: int|
                    0 <= f < j + 1
                        && nodes[(#[trigger] order@[f]) as int].0 implies levels@.contains_key(
                    nodes[order@[f] as int].1,
                ) && levels@[nodes[order@[f] as int].1] == f by {
                    if f < j {
                        assert(order@[f] != order@[j as int]);
                        assert(nodes[order@[f] as int].1 != nodes[v as int].1);
                        assert(before.contains_key(nodes[order@[f] as int].1));
                    }
                }
            }
        }
        j += 1;
    }
    levels
}

/// For each port node, the reactions that it reaches, in the order
/// `order`.
fn build_downstream(graph: &GraphWrapper, order: &Vec<usize>) -> (table: HashMap<
    u32,
    Vec<GlobalReactionId>,
>)
    requires
        graph.wf(),
        is_topological_order(order@, graph.nodes().len(), graph.edges()),
    ensures
        table_describes(
            table@,
            graph.nodes(),
            false,
            |v: usize| port_descendants(graph.nodes(), graph.edges(), order@, v),
        ),
{
    broadcast use vstd::std_specs::hash::group_hash_axioms;

    let ghost f = |v: usize| port_descendants(graph.nodes(), graph.edges(), order@, v);
    let mut table: HashMap<u32, Vec<GlobalReactionId>> = HashMap::new();
    let n = graph.node_count();
    let mut v: usize = 0;
    while v < n
        invariant
            graph.wf(),
            is_topological_order(order@, graph.nodes().len(), graph.edges()),
            n == graph.nodes().len(),
            v <= n,
            f == (|v: usize| port_descendants(graph.nodes(), graph.edges(), order@, v)),
            table_partial(table@, graph.nodes(), false, f, v as int),
        decreases n - v,
    {
        let w = graph.to_elt(v);
        if !w.0 {
            let list = collect_descendants(graph, order, v);
            proof {
                lemma_table_step(table@, graph.nodes(), false, f, v, list);
            }
            table.insert(w.1, list);
        } else {
            proof {
                lemma_table_skip(table@, graph.nodes(), false, f, v);
            }
        }
        v += 1;
    }
    proof {
        lemma_table_done(table@, graph.nodes(), false, f);
    }
    table
}

/// For each reaction node, the ports or actions among its neighbours in
/// one direction.
fn build_component_lists(graph: &GraphWrapper, direction: Direction) -> (table: HashMap<
    u32,
    Vec<GlobalId>,
>)
    requires
        graph.wf(),
    ensures
        table_describes(
            table@,
            graph.nodes(),
            true,
            |v: usize|
                component_neighbors(
                    graph.nodes(),
                    graph.edges(),
                    v,
                    direction == Direction::Outgoing,
                ),
        ),
{
    broadcast use vstd::std_specs::hash::group_hash_axioms;

    let ghost f = |v: usize|
        component_neighbors(graph.nodes(), graph.edges(), v, direction == Direction::Outgoing);
    let mut table: HashMap<u32, Vec<GlobalId>> = HashMap::new();
    let n = graph.node_count();
    let mut v: usize = 0;
    while v < n
        invariant
            graph.wf(),
            n == graph.nodes().len(),
            v <= n,
            f == (|v: usize|
                component_neighbors(
                    graph.nodes(),
                    graph.edges(),
                    v,
                    direction == Direction::Outgoing,
                )),
            table_partial(table@, graph.nodes(), true, f, v as int),
        decreases n - v,
    {
        let w = graph.to_elt(v);
        if w.0 {
            let mut list: Vec<GlobalId> = Vec::new();
            acc_component_neighbors(graph, v, &mut list, direction);
            proof {
                assert(list@ =~= f(v));
                lemma_table_step(table@, graph.nodes(), true, f, v, list);
            }
            table.insert(w.1, list);
        } else {
            proof {
                lemma_table_skip(table@, graph.nodes(), true, f, v);
            }
        }
        v += 1;
    }
    proof {
        lemma_table_done(table@, graph.nodes(), true, f);
    }
    table
}

/// For each action node, the reactions that it has an edge to.
fn build_triggered(graph: &GraphWrapper) -> (table: HashMap<u32, Vec<GlobalReactionId>>)
    requires
        graph.wf(),
    ensures
        table_describes(
            table@,
            graph.nodes(),
            false,
            |v: usize| reaction_neighbors(graph.nodes(), graph.edges(), v, true),
        ),
{
    broadcast use vstd::std_specs::hash::group_hash_axioms;

    let ghost f = |v: usize| reaction_neighbors(graph.nodes(), graph.edges(), v, true);
    let mut table: HashMap<u32, Vec<GlobalReactionId>> = HashMap::new();
    let n = graph.node_count();
    let mut v: usize = 0;
    while v < n
        invariant
            graph.wf(),
            n == graph.nodes().len(),
            v <= n,
            f == (|v: usize| reaction_neighbors(graph.nodes(), graph.edges(), v, true)),
            table_partial(table@, graph.nodes(), false, f, v as int),
        decreases n - v,
    {
        let w = graph.to_elt(v);
        if !w.0 {
            let mut list: Vec<GlobalReactionId> = Vec::new();
            acc_reaction_neighbors(graph, v, &mut list, Direction::Outgoing);
            proof {
                assert(list@ =~= f(v));
                lemma_table_step(table@, graph.nodes(), false, f, v, list);
            }
            table.insert(w.1, list);
        } else {
            proof {
                lemma_table_skip(table@, graph.nodes(), false, f, v);
            }
        }
        v += 1;
    }
    proof {
        lemma_table_done(table@, graph.nodes(), false, f);
    }
    table
}

/// The place of the node `v` in `order`.
pub open spec fn position_in(order: Seq<usize>, v: usize) -> usize {
    (choose|i: int| 0 <= i < order.len() && order[i] == v) as usize
}

/// Looking up a registered reaction, or a port or an action, keeps
/// every reaction node registered.
pub proof fn lemma_registered_with_node(
    nodes: Seq<(bool, u32)>,
    registered: Set<u32>,
    elt: (bool, u32),
)
    requires
        all_registered(nodes, registered),
        elt.0 ==> registered.contains(elt.1),
    ensures
        all_registered(with_node(nodes, elt), registered),
{
    let after = with_node(nodes, elt);
    assert forall|i: int| 0 <= i < after.len()
        && (#[trigger] after[i]).0 implies registered.contains(
        after[i].1,
    ) by {
        if i < nodes.len() {
            assert(after[i] == nodes[i]);
        }
    }
}

/// Looking up registered reactions keeps every reaction node registered.
pub proof fn lemma_registered_with_reactions(
    nodes: Seq<(bool, u32)>,
    registered: Set<u32>,
    rs: Seq<GlobalReactionId>,
)
    requires
        all_registered(nodes, registered),
        forall|k: int| 0 <= k < rs.len() ==> registered.contains((#[trigger] rs[k]).0.raw),
    ensures
        all_registered(with_reactions(nodes, rs), registered),
        with_reactions(nodes, rs).len() <= nodes.len() + rs.len(),
    decreases rs.len(),
{
    if rs.len() > 0 {
        let front = rs.drop_last();
        assert forall|k: int| 0 <= k < front.len() implies registered.contains(
            (#[trigger] front[k]).0.raw,
        ) by {
            assert(front[k] == rs[k]);
        }
        lemma_registered_with_reactions(nodes, registered, front);
        assert(rs[rs.len() - 1] == rs.last());
        lemma_registered_with_node(
            with_reactions(nodes, front),
            registered,
            reaction_weight(rs.last()),
        );
    }
}

/// Every reaction node carries the id of a registered reaction.
pub open spec fn all_registered(nodes: Seq<(bool, u32)>, registered: Set<u32>) -> bool {
    forall|i: int| 0 <= i < nodes.len()
        && (#[trigger] nodes[i]).0 ==> registered.contains(nodes[i].1)
}

/// The level that a table of levels holds for a reaction.
pub open spec fn level_in(levels: Map<u32, usize>, reaction: GlobalReactionId) -> Option<usize> {
    if levels.contains_key(reaction.0.raw) {
        Some(levels[reaction.0.raw])
    } else {
        None
    }
}

/// In a topological order, a reaction that affects a port stands before
/// every reaction that the port reaches, the reactions that a port
/// reaches are listed by increasing position, and no two reactions share
/// a position.
proof fn lemma_levels_ordered(
    levels: Map<u32, usize>,
    down: Map<u32, Vec<GlobalReactionId>>,
    affects: Map<u32, Vec<GlobalId>>,
    nodes: Seq<(bool, u32)>,
    edges: Seq<(usize, usize)>,
    order: Seq<usize>,
)
    requires
        levels_describe(levels, nodes, order),
        table_describes(down, nodes, false, |v: usize| port_descendants(nodes, edges, order, v)),
        table_describes(
            affects,
            nodes,
            true,
            |v: usize| component_neighbors(nodes, edges, v, true),
        ),
        ids_unique(nodes),
        edges_in_range(edges, nodes.len()),
        is_topological_order(order, nodes.len(), edges),
        nodes.len() <= GRAPH_LIMIT,
    ensures
        forall|r: GlobalReactionId| #[trigger]
            level_in(levels, r) is Some ==> level_in(levels, r)->0 < nodes.len(),
        forall|r: GlobalReactionId, s: GlobalReactionId|
            (#[trigger] level_in(levels, r)) is Some && (#[trigger] level_in(levels, s)) is Some
                && level_in(levels, r) == level_in(levels, s) ==> r == s,
        forall|p: GlobalId|
            sorted_by_level(
                #[trigger] list_or_empty(down, p.raw),
                |r: GlobalReactionId| level_in(levels, r),
            ),
        forall|r: GlobalReactionId, k: int, j: int|
            #![trigger list_or_empty(down, list_or_empty(affects, r.0.raw)[k].raw)[j]]
            0 <= k < list_or_empty(affects, r.0.raw).len() && 0 <= j < list_or_empty(
                down,
                list_or_empty(affects, r.0.raw)[k].raw,
            ).len() ==> level_in(levels, r) is Some && level_in(levels, r)->0 < level_in(
                levels,
                list_or_empty(down, list_or_empty(affects, r.0.raw)[k].raw)[j],
            )->0,
{
    let n = nodes.len();
    assert forall|r: GlobalReactionId, s: GlobalReactionId|
        (#[trigger] level_in(levels, r)) is Some && (#[trigger] level_in(levels, s)) is Some
            && level_in(levels, r) == level_in(levels, s) implies r == s by {
        assert(levels.contains_key(r.0.raw));
        assert(levels.contains_key(s.0.raw));
    }
    assert forall|p: GlobalId|
        sorted_by_level(
            #[trigger] list_or_empty(down, p.raw),
            |r: GlobalReactionId| level_in(levels, r),
        ) by {
        lemma_descendants_levels(levels, down, nodes, edges, order, p);
    }
    assert forall|r: GlobalReactionId, k: int, j: int|
        #![trigger list_or_empty(down, list_or_empty(affects, r.0.raw)[k].raw)[j]]
        0 <= k < list_or_empty(affects, r.0.raw).len() && 0 <= j < list_or_empty(
            down,
            list_or_empty(affects, r.0.raw)[k].raw,
        ).len() implies level_in(levels, r) is Some && level_in(levels, r)->0 < level_in(
            levels,
            list_or_empty(down, list_or_empty(affects, r.0.raw)[k].raw)[j],
        )->0 by {
        let writes = list_or_empty(affects, r.0.raw);
        let a = index_of(nodes, r.0.raw);
        assert(has_id(nodes, r.0.raw) && nodes[a as int].0);
        assert(writes == component_neighbors(nodes, edges, a, true));
        let around = neighbors(edges, a, true);
        let pick = component_at(nodes);
        lemma_filter_map_source(around, pick, k);
        let b = around[filter_map_source(around, pick, k)];
        lemma_neighbors_in_range(edges, n, a, true);
        assert(crate::graph::has_edge(edges, a, b));
        let port = writes[k];
        assert(port == GlobalId { raw: nodes[b as int].1 });
        lemma_index_of(nodes, b as int);
        let list = list_or_empty(down, port.raw);
        assert(list == port_descendants(nodes, edges, order, b));
        lemma_descendants_levels(levels, down, nodes, edges, order, port);
        let reach = descendant_at(nodes, edges, b);
        lemma_filter_map_source(order, reach, j);
        let pos = filter_map_source(order, reach, j);
        let u = order[pos];
        assert(reachable(edges, b, u));
        let q = choose|q: Seq<usize>| #[trigger] is_path(edges, q) && q.first() == b
            && q.last() == u;
        let walk = seq![a] + q;
        assert(is_path(edges, walk)) by {
            assert forall|i: int| 0 <= i < walk.len() - 1 implies crate::graph::has_edge(
                edges,
                #[trigger] walk[i],
                walk[i + 1],
            ) by {
                if i == 0 {
                    assert(walk[1] == q[0]);
                } else {
                    assert(walk[i] == q[i - 1]);
                    assert(walk[i + 1] == q[i]);
                    assert(crate::graph::has_edge(edges, q[i - 1], q[i - 1 + 1]));
                }
            }
        }
        assert(order.contains(a));
        let i = choose|i: int| 0 <= i < order.len() && order[i] == a;
        assert(walk.first() == a);
        assert(walk.last() == u);
        lemma_path_follows_order(order, n, edges, walk, i, pos);
        assert(nodes[order[i] as int].0);
        assert(levels.contains_key(nodes[order[i] as int].1) && levels[nodes[order[i] as int].1]
            == i);
        assert(nodes[a as int].1 == r.0.raw);
        assert(levels[nodes[order[pos] as int].1] == pos);
    }
}

/// The table of levels holds the place in the order of each reaction
/// node, and nothing for any other id.
proof fn lemma_levels_positions(levels: Map<u32, usize>, nodes: Seq<(bool, u32)>, order: Seq<usize>)
    requires
        levels_describe(levels, nodes, order),
        ids_unique(nodes),
        nodes.len() <= GRAPH_LIMIT,
        order.len() == nodes.len(),
        forall|v: usize| v < nodes.len() ==> #[trigger] order.contains(v),
        forall|i: int, j: int|
            0 <= i < order.len() && 0 <= j < order.len() && i != j ==> #[trigger] order[i]
                != #[trigger] order[j],
    ensures
        forall|r: GlobalReactionId| #[trigger]
            level_in(levels, r) == if is_reaction_node(nodes, r.0.raw) {
                Some(position_in(order, index_of(nodes, r.0.raw)))
            } else {
                None
            },
{
    assert forall|r: GlobalReactionId| #[trigger]
        level_in(levels, r) == if is_reaction_node(nodes, r.0.raw) {
            Some(position_in(order, index_of(nodes, r.0.raw)))
        } else {
            None
        } by {
        let id = r.0.raw;
        if is_reaction_node(nodes, id) {
            let v = index_of(nodes, id);
            assert(order.contains(v));
            let i = choose|i: int| 0 <= i < order.len() && order[i] == v;
            assert(nodes[order[i] as int].0);
            assert(levels.contains_key(nodes[order[i] as int].1));
            let j = choose|j: int| 0 <= j < order.len() && order[j] == v;
            assert(i == j);
        } else {
            if levels.contains_key(id) {
                let l = levels[id] as int;
                assert(nodes[order[l] as int] == (true, id));
                lemma_index_of(nodes, order[l] as int);
            }
        }
    }
}

/// The reactions downstream of a port are listed by increasing level:
/// the level of each is the place in the order that it was taken from.
proof fn lemma_descendants_levels(
    levels: Map<u32, usize>,
    down: Map<u32, Vec<GlobalReactionId>>,
    nodes: Seq<(bool, u32)>,
    edges: Seq<(usize, usize)>,
    order: Seq<usize>,
    p: GlobalId,
)
    requires
        levels_describe(levels, nodes, order),
        table_describes(down, nodes, false, |v: usize| port_descendants(nodes, edges, order, v)),
    ensures
        sorted_by_level(list_or_empty(down, p.raw), |r: GlobalReactionId| level_in(levels, r)),
        forall|k: int|
            0 <= k < list_or_empty(down, p.raw).len() ==> level_in(
                levels,
                #[trigger] list_or_empty(down, p.raw)[k],
            ) == Some(
                #[verifier::truncate]
                (filter_map_source(
                    order,
                    descendant_at(nodes, edges, index_of(nodes, p.raw)),
                    k,
                ) as usize),
            ),
{
    let list = list_or_empty(down, p.raw);
    let level = |r: GlobalReactionId| level_in(levels, r);
    if is_component_node(nodes, p.raw) {
        let v = index_of(nodes, p.raw);
        let pick = descendant_at(nodes, edges, v);
        assert(list == port_descendants(nodes, edges, order, v));
        assert forall|k: int| 0 <= k < list.len() implies level_in(levels, #[trigger] list[k])
            == Some(#[verifier::truncate] (filter_map_source(order, pick, k) as usize)) by {
            lemma_filter_map_source(order, pick, k);
            let pos = filter_map_source(order, pick, k);
            assert(nodes[order[pos] as int].0);
            assert(levels.contains_key(nodes[order[pos] as int].1));
        }
        assert forall|j: int, k: int| 0 <= j < k < list.len() implies (#[trigger] level(
            list[j],
        ))->0 < (#[trigger] level(list[k]))->0 by {
            lemma_filter_map_source_increases(order, pick, j, k);
            lemma_filter_map_source(order, pick, j);
            lemma_filter_map_source(order, pick, k);
        }
        assert forall|k: int| 0 <= k < list.len() implies (#[trigger] level(list[k])) is Some by {
            assert(level_in(levels, list[k]) is Some);
        }
    }
}

/// The levels follow the data flow: of two reactions of which the first
/// reaches the second in the data-flow graph, the first has the lower
/// level.
pub proof fn law_levels_follow_data_flow(
    s: Schedulable,
    flow: FlowGraph,
    order: Seq<usize>,
    first: GlobalReactionId,
    second: GlobalReactionId,
)
    requires
        flow.wf(),
        is_topological_order(order, flow.dataflow_nodes().len(), flow.dataflow_edges()),
        s.describes(flow, order),
        is_reaction_node(flow.dataflow_nodes(), first.0.raw),
        is_reaction_node(flow.dataflow_nodes(), second.0.raw),
        first != second,
        reachable(
            flow.dataflow_edges(),
            index_of(flow.dataflow_nodes(), first.0.raw),
            index_of(flow.dataflow_nodes(), second.0.raw),
        ),
    ensures
        s.level(first) is Some,
        s.level(second) is Some,
        s.level(first)->0 < s.level(second)->0,
{
    flow.lemma_wf();
    let nodes = flow.dataflow_nodes();
    let edges = flow.dataflow_edges();
    let a = index_of(nodes, first.0.raw);
    let b = index_of(nodes, second.0.raw);
    assert(nodes[a as int].1 == first.0.raw);
    assert(nodes[b as int].1 == second.0.raw);
    assert(order.contains(a));
    assert(order.contains(b));
    let i = choose|i: int| 0 <= i < order.len() && order[i] == a;
    let j = choose|j: int| 0 <= j < order.len() && order[j] == b;
    crate::graph::lemma_reachable_follows_order(order, nodes.len(), edges, i, j);
    assert(s.level(first) == Some(position_in(order, a)));
    assert(s.level(second) == Some(position_in(order, b)));
}

/// A cycle in the declared data flow is an error of the assembly, and
/// the only one of its last step: the snapshot of the program is taken
/// exactly when the data-flow graph has no cycle.
pub proof fn law_assembler_soundness(
    flow: FlowGraph,
    order: Seq<usize>,
)
    requires
        flow.wf(),
        is_topological_order(order, flow.dataflow_nodes().len(), flow.dataflow_edges()),
    ensures
        !has_cycle(flow.dataflow_edges()),
{
    flow.lemma_wf();
    crate::graph::lemma_topological_order_acyclic(
        order,
        flow.dataflow_nodes().len(),
        flow.dataflow_edges(),
    );
}

/// The levels along `list` increase strictly, and every reaction of the
/// list has a level.
pub open spec fn sorted_by_level(
    list: Seq<GlobalReactionId>,
    level: spec_fn(GlobalReactionId) -> Option<usize>,
) -> bool {
    &&& forall|k: int| 0 <= k < list.len() ==> (#[trigger] level(list[k])) is Some
    &&& forall|j: int, k: int|
        0 <= j < k < list.len() ==> (#[trigger] level(list[j]))->0 < (#[trigger] level(
            list[k],
        ))->0
}

/// What the scheduler knows of an assembled program. Nothing in it changes
/// once it is built.
pub struct Schedulable {
    reactions_by_port_id: HashMap<u32, Vec<GlobalReactionId>>,
    reaction_uses_port: HashMap<u32, Vec<GlobalId>>,
    reaction_affects_port: HashMap<u32, Vec<GlobalId>>,
    reaction_schedules_action: HashMap<u32, Vec<GlobalId>>,
    action_triggers_reaction: HashMap<u32, Vec<GlobalReactionId>>,
    reaction_levels: HashMap<u32, usize>,
    level_bound: usize,
    no_reactions: Vec<GlobalReactionId>,
    no_components: Vec<GlobalId>,
}

impl Schedulable {
    /// The reactions that must run when the port is set: those that the
    /// port reaches in the data-flow graph, in topological order.
    pub closed spec fn downstream_reactions(&self, port_id: GlobalId) -> Seq<GlobalReactionId> {
        list_or_empty(self.reactions_by_port_id@, port_id.raw)
    }

    /// The reactions that an action triggers.
    pub closed spec fn triggered_reactions(&self, action_id: GlobalId) -> Seq<GlobalReactionId> {
        list_or_empty(self.action_triggers_reaction@, action_id.raw)
    }

    /// The ports that a reaction may read.
    pub closed spec fn allowed_reads(&self, reaction_id: GlobalReactionId) -> Seq<GlobalId> {
        list_or_empty(self.reaction_uses_port@, reaction_id.0.raw)
    }

    /// The ports that a reaction may set.
    pub closed spec fn allowed_writes(&self, reaction_id: GlobalReactionId) -> Seq<GlobalId> {
        list_or_empty(self.reaction_affects_port@, reaction_id.0.raw)
    }

    /// The actions that a reaction may schedule.
    pub closed spec fn allowed_schedules(&self, reaction_id: GlobalReactionId) -> Seq<GlobalId> {
        list_or_empty(self.reaction_schedules_action@, reaction_id.0.raw)
    }

    /// The level of a reaction: its position in the topological order of
    /// the data-flow graph. A reaction that the graph does not hold has
    /// no level.
    pub closed spec fn level(&self, reaction_id: GlobalReactionId) -> Option<usize> {
        level_in(self.reaction_levels@, reaction_id)
    }

    /// The level as a function of the reaction.
    pub open spec fn level_fn(&self) -> spec_fn(GlobalReactionId) -> Option<usize> {
        |r: GlobalReactionId| self.level(r)
    }

    /// A bound above every level.
    pub closed spec fn spec_level_bound(&self) -> usize {
        self.level_bound
    }

    /// The levels respect the data flow: they are below the bound, no two
    /// reactions share one, the reactions downstream of a port are listed
    /// by increasing level, and a reaction that may set a port has a
    /// lower level than every reaction downstream of that port.
    pub open spec fn ordered(&self) -> bool {
        &&& forall|r: GlobalReactionId| #[trigger]
            self.level(r) is Some ==> self.level(r)->0 < self.spec_level_bound()
        &&& forall|r: GlobalReactionId, s: GlobalReactionId|
            (#[trigger] self.level(r)) is Some && (#[trigger] self.level(s)) is Some
                && self.level(r) == self.level(s) ==> r == s
        &&& forall|p: GlobalId| sorted_by_level(#[trigger] self.downstream_reactions(p), self.level_fn())
        &&& forall|r: GlobalReactionId, k: int, j: int|
            #![trigger self.downstream_reactions(self.allowed_writes(r)[k])[j]]
            0 <= k < self.allowed_writes(r).len() && 0 <= j < self.downstream_reactions(
                self.allowed_writes(r)[k],
            ).len() ==> self.level(r) is Some && self.level(r)->0 < self.level(
                self.downstream_reactions(self.allowed_writes(r)[k])[j],
            )->0
    }

    /// The snapshot holds what the two graphs of `flow` say, with the
    /// data-flow graph in the topological order `order`.
    pub open spec fn describes(&self, flow: FlowGraph, order: Seq<usize>) -> bool {
        let nodes = flow.dataflow_nodes();
        let edges = flow.dataflow_edges();
        let tnodes = flow.trigger_nodes();
        let tedges = flow.trigger_edges();
        &&& self.spec_level_bound() == nodes.len()
        &&& forall|p: GlobalId| #[trigger]
            self.downstream_reactions(p) == if is_component_node(nodes, p.raw) {
                port_descendants(nodes, edges, order, index_of(nodes, p.raw))
            } else {
                Seq::empty()
            }
        &&& forall|r: GlobalReactionId| #[trigger]
            self.allowed_reads(r) == if is_reaction_node(nodes, r.0.raw) {
                component_neighbors(nodes, edges, index_of(nodes, r.0.raw), false)
            } else {
                Seq::empty()
            }
        &&& forall|r: GlobalReactionId| #[trigger]
            self.allowed_writes(r) == if is_reaction_node(nodes, r.0.raw) {
                component_neighbors(nodes, edges, index_of(nodes, r.0.raw), true)
            } else {
                Seq::empty()
            }
        &&& forall|r: GlobalReactionId| #[trigger]
            self.level(r) == if is_reaction_node(nodes, r.0.raw) {
                Some(position_in(order, index_of(nodes, r.0.raw)))
            } else {
                None
            }
        &&& forall|a: GlobalId| #[trigger]
            self.triggered_reactions(a) == if is_component_node(tnodes, a.raw) {
                reaction_neighbors(tnodes, tedges, index_of(tnodes, a.raw), true)
            } else {
                Seq::empty()
            }
        &&& forall|r: GlobalReactionId| #[trigger]
            self.allowed_schedules(r) == if is_reaction_node(tnodes, r.0.raw) {
                component_neighbors(tnodes, tedges, index_of(tnodes, r.0.raw), true)
            } else {
                Seq::empty()
            }
    }

    #[verifier::type_invariant]
    spec fn inv(&self) -> bool {
        &&& self.no_reactions@.len() == 0
        &&& self.no_components@.len() == 0
        &&& self.ordered()
    }

    /// The levels of every snapshot are ordered.
    pub fn levels_are_ordered(&self)
        ensures
            self.ordered(),
    {
        proof {
            use_type_invariant(self);
        }
    }

    pub fn get_downstream_reactions(&self, port_id: &GlobalId) -> (r: &[GlobalReactionId])
        ensures
            r@ == self.downstream_reactions(*port_id),
    {
        broadcast use vstd::std_specs::hash::group_hash_axioms;

        proof {
            use_type_invariant(self);
        }
        match self.reactions_by_port_id.get(&port_id.raw) {
            Some(list) => list.as_slice(),
            None => self.no_reactions.as_slice(),
        }
    }

    pub fn get_triggered_reactions(&self, action_id: &GlobalId) -> (r: &[GlobalReactionId])
        ensures
            r@ == self.triggered_reactions(*action_id),
    {
        broadcast use vstd::std_specs::hash::group_hash_axioms;

        proof {
            use_type_invariant(self);
        }
        match self.action_triggers_reaction.get(&action_id.raw) {
            Some(list) => list.as_slice(),
            None => self.no_reactions.as_slice(),
        }
    }

    pub fn get_allowed_reads(&self, reaction_id: &GlobalReactionId) -> (r: &[GlobalId])
        ensures
            r@ == self.allowed_reads(*reaction_id),
    {
        broadcast use vstd::std_specs::hash::group_hash_axioms;

        proof {
            use_type_invariant(self);
        }
        match self.reaction_uses_port.get(&reaction_id.0.raw) {
            Some(list) => list.as_slice(),
            None => self.no_components.as_slice(),
        }
    }

    pub fn get_allowed_writes(&self, reaction_id: &GlobalReactionId) -> (r: &[GlobalId])
        ensures
            r@ == self.allowed_writes(*reaction_id),
    {
        broadcast use vstd::std_specs::hash::group_hash_axioms;

        proof {
            use_type_invariant(self);
        }
        match self.reaction_affects_port.get(&reaction_id.0.raw) {
            Some(list) => list.as_slice(),
            None => self.no_components.as_slice(),
        }
    }

    pub fn get_allowed_schedules(&self, reaction_id: &GlobalReactionId) -> (r: &[GlobalId])
        ensures
            r@ == self.allowed_schedules(*reaction_id),
    {
        broadcast use vstd::std_specs::hash::group_hash_axioms;

        proof {
            use_type_invariant(self);
        }
        match self.reaction_schedules_action.get(&reaction_id.0.raw) {
            Some(list) => list.as_slice(),
            None => self.no_components.as_slice(),
        }
    }

    /// The level of a reaction, if it has one.
    pub fn level_of(&self, reaction_id: &GlobalReactionId) -> (r: Option<usize>)
        ensures
            r == self.level(*reaction_id),
            r matches Some(l) ==> l < self.spec_level_bound(),
    {
        broadcast use vstd::std_specs::hash::group_hash_axioms;

        proof {
            use_type_invariant(self);
        }
        match self.reaction_levels.get(&reaction_id.0.raw) {
            Some(l) => Some(*l),
            None => None,
        }
    }

    /// A bound above every level: the number of nodes of the data-flow
    /// graph.
    #[verifier::when_used_as_spec(spec_level_bound)]
    pub fn level_bound(&self) -> (n: usize)
        ensures
            n == self.spec_level_bound(),
    {
        self.level_bound
    }
}


} // verus!
