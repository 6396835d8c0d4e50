//! A directed graph of identified elements, kept in a `petgraph` graph.
//!
//! Verus does not look inside the `petgraph` graph. What it holds is
//! described by two sequences, `graph_nodes` and `graph_edges`, and the
//! functions of this file that call into `petgraph` state their effect on
//! those two sequences.

use crate::error::{AssemblyError, DependencyKind};
use crate::ids::{decimal, push_decimal, GlobalId, GlobalReactionId, IdRegistry};
use std::collections::HashMap;
use vstd::prelude::*;
use vstd::string::StringExecFns;

verus! {

#[verifier::external_type_specification]
#[verifier::external_body]
#[verifier::reject_recursive_types(N)]
#[verifier::reject_recursive_types(E)]
#[verifier::reject_recursive_types(Ty)]
#[verifier::reject_recursive_types(Ix)]
pub struct ExGraph<N, E, Ty, Ix>(petgraph::graph::Graph<N, E, Ty, Ix>);

#[verifier::external_type_specification]
#[verifier::external_body]
pub struct ExDirected(petgraph::Directed);

/// The weight of a node: whether it stands for a reaction, and the packed
/// global id of the element.
pub type NodeWeight = (bool, u32);

/// The graph type that this crate uses: directed, indexed by `u32`.
pub type Dag = petgraph::graph::Graph<(bool, u32), (), petgraph::Directed, u32>;

/// The weights of the nodes of a graph, by node index.
pub uninterp spec fn graph_nodes(g: Dag) -> Seq<(bool, u32)>;

/// The edges of a graph as pairs (source, target) of node indices, in the
/// order in which they were added.
pub uninterp spec fn graph_edges(g: Dag) -> Seq<(usize, usize)>;

/// Largest number of nodes, and of edges, that a graph indexed by `u32`
/// can hold.
pub const GRAPH_LIMIT: usize = 0xffff_fffe;

/// There is an edge from `a` to `b`.
pub open spec fn has_edge(edges: Seq<(usize, usize)>, a: usize, b: usize) -> bool {
    edges.contains((a, b))
}

/// `p` is a walk along the edges: it has at least one node, and each node
/// but the last has an edge to the one that follows it.
pub open spec fn is_path(edges: Seq<(usize, usize)>, p: Seq<usize>) -> bool {
    &&& p.len() >= 1
    &&& forall|i: int| 0 <= i < p.len() - 1 ==> has_edge(edges, #[trigger] p[i], p[i + 1])
}

/// Some walk leads from `a` to `b`. Every node reaches itself.
pub open spec fn reachable(edges: Seq<(usize, usize)>, a: usize, b: usize) -> bool {
    exists|p: Seq<usize>| #[trigger] is_path(edges, p) && p.first() == a && p.last() == b
}

/// Some walk of at least one edge leads from `n` back to `n`.
pub open spec fn on_cycle(edges: Seq<(usize, usize)>, n: usize) -> bool {
    exists|p: Seq<usize>|
        #[trigger] is_path(edges, p) && p.len() >= 2 && p.first() == n && p.last() == n
}

/// `order` lists each of the `n` nodes exactly once, every node before the
/// nodes that it has an edge to.
pub open spec fn is_topological_order(
    order: Seq<usize>,
    n: nat,
    edges: Seq<(usize, usize)>,
) -> bool {
    &&& order.len() == n
    &&& forall|i: int| 0 <= i < order.len() ==> #[trigger] order[i] < n
    &&& forall|v: usize| v < n ==> #[trigger] order.contains(v)
    &&& forall|i: int, j: int|
        0 <= i < order.len() && 0 <= j < order.len() && i != j ==> #[trigger] order[i]
            != #[trigger] order[j]
    &&& forall|i: int, j: int|
        0 <= i < order.len() && 0 <= j < order.len() && has_edge(
            edges,
            #[trigger] order[i],
            #[trigger] order[j],
        ) ==> i < j
}

/// The neighbours of `a` along the edges, the most recently added edge
/// first: the targets of the edges that leave `a` if `outgoing`, the
/// sources of the edges that enter `a` if not.
pub open spec fn neighbors(edges: Seq<(usize, usize)>, a: usize, outgoing: bool) -> Seq<usize>
    decreases edges.len(),
{
    if edges.len() == 0 {
        Seq::empty()
    } else {
        let e = edges.last();
        let rest = neighbors(edges.drop_last(), a, outgoing);
        if outgoing && e.0 == a {
            seq![e.1] + rest
        } else if !outgoing && e.1 == a {
            seq![e.0] + rest
        } else {
            rest
        }
    }
}

/// `petgraph::graph::Graph::new`: a graph without nodes or edges.
#[verifier::external_body]
fn graph_new() -> (g: Dag)
    ensures
        graph_nodes(g) == Seq::<(bool, u32)>::empty(),
        graph_edges(g) == Seq::<(usize, usize)>::empty(),
{
    petgraph::graph::Graph::new()
}

/// `Graph::node_count`: the number of nodes.
#[verifier::external_body]
fn graph_node_count(g: &Dag) -> (n: usize)
    ensures
        n == graph_nodes(*g).len(),
{
    g.node_count()
}

/// `Graph::edge_count`: the number of edges.
#[verifier::external_body]
fn graph_edge_count(g: &Dag) -> (n: usize)
    ensures
        n == graph_edges(*g).len(),
{
    g.edge_count()
}

/// `Graph::add_node`: appends a node with the given weight and returns its
/// index, which is the number of nodes before the call. The edges stay.
/// `petgraph` panics when the index type is exhausted, which the
/// precondition excludes.
#[verifier::external_body]
fn graph_add_node(g: &mut Dag, weight: (bool, u32)) -> (idx: usize)
    requires
        graph_nodes(*old(g)).len() < GRAPH_LIMIT,
    ensures
        graph_nodes(*final(g)) == graph_nodes(*old(g)).push(weight),
        graph_edges(*final(g)) == graph_edges(*old(g)),
        idx == graph_nodes(*old(g)).len(),
{
    g.add_node(weight).index()
}

/// `Graph::add_edge`: appends an edge from node `a` to node `b`. The nodes
/// stay. `petgraph` panics when a node does not exist or when the index
/// type is exhausted, which the precondition excludes.
#[verifier::external_body]
fn graph_add_edge(g: &mut Dag, a: usize, b: usize)
    requires
        a < graph_nodes(*old(g)).len(),
        b < graph_nodes(*old(g)).len(),
        graph_edges(*old(g)).len() < GRAPH_LIMIT,
    ensures
        graph_nodes(*final(g)) == graph_nodes(*old(g)),
        graph_edges(*final(g)) == graph_edges(*old(g)).push((a, b)),
{
    g.add_edge(petgraph::graph::NodeIndex::new(a), petgraph::graph::NodeIndex::new(b), ());
}

/// `Graph::node_weight`: the weight of node `a`, or `None` when the graph
/// has no such node.
#[verifier::external_body]
fn graph_node_weight(g: &Dag, a: usize) -> (w: Option<(bool, u32)>)
    requires
        a <= GRAPH_LIMIT,
    ensures
        a < graph_nodes(*g).len() ==> w == Some(graph_nodes(*g)[a as int]),
        a >= graph_nodes(*g).len() ==> w is None,
{
    g.node_weight(petgraph::graph::NodeIndex::new(a)).copied()
}

/// `Graph::neighbors_directed`: the neighbours of node `a` in one
/// direction. In a directed graph `petgraph` lists them in reverse order
/// of the addition of their edges.
#[verifier::external_body]
fn graph_neighbors(g: &Dag, a: usize, outgoing: bool) -> (r: Vec<usize>)
    requires
        a <= GRAPH_LIMIT,
    ensures
        r@ == neighbors(graph_edges(*g), a, outgoing),
{
    let dir = match outgoing {
        true => petgraph::Direction::Outgoing,
        false => petgraph::Direction::Incoming,
    };
    g.neighbors_directed(petgraph::graph::NodeIndex::new(a), dir).map(|n| n.index()).collect()
}

/// `petgraph::algo::toposort`: a topological order of the nodes when the
/// graph has no cycle; otherwise a node that lies on a cycle.
#[verifier::external_body]
fn graph_toposort(g: &Dag) -> (r: Result<Vec<usize>, usize>)
    ensures
        match r {
            Ok(order) => is_topological_order(order@, graph_nodes(*g).len(), graph_edges(*g)),
            Err(n) => n < graph_nodes(*g).len() && on_cycle(graph_edges(*g), n),
        },
{
    match petgraph::algo::toposort(g, None) {
        Ok(order) => Ok(order.into_iter().map(|n| n.index()).collect()),
        Err(cycle) => Err(cycle.node_id().index()),
    }
}

/// `petgraph::algo::has_path_connecting`: whether a walk leads from node
/// `from` to node `to`; a node reaches itself.
#[verifier::external_body]
fn graph_has_path(g: &Dag, from: usize, to: usize) -> (r: bool)
    requires
        from < graph_nodes(*g).len(),
        to < graph_nodes(*g).len(),
    ensures
        r == reachable(graph_edges(*g), from, to),
{
    petgraph::algo::has_path_connecting(
        g,
        petgraph::graph::NodeIndex::new(from),
        petgraph::graph::NodeIndex::new(to),
        None,
    )
}

/// `Graph::edge_endpoints`: the source and the target of edge `k`.
#[verifier::external_body]
fn graph_edge_endpoints(g: &Dag, k: usize) -> (ends: (usize, usize))
    requires
        k < graph_edges(*g).len(),
        k <= GRAPH_LIMIT,
    ensures
        ends == graph_edges(*g)[k as int],
{
    let (source, target) = g.edge_endpoints(petgraph::graph::EdgeIndex::new(k)).unwrap();
    (source.index(), target.index())
}

/// Some node lies on a cycle.
pub open spec fn has_cycle(edges: Seq<(usize, usize)>) -> bool {
    exists|n: usize| #[trigger] on_cycle(edges, n)
}

/// Some node carries the id `id`.
pub open spec fn has_id(nodes: Seq<(bool, u32)>, id: u32) -> bool {
    exists|i: int| 0 <= i < nodes.len() && (#[trigger] nodes[i]).1 == id
}

/// The index of a node that carries the id `id`.
pub open spec fn index_of(nodes: Seq<(bool, u32)>, id: u32) -> usize {
    (choose|i: int| 0 <= i < nodes.len() && (#[trigger] nodes[i]).1 == id) as usize
}

/// The nodes after the element `elt` was looked up: a new node is
/// appended for an id that no node carries yet.
pub open spec fn with_node(nodes: Seq<(bool, u32)>, elt: (bool, u32)) -> Seq<(bool, u32)> {
    if has_id(nodes, elt.1) {
        nodes
    } else {
        nodes.push(elt)
    }
}

/// No two nodes carry the same id.
pub open spec fn ids_unique(nodes: Seq<(bool, u32)>) -> bool {
    forall|i: int, j: int|
        0 <= i < nodes.len() && 0 <= j < nodes.len() && (#[trigger] nodes[i]).1 == (
        #[trigger] nodes[j]).1 ==> i == j
}

/// Both ends of every edge are nodes.
pub open spec fn edges_in_range(edges: Seq<(usize, usize)>, n: nat) -> bool {
    forall|k: int| 0 <= k < edges.len() ==> (#[trigger] edges[k]).0 < n && edges[k].1 < n
}

/// The weights of the nodes with the given indices.
pub open spec fn weights_at(nodes: Seq<(bool, u32)>, indices: Seq<usize>) -> Seq<(bool, u32)> {
    Seq::new(indices.len(), |k: int| nodes[indices[k] as int])
}

/// With unique ids, the node at index `i` is the one found by its id.
pub proof fn lemma_index_of(nodes: Seq<(bool, u32)>, i: int)
    requires
        ids_unique(nodes),
        0 <= i < nodes.len() <= usize::MAX,
    ensures
        has_id(nodes, nodes[i].1),
        index_of(nodes, nodes[i].1) == i,
{
    let id = nodes[i].1;
    let j = choose|j: int| 0 <= j < nodes.len() && (#[trigger] nodes[j]).1 == id;
    assert(nodes[j].1 == nodes[i].1);
}

/// A lookup keeps the nodes that were there, keeps the ids unique, and
/// makes the id known.
pub proof fn lemma_with_node(nodes: Seq<(bool, u32)>, elt: (bool, u32))
    requires
        ids_unique(nodes),
    ensures
        ids_unique(with_node(nodes, elt)),
        has_id(with_node(nodes, elt), elt.1),
        nodes.len() <= with_node(nodes, elt).len() <= nodes.len() + 1,
        forall|i: int| 0 <= i < nodes.len() ==> with_node(nodes, elt)[i] == nodes[i],
        forall|id: u32| has_id(nodes, id) ==> has_id(with_node(nodes, elt), id),
        forall|id: u32|
            has_id(nodes, id) ==> index_of(with_node(nodes, elt), id) == index_of(nodes, id),
{
    let after = with_node(nodes, elt);
    if has_id(nodes, elt.1) {
    } else {
        assert(after[nodes.len() as int] == elt);
        assert forall|i: int, j: int|
            0 <= i < after.len() && 0 <= j < after.len() && (#[trigger] after[i]).1 == (
            #[trigger] after[j]).1 implies i == j by {
            if i < nodes.len() && j < nodes.len() {
                assert(nodes[i].1 == nodes[j].1);
            } else if i < nodes.len() {
                assert(nodes[i].1 == elt.1);
            } else if j < nodes.len() {
                assert(nodes[j].1 == elt.1);
            }
        }
        assert forall|id: u32| has_id(nodes, id) implies has_id(after, id) && index_of(after, id)
            == index_of(nodes, id) by {
            let i = choose|i: int| 0 <= i < nodes.len() && (#[trigger] nodes[i]).1 == id;
            assert(after[i].1 == id);
            let j = choose|j: int| 0 <= j < after.len() && (#[trigger] after[j]).1 == id;
            assert(after[j].1 == after[i].1);
        }
    }
}

/// Along a walk of a graph that has a topological order, positions in
/// the order never decrease, and they increase when the walk has an edge.
pub proof fn lemma_path_follows_order(
    order: Seq<usize>,
    n: nat,
    edges: Seq<(usize, usize)>,
    p: Seq<usize>,
    i: int,
    j: int,
)
    requires
        is_topological_order(order, n, edges),
        edges_in_range(edges, n),
        is_path(edges, p),
        0 <= i < order.len(),
        0 <= j < order.len(),
        order[i] == p.first(),
        order[j] == p.last(),
    ensures
        i <= j,
        p.len() >= 2 ==> i < j,
    decreases p.len(),
{
    if p.len() == 1 {
        if i != j {
            assert(order[i] != order[j]);
        }
    } else {
        let q = p.drop_last();
        assert(q.len() >= 1);
        assert forall|k: int| 0 <= k < q.len() - 1 implies has_edge(
            edges,
            #[trigger] q[k],
            q[k + 1],
        ) by {
            assert(q[k] == p[k]);
            assert(q[k + 1] == p[k + 1]);
        }
        let last2 = p.len() - 2;
        assert(has_edge(edges, p[last2], p[last2 + 1]));
        let e = choose|e: int| 0 <= e < edges.len() && edges[e] == (p[last2], p[last2 + 1]);
        assert(edges[e].0 < n);
        let mid = q.last();
        assert(mid == p[last2]);
        assert(order.contains(mid));
        let m = choose|m: int| 0 <= m < order.len() && order[m] == mid;
        lemma_path_follows_order(order, n, edges, q, i, m);
        assert(has_edge(edges, order[m], order[j]));
    }
}

/// A graph that has a topological order has no cycle.
pub proof fn lemma_topological_order_acyclic(
    order: Seq<usize>,
    n: nat,
    edges: Seq<(usize, usize)>,
)
    requires
        is_topological_order(order, n, edges),
        edges_in_range(edges, n),
    ensures
        !has_cycle(edges),
{
    if has_cycle(edges) {
        let v = choose|v: usize| #[trigger] on_cycle(edges, v);
        let p = choose|p: Seq<usize>|
            #[trigger] is_path(edges, p) && p.len() >= 2 && p.first() == v && p.last() == v;
        assert(has_edge(edges, p[0], p[1]));
        let e = choose|e: int| 0 <= e < edges.len() && edges[e] == (p[0], p[1]);
        assert(edges[e].0 < n);
        assert(order.contains(v));
        let i = choose|i: int| 0 <= i < order.len() && order[i] == v;
        lemma_path_follows_order(order, n, edges, p, i, i);
    }
}

/// In a topological order, a node comes before every other node that it
/// reaches.
pub proof fn lemma_reachable_follows_order(
    order: Seq<usize>,
    n: nat,
    edges: Seq<(usize, usize)>,
    i: int,
    j: int,
)
    requires
        is_topological_order(order, n, edges),
        edges_in_range(edges, n),
        0 <= i < order.len(),
        0 <= j < order.len(),
        reachable(edges, order[i], order[j]),
    ensures
        i <= j,
{
    let p = choose|p: Seq<usize>|
        #[trigger] is_path(edges, p) && p.first() == order[i] && p.last() == order[j];
    lemma_path_follows_order(order, n, edges, p, i, j);
}

/// The neighbours of a node are ends of edges.
pub proof fn lemma_neighbors_in_range(
    edges: Seq<(usize, usize)>,
    n: nat,
    a: usize,
    outgoing: bool,
)
    requires
        edges_in_range(edges, n),
    ensures
        forall|k: int|
            0 <= k < neighbors(edges, a, outgoing).len() ==> {
                let b = #[trigger] neighbors(edges, a, outgoing)[k];
                &&& b < n
                &&& outgoing ==> has_edge(edges, a, b)
                &&& !outgoing ==> has_edge(edges, b, a)
            },
    decreases edges.len(),
{
    if edges.len() > 0 {
        let rest_edges = edges.drop_last();
        let rest = neighbors(rest_edges, a, outgoing);
        assert forall|k: int| 0 <= k < rest_edges.len() implies (#[trigger] rest_edges[k]).0 < n
            && rest_edges[k].1 < n by {
            assert(rest_edges[k] == edges[k]);
        }
        lemma_neighbors_in_range(rest_edges, n, a, outgoing);
        let e = edges.last();
        assert(edges[edges.len() - 1] == e);
        let all = neighbors(edges, a, outgoing);
        assert forall|k: int| 0 <= k < all.len() implies {
            let b = #[trigger] all[k];
            &&& b < n
            &&& outgoing ==> has_edge(edges, a, b)
            &&& !outgoing ==> has_edge(edges, b, a)
        } by {
            let b = all[k];
            let shifted = (outgoing && e.0 == a) || (!outgoing && e.1 == a);
            if shifted && k == 0 {
                if outgoing {
                    assert(edges[edges.len() - 1] == (a, b));
                } else {
                    assert(edges[edges.len() - 1] == (b, a));
                }
            } else {
                let kk = if shifted {
                    k - 1
                } else {
                    k
                };
                assert(rest[kk] == b);
                if outgoing {
                    assert(has_edge(rest_edges, a, b));
                    let w = choose|w: int| 0 <= w < rest_edges.len() && rest_edges[w] == (a, b);
                    assert(edges[w] == (a, b));
                } else {
                    assert(has_edge(rest_edges, b, a));
                    let w = choose|w: int| 0 <= w < rest_edges.len() && rest_edges[w] == (b, a);
                    assert(edges[w] == (b, a));
                }
            }
        }
    }
}

/// The edge that records a dependency between the elements with the ids
/// `from` and `to`: it leaves `from` when `from` affects `to`, and enters
/// `from` when `from` uses `to`.
pub open spec fn dependency_edge(
    nodes: Seq<(bool, u32)>,
    from: u32,
    to: u32,
    kind: DependencyKind,
) -> (usize, usize) {
    match kind {
        DependencyKind::Affects => (index_of(nodes, from), index_of(nodes, to)),
        DependencyKind::Use => (index_of(nodes, to), index_of(nodes, from)),
    }
}

/// The text of the error for a cycle through the element with the packed
/// id `id`.
pub open spec fn cycle_message(id: u32) -> Seq<char> {
    "Dependency cycle containing "@ + (GlobalId { raw: id }).spec_display()
}

/// How a node is written in a dump of a graph: as the registry writes the
/// reaction or the component that the node stands for, or, where the
/// registry does not know the reactor, as the id alone.
pub open spec fn dot_label(registry: IdRegistry, w: (bool, u32)) -> Seq<char> {
    let id = GlobalId { raw: w.1 };
    if id.spec_container().raw >= registry.paths().len() {
        id.spec_display()
    } else if w.0 {
        registry.spec_reaction(GlobalReactionId(id))
    } else {
        registry.spec_component(id)
    }
}

/// The lines of the first `k` nodes in a dump of a graph.
pub open spec fn dot_nodes(registry: IdRegistry, nodes: Seq<(bool, u32)>, k: nat) -> Seq<char>
    decreases k,
{
    if k == 0 {
        Seq::empty()
    } else {
        dot_nodes(registry, nodes, (k - 1) as nat) + "node "@ + decimal((k - 1) as nat)
            + " [ label = \""@ + dot_label(registry, nodes[k - 1]) + "\" ]; "@
    }
}

/// The lines of the first `k` edges in a dump of a graph.
pub open spec fn dot_edges(edges: Seq<(usize, usize)>, k: nat) -> Seq<char>
    decreases k,
{
    if k == 0 {
        Seq::empty()
    } else {
        dot_edges(edges, (k - 1) as nat) + decimal(edges[k - 1].0 as nat) + " -> "@ + decimal(
            edges[k - 1].1 as nat,
        ) + "; "@
    }
}

/// The dump of a graph in the DOT language: a line for each node, with
/// its index and its label, then a line for each edge, from the index of
/// its source to that of its target.
pub open spec fn dot_text(
    registry: IdRegistry,
    nodes: Seq<(bool, u32)>,
    edges: Seq<(usize, usize)>,
) -> Seq<char> {
    "digraph {"@ + dot_nodes(registry, nodes, nodes.len()) + dot_edges(edges, edges.len()) + "}"@
}

/// The two directions in which the edges at a node can be followed.
#[derive(Debug, Clone, Copy, PartialEq, Eq, Structural)]
pub enum Direction {
    Outgoing,
    Incoming,
}

/// A directed graph whose nodes are found by the id that they carry.
pub struct GraphWrapper {
    graph: Dag,
    graph_ids: HashMap<u32, usize>,
}

impl Default for GraphWrapper {
    fn default() -> (g: Self)
        ensures
            g.wf(),
            g.nodes() == Seq::<(bool, u32)>::empty(),
            g.edges() == Seq::<(usize, usize)>::empty(),
    {
        GraphWrapper::new()
    }
}

impl GraphWrapper {
    /// The weights of the nodes, by node index.
    pub closed spec fn nodes(&self) -> Seq<(bool, u32)> {
        graph_nodes(self.graph)
    }

    /// The edges as pairs (source, target) of node indices, oldest first.
    pub closed spec fn edges(&self) -> Seq<(usize, usize)> {
        graph_edges(self.graph)
    }

    /// The table of ids holds exactly the ids of the nodes, each with the
    /// index of its node.
    pub closed spec fn table_agrees(&self) -> bool {
        &&& forall|id: u32| #[trigger]
            self.graph_ids@.contains_key(id) ==> self.graph_ids@[id] < self.nodes().len()
                && self.nodes()[self.graph_ids@[id] as int].1 == id
        &&& forall|i: int|
            0 <= i < self.nodes().len() ==> self.graph_ids@.contains_key(
                (#[trigger] self.nodes()[i]).1,
            ) && self.graph_ids@[self.nodes()[i].1] == i
    }

    /// The invariant of the graph.
    pub open spec fn wf(&self) -> bool {
        &&& self.table_agrees()
        &&& ids_unique(self.nodes())
        &&& edges_in_range(self.edges(), self.nodes().len())
        &&& self.nodes().len() <= GRAPH_LIMIT
        &&& self.edges().len() <= GRAPH_LIMIT
    }

    proof fn lemma_table(&self)
        requires
            self.table_agrees(),
            self.nodes().len() <= GRAPH_LIMIT,
        ensures
            ids_unique(self.nodes()),
            forall|id: u32| #[trigger]
                self.graph_ids@.contains_key(id) <==> has_id(self.nodes(), id),
            forall|id: u32| #[trigger]
                self.graph_ids@.contains_key(id) ==> self.graph_ids@[id] == index_of(
                    self.nodes(),
                    id,
                ),
    {
        let nodes = self.nodes();
        assert forall|i: int, j: int|
            0 <= i < nodes.len() && 0 <= j < nodes.len() && (#[trigger] nodes[i]).1 == (
            #[trigger] nodes[j]).1 implies i == j by {
            assert(self.graph_ids@[nodes[i].1] == i);
            assert(self.graph_ids@[nodes[j].1] == j);
        }
        assert forall|id: u32| #[trigger] self.graph_ids@.contains_key(id) implies has_id(
            nodes,
            id,
        ) && self.graph_ids@[id] == index_of(nodes, id) by {
            let i = self.graph_ids@[id] as int;
            assert(nodes[i].1 == id);
            lemma_index_of(nodes, i);
        }
        assert forall|id: u32| has_id(nodes, id) implies #[trigger] self.graph_ids@.contains_key(
            id,
        ) by {
            let i = choose|i: int| 0 <= i < nodes.len() && (#[trigger] nodes[i]).1 == id;
            assert(self.graph_ids@.contains_key(nodes[i].1));
        }
    }

    /// A graph without nodes or edges.
    pub fn new() -> (g: Self)
        ensures
            g.wf(),
            g.nodes() == Seq::<(bool, u32)>::empty(),
            g.edges() == Seq::<(usize, usize)>::empty(),
    {
        GraphWrapper { graph: graph_new(), graph_ids: HashMap::new() }
    }

    /// The number of nodes.
    pub fn node_count(&self) -> (n: usize)
        ensures
            n == self.nodes().len(),
    {
        graph_node_count(&self.graph)
    }

    /// The number of edges.
    pub fn edge_count(&self) -> (n: usize)
        ensures
            n == self.edges().len(),
    {
        graph_edge_count(&self.graph)
    }

    /// The index of the node that carries the id of `elt`. Where no node
    /// carries it, a node with the weight `elt` is added first.
    pub fn get_node(&mut self, elt: (bool, u32)) -> (gid: usize)
        requires
            old(self).wf(),
            old(self).nodes().len() < GRAPH_LIMIT,
        ensures
            final(self).wf(),
            final(self).edges() == old(self).edges(),
            final(self).nodes() == with_node(old(self).nodes(), elt),
            gid == index_of(final(self).nodes(), elt.1),
            gid < final(self).nodes().len(),
            final(self).nodes()[gid as int].1 == elt.1,
    {
        broadcast use vstd::std_specs::hash::group_hash_axioms;

        proof {
            self.lemma_table();
            lemma_with_node(self.nodes(), elt);
        }
        let found = self.graph_ids.get(&elt.1);
        if let Some(gid) = found {
            let gid = *gid;
            proof {
                lemma_index_of(self.nodes(), gid as int);
            }
            gid
        } else {
            let gid = graph_add_node(&mut self.graph, elt);
            self.graph_ids.insert(elt.1, gid);
            proof {
                let nodes = self.nodes();
                assert(nodes == old(self).nodes().push(elt));
                assert(nodes[gid as int] == elt);
                assert forall|id: u32| #[trigger]
                    self.graph_ids@.contains_key(id) implies self.graph_ids@[id] < nodes.len()
                    && nodes[self.graph_ids@[id] as int].1 == id by {
                    if id != elt.1 {
                        assert(old(self).graph_ids@.contains_key(id));
                    }
                }
                assert forall|i: int| 0 <= i < nodes.len() implies self.graph_ids@.contains_key(
                    (#[trigger] nodes[i]).1,
                ) && self.graph_ids@[nodes[i].1] == i by {
                    if i < old(self).nodes().len() {
                        assert(nodes[i] == old(self).nodes()[i]);
                        assert(old(self).graph_ids@.contains_key(old(self).nodes()[i].1));
                    }
                }
                lemma_index_of(nodes, gid as int);
            }
            gid
        }
    }
    /// The index of the node that carries the id `id`, if there is one.
    pub fn find(&self, id: u32) -> (r: Option<usize>)
        requires
            self.wf(),
        ensures
            r is Some <==> has_id(self.nodes(), id),
            r matches Some(gid) ==> gid == index_of(self.nodes(), id) && gid < self.nodes().len()
                && self.nodes()[gid as int].1 == id,
    {
        broadcast use vstd::std_specs::hash::group_hash_axioms;

        proof {
            self.lemma_table();
        }
        match self.graph_ids.get(&id) {
            Some(gid) => Some(*gid),
            None => None,
        }
    }

    /// Adds an edge from node `a` to node `b`.
    pub fn add_edge(&mut self, a: usize, b: usize)
        requires
            old(self).wf(),
            a < old(self).nodes().len(),
            b < old(self).nodes().len(),
            old(self).edges().len() < GRAPH_LIMIT,
        ensures
            final(self).wf(),
            final(self).nodes() == old(self).nodes(),
            final(self).edges() == old(self).edges().push((a, b)),
    {
        graph_add_edge(&mut self.graph, a, b);
        proof {
            let edges = self.edges();
            let before = old(self).edges();
            assert forall|k: int| 0 <= k < edges.len() implies (#[trigger] edges[k]).0
                < self.nodes().len() && edges[k].1 < self.nodes().len() by {
                if k < before.len() {
                    assert(edges[k] == before[k]);
                }
            }
        }
    }

    /// Records a dependency between two elements, which become nodes if
    /// they are none yet. The edge leaves `from` when `from` affects `to`;
    /// it enters `from` when `from` uses `to`.
    pub fn add_dependency(&mut self, from: (bool, u32), to: (bool, u32), kind: DependencyKind) -> (r:
        Result<(), AssemblyError>)
        requires
            old(self).wf(),
            old(self).nodes().len() + 2 <= GRAPH_LIMIT,
            old(self).edges().len() < GRAPH_LIMIT,
        ensures
            final(self).wf(),
            r is Ok,
            final(self).nodes() == with_node(with_node(old(self).nodes(), from), to),
            final(self).edges() == old(self).edges().push(
                dependency_edge(final(self).nodes(), from.1, to.1, kind),
            ),
    {
        proof {
            lemma_with_node(self.nodes(), from);
            lemma_with_node(with_node(self.nodes(), from), to);
        }
        let rid = self.get_node(from);
        let pid = self.get_node(to);
        assert(rid == index_of(self.nodes(), from.1));
        match kind {
            DependencyKind::Affects => self.add_edge(rid, pid),
            DependencyKind::Use => self.add_edge(pid, rid),
        }
        Ok(())
    }

    /// A topological order of the nodes, or the error that names an
    /// element on a cycle.
    pub fn toposorted(&self) -> (r: Result<Vec<usize>, AssemblyError>)
        requires
            self.wf(),
        ensures
            r is Ok <==> !has_cycle(self.edges()),
            r matches Ok(order) ==> is_topological_order(
                order@,
                self.nodes().len(),
                self.edges(),
            ),
            r matches Err(e) ==> exists|n: usize|
                n < self.nodes().len() && #[trigger] on_cycle(self.edges(), n) && (
                e matches AssemblyError::CyclicDependency(msg) && msg@ == cycle_message(
                    self.nodes()[n as int].1,
                )),
    {
        match graph_toposort(&self.graph) {
            Err(n) => {
                let id = self.to_elt(n).1;
                let mut msg = String::from_str("Dependency cycle containing ");
                (GlobalId { raw: id }).push_display(&mut msg);
                assert(on_cycle(self.edges(), n));
                Err(AssemblyError::CyclicDependency(msg))
            },
            Ok(order) => {
                proof {
                    lemma_topological_order_acyclic(order@, self.nodes().len(), self.edges());
                }
                Ok(order)
            },
        }
    }

    /// Whether a walk along the edges leads from node `from` to node `to`.
    pub fn connects(&self, from: usize, to: usize) -> (r: bool)
        requires
            from < self.nodes().len(),
            to < self.nodes().len(),
        ensures
            r == reachable(self.edges(), from, to),
    {
        graph_has_path(&self.graph, from, to)
    }

    /// The indices of the neighbours of node `gid` in one direction, the
    /// most recently added edge first.
    pub fn neighbor_indices(&self, gid: usize, direction: Direction) -> (r: Vec<usize>)
        requires
            self.wf(),
            gid < self.nodes().len(),
        ensures
            r@ == neighbors(self.edges(), gid, direction == Direction::Outgoing),
            forall|k: int| 0 <= k < r@.len() ==> #[trigger] r@[k] < self.nodes().len(),
    {
        let outgoing = match direction {
            Direction::Outgoing => true,
            Direction::Incoming => false,
        };
        proof {
            lemma_neighbors_in_range(self.edges(), self.nodes().len(), gid, outgoing);
        }
        graph_neighbors(&self.graph, gid, outgoing)
    }

    /// The neighbours of the element `elt` in one direction, the most
    /// recently added edge first.
    pub fn iter_neighbors(&self, elt: (bool, u32), direction: Direction) -> (r: Vec<(bool, u32)>)
        requires
            self.wf(),
            has_id(self.nodes(), elt.1),
        ensures
            r@ == weights_at(
                self.nodes(),
                neighbors(
                    self.edges(),
                    index_of(self.nodes(), elt.1),
                    direction == Direction::Outgoing,
                ),
            ),
    {
        let gid = self.find(elt.1).unwrap();
        let indices = self.neighbor_indices(gid, direction);
        let mut out: Vec<(bool, u32)> = Vec::new();
        let mut k: usize = 0;
        while k < indices.len()
            invariant
                self.wf(),
                k <= indices.len(),
                out@.len() == k,
                forall|j: int| 0 <= j < indices@.len() ==> #[trigger] indices@[j] < self.nodes().len(),
                forall|j: int| 0 <= j < k ==> #[trigger] out@[j] == self.nodes()[indices@[j] as int],
            decreases indices.len() - k,
        {
            let w = self.to_elt(indices[k]);
            out.push(w);
            k += 1;
        }
        assert(out@ =~= weights_at(self.nodes(), indices@));
        out
    }

    /// The elements of all nodes, by node index.
    pub fn iter_nodes(&self) -> (r: Vec<(bool, u32)>)
        requires
            self.wf(),
        ensures
            r@ == self.nodes(),
    {
        let n = self.node_count();
        let mut out: Vec<(bool, u32)> = Vec::new();
        let mut k: usize = 0;
        while k < n
            invariant
                self.wf(),
                n == self.nodes().len(),
                k <= n,
                out@.len() == k,
                forall|j: int| 0 <= j < k ==> #[trigger] out@[j] == self.nodes()[j],
            decreases n - k,
        {
            let w = self.to_elt(k);
            out.push(w);
            k += 1;
        }
        assert(out@ =~= self.nodes());
        out
    }

    /// The element of node `gid`.
    pub fn to_elt(&self, gid: usize) -> (w: (bool, u32))
        requires
            gid < self.nodes().len(),
            self.nodes().len() <= GRAPH_LIMIT,
        ensures
            w == self.nodes()[gid as int],
    {
        graph_node_weight(&self.graph, gid).unwrap()
    }
    /// The source and the target of edge `k`.
    pub fn edge(&self, k: usize) -> (ends: (usize, usize))
        requires
            self.wf(),
            k < self.edges().len(),
        ensures
            ends == self.edges()[k as int],
            ends.0 < self.nodes().len(),
            ends.1 < self.nodes().len(),
    {
        graph_edge_endpoints(&self.graph, k)
    }

    /// Appends to `s` how node `gid` is written in a dump.
    fn push_label(&self, registry: &IdRegistry, gid: usize, s: &mut String)
        requires
            self.wf(),
            gid < self.nodes().len(),
        ensures
            final(s)@ == old(s)@ + dot_label(*registry, self.nodes()[gid as int]),
    {
        let w = self.to_elt(gid);
        let id = GlobalId { raw: w.1 };
        let text = if id.container().index() >= registry.reactor_count() {
            id.display()
        } else if w.0 {
            registry.fmt_reaction(GlobalReactionId(id))
        } else {
            registry.fmt_component(id)
        };
        s.append(text.as_str());
    }

    /// The dump of the graph in the DOT language, for diagnostics. The
    /// nodes are labelled as `registry` writes them.
    pub fn to_dot(&self, registry: &IdRegistry) -> (s: String)
        requires
            self.wf(),
        ensures
            s@ == dot_text(*registry, self.nodes(), self.edges()),
    {
        let mut s = String::from_str("digraph {");
        let ghost head = s@;
        let n = self.node_count();
        let mut k: usize = 0;
        assert(s@ =~= head + dot_nodes(*registry, self.nodes(), 0));
        while k < n
            invariant
                self.wf(),
                n == self.nodes().len(),
                k <= n,
                s@ == head + dot_nodes(*registry, self.nodes(), k as nat),
            decreases n - k,
        {
            let ghost before = s@;
            s.append("node ");
            push_decimal(&mut s, k as u32);
            s.append(" [ label = \"");
            self.push_label(registry, k, &mut s);
            s.append("\" ]; ");
            k += 1;
            assert(s@ =~= head + dot_nodes(*registry, self.nodes(), k as nat));
        }
        let ghost middle = s@;
        let m = self.edge_count();
        let mut k: usize = 0;
        assert(s@ =~= middle + dot_edges(self.edges(), 0));
        while k < m
            invariant
                self.wf(),
                m == self.edges().len(),
                k <= m,
                s@ == middle + dot_edges(self.edges(), k as nat),
            decreases m - k,
        {
            let (source, target) = self.edge(k);
            push_decimal(&mut s, source as u32);
            s.append(" -> ");
            push_decimal(&mut s, target as u32);
            s.append("; ");
            k += 1;
            assert(s@ =~= middle + dot_edges(self.edges(), k as nat));
        }
        s.append("}");
        assert(s@ =~= dot_text(*registry, self.nodes(), self.edges()));
        s
    }
}

} // verus!
