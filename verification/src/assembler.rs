//! The assembly of a reactor program: the one pass in which the reactors
//! declare their components and the dependencies between them.

use crate::action::Action;
use crate::error::{AssemblyError, DependencyKind};
use crate::flowgraph::{
    all_registered, cause_downstream_affected, component_weight, lemma_registered_with_node,
    lemma_registered_with_reactions, priority_edges, reaction_weight, with_reactions, FlowGraph,
    Schedulable,
};
use crate::graph::{
    cycle_message, dot_text, dependency_edge, has_cycle, index_of, is_topological_order, neighbors, on_cycle,
    with_node, GRAPH_LIMIT,
};
use crate::ids::{
    pack, GlobalId, GlobalReactionId, IdRegistry, LocalReactionId, ReactorDebugInfo, ReactorId,
};
use crate::ports::{BindStatus, Port, PortBank, PortKind};
use vstd::prelude::*;
use vstd::string::StringExecFns;

verus! {

/// Largest number of reactors of a program, and of components of one
/// reactor.
pub const ID_SPAN: usize = 0x1_0000;

/// A reactor: what a program is composed of. The ports of a program live
/// in banks, one for each type of value; `B` is what holds the banks of
/// the program.
pub trait Reactor<B>: Sized {
    /// The state of an instance.
    type State;

    /// The names of the reactions, in the order of their declaration.
    /// The reaction at index `k` has the local id `k`.
    fn reaction_names() -> Vec<&'static str>;

    /// The state in which an instance starts.
    fn initial_state() -> Self::State;

    /// A name for the type of the reactor, for diagnostics.
    fn type_label() -> &'static str;

    /// Declares the components of an instance and their dependencies.
    fn assemble(assembler: &mut Assembler, banks: &mut B) -> Result<Self, AssemblyError>;
}

/// The reactor at the top of a program. It has no reactions: it holds
/// sub-reactors and the connections between them.
pub trait WorldReactor<B>: Sized {
    /// Declares the sub-reactors and their connections.
    fn assemble(assembler: &mut Assembler, banks: &mut B) -> Result<Self, AssemblyError>;
}

/// An assembled reactor.
pub struct RunnableReactor<R, S> {
    me: R,
    global_id: GlobalId,
    state: S,
}

impl<R, S> RunnableReactor<R, S> {
    /// The reactor as it was assembled.
    pub closed spec fn spec_reactor(&self) -> R {
        self.me
    }

    /// The id under which the parent of the reactor knows it.
    pub closed spec fn spec_global_id(&self) -> GlobalId {
        self.global_id
    }

    /// The state of the reactor.
    pub closed spec fn spec_state(&self) -> S {
        self.state
    }

    /// The assembled reactor `reactor`, known as `global_id`, in the state
    /// `state`.
    pub fn new(reactor: R, global_id: GlobalId, state: S) -> (r: Self)
        ensures
            r.spec_reactor() == reactor,
            r.spec_global_id() == global_id,
            r.spec_state() == state,
    {
        RunnableReactor { me: reactor, global_id, state }
    }

    /// The state of the reactor.
    pub fn state(&self) -> (s: &S)
        ensures
            *s == self.spec_state(),
    {
        &self.state
    }

    /// The reactor as it was assembled, for access to its components.
    pub fn reactor(&self) -> (r: &R)
        ensures
            *r == self.spec_reactor(),
    {
        &self.me
    }

    /// The id under which the parent of the reactor knows it.
    pub fn global_id(&self) -> (id: GlobalId)
        ensures
            id == self.spec_global_id(),
    {
        self.global_id
    }
}

/// What is shared by the assembly of all reactors of a program.
pub struct GlobalAssembler {
    data_flow: FlowGraph,
    parents: Vec<Option<ReactorId>>,
    reaction_counts: Vec<usize>,
    registry: IdRegistry,
}

impl GlobalAssembler {
    /// The two dependency graphs.
    pub closed spec fn flow(&self) -> FlowGraph {
        self.data_flow
    }

    /// The parent of each reactor, by reactor id. The root has none.
    pub closed spec fn parents(&self) -> Seq<Option<ReactorId>> {
        self.parents@
    }

    /// The number of reactions of each reactor, by reactor id.
    pub closed spec fn reaction_counts(&self) -> Seq<usize> {
        self.reaction_counts@
    }

    /// The labels and paths kept for diagnostics.
    pub closed spec fn registry(&self) -> IdRegistry {
        self.registry
    }

    /// The invariant of the shared state: the graphs are well formed and
    /// hold registered reactions only, every reactor has a parent entry, a
    /// number of reactions and a path, and the reactions of every reactor
    /// are registered.
    pub open spec fn wf(&self) -> bool {
        &&& self.flow().wf()
        &&& self.flow().reactions_registered()
        &&& 1 <= self.parents().len() <= ID_SPAN
        &&& self.reaction_counts().len() == self.parents().len()
        &&& self.registry().paths().len() == self.parents().len()
        &&& forall|rid: int|
            0 <= rid < self.reaction_counts().len() ==> (#[trigger] self.reaction_counts()[rid])
                <= ID_SPAN
        &&& forall|rid: int, k: int|
            0 <= rid < self.reaction_counts().len() && 0 <= k < self.reaction_counts()[rid]
                ==> #[trigger] self.flow().registered().contains(pack(rid as u16, k as u16))
    }

    /// The two dependency graphs, to record dependencies in.
    pub fn flow_graph(&mut self) -> (graph: &mut FlowGraph)
        ensures
            *graph == old(self).flow(),
            final(self).flow() == *final(graph),
            final(self).parents() == old(self).parents(),
            final(self).reaction_counts() == old(self).reaction_counts(),
            final(self).registry() == old(self).registry(),
    {
        &mut self.data_flow
    }

    /// The shared state of a program that has its root reactor and
    /// nothing else.
    pub fn new() -> (g: Self)
        ensures
            g.wf(),
            g.parents() == seq![None::<ReactorId>],
            g.reaction_counts() == seq![0usize],
            g.flow().dataflow_nodes() == Seq::<(bool, u32)>::empty(),
            g.flow().dataflow_edges() == Seq::<(usize, usize)>::empty(),
            g.flow().trigger_nodes() == Seq::<(bool, u32)>::empty(),
            g.flow().trigger_edges() == Seq::<(usize, usize)>::empty(),
    {
        let mut parents: Vec<Option<ReactorId>> = Vec::new();
        parents.push(None);
        let mut reaction_counts: Vec<usize> = Vec::new();
        reaction_counts.push(0);
        let mut registry = IdRegistry::new();
        registry.record_reactor(&ReactorDebugInfo::root("world"));
        let g = GlobalAssembler { data_flow: FlowGraph::new(), parents, reaction_counts, registry };
        assert(g.parents() =~= seq![None::<ReactorId>]);
        assert(g.reaction_counts() =~= seq![0usize]);
        g
    }
}

/// Whether a list of names holds a name.
fn knows_name(names: &Vec<String>, name: &str) -> (found: bool)
    ensures
        found == exists|k: int| 0 <= k < names@.len() && (#[trigger] names@[k])@ == name@,
{
    let wanted = String::from_str(name);
    let mut k: usize = 0;
    while k < names.len()
        invariant
            k <= names@.len(),
            wanted@ == name@,
            forall|j: int| 0 <= j < k ==> (#[trigger] names@[j])@ != name@,
        decreases names@.len() - k,
    {
        if names[k] == wanted {
            return true;
        }
        k += 1;
    }
    false
}

/// The names of a list, as sequences of characters.
pub open spec fn texts(names: Seq<String>) -> Seq<Seq<char>> {
    Seq::new(names.len(), |k: int| names[k]@)
}

/// The texts of a list of names.
pub open spec fn name_texts(names: Seq<&'static str>) -> Seq<Seq<char>> {
    Seq::new(names.len(), |k: int| names[k]@)
}

/// Some name occurs twice in the list.
pub open spec fn repeats(names: Seq<Seq<char>>) -> bool {
    exists|i: int, j: int| 0 <= i < j < names.len() && #[trigger] names[i] == #[trigger] names[j]
}

/// The index of the first name of the list that occurs before it in the
/// list as well; `None` when no name occurs twice.
fn first_repeated(names: &Vec<&'static str>) -> (r: Option<usize>)
    ensures
        r is Some <==> repeats(name_texts(names@)),
        r matches Some(k) ==> k < names@.len() && exists|i: int|
            0 <= i < k && (#[trigger] names@[i])@ == names@[k as int]@,
{
    let mut seen: Vec<String> = Vec::new();
    let mut k: usize = 0;
    while k < names.len()
        invariant
            k <= names@.len(),
            seen@.len() == k,
            forall|j: int| 0 <= j < k ==> (#[trigger] seen@[j])@ == names@[j]@,
            forall|i: int, j: int|
                0 <= i < j < k ==> (#[trigger] names@[i])@ != (#[trigger] names@[j])@,
        decreases names@.len() - k,
    {
        if knows_name(&seen, names[k]) {
            proof {
                let i = choose|i: int|
                    0 <= i < seen@.len() && (#[trigger] seen@[i])@ == names@[k as int]@;
                assert(names@[i]@ == names@[k as int]@);
                assert(name_texts(names@)[i] == name_texts(names@)[k as int]);
            }
            return Some(k);
        }
        proof {
            assert forall|i: int| 0 <= i < k implies (#[trigger] names@[i])@ != names@[k as int]@ by {
                assert(seen@[i]@ == names@[i]@);
            }
        }
        seen.push(String::from_str(names[k]));
        k += 1;
    }
    proof {
        if repeats(name_texts(names@)) {
            let (i, j) = choose|i: int, j: int|
                0 <= i < j < name_texts(names@).len() && #[trigger] name_texts(names@)[i]
                    == #[trigger] name_texts(names@)[j];
            assert(names@[i]@ != names@[j]@);
        }
    }
    None
}

/// The reactions of the reactor `reactor`, which has `n` of them: the
/// reaction declared at index `k` has the local id `k`.
pub open spec fn reactions_of(reactor: ReactorId, n: nat) -> Seq<GlobalReactionId> {
    Seq::new(
        n,
        |k: int| GlobalReactionId(GlobalId::spec_new(reactor, LocalReactionId { raw: k as u16 })),
    )
}

/// What an assembler keeps of a reactor while a sub-reactor of it is
/// assembled: the reactor and its names.
pub struct ParentContext {
    id: ReactorId,
    local_names: Vec<String>,
}

impl ParentContext {
    /// The reactor.
    pub closed spec fn reactor_id(&self) -> ReactorId {
        self.id
    }

    /// The names given in the reactor.
    pub closed spec fn names(&self) -> Seq<Seq<char>> {
        texts(self.local_names@)
    }

    #[verifier::type_invariant]
    spec fn inv(&self) -> bool {
        &&& self.names().len() <= ID_SPAN
        &&& forall|i: int, j: int|
            0 <= i < self.names().len() && 0 <= j < self.names().len() && i != j
                ==> #[trigger] self.names()[i] != #[trigger] self.names()[j]
    }
}

/// Assembles a reactor: takes the declarations of its components and of
/// their dependencies, and checks each against the rules of the
/// structure of a program.
pub struct Assembler {
    id: ReactorId,
    local_names: Vec<String>,
    global: GlobalAssembler,
}

impl Assembler {
    /// The reactor that is being assembled.
    pub closed spec fn reactor_id(&self) -> ReactorId {
        self.id
    }

    /// The names given in this reactor so far. The component with the
    /// name at index `k` has the local id `k`.
    pub closed spec fn names(&self) -> Seq<Seq<char>> {
        texts(self.local_names@)
    }

    /// What is shared with the assembly of the other reactors.
    pub closed spec fn shared(&self) -> GlobalAssembler {
        self.global
    }

    /// The two dependency graphs.
    pub open spec fn flow(&self) -> FlowGraph {
        self.shared().flow()
    }

    /// The number of reactions of the reactor that is being assembled.
    pub open spec fn reaction_count(&self) -> usize {
        self.shared().reaction_counts()[self.reactor_id().raw as int]
    }

    /// The name was given in this reactor.
    pub open spec fn knows(&self, name: Seq<char>) -> bool {
        self.names().contains(name)
    }

    /// The component belongs to the reactor that is being assembled.
    pub open spec fn owns(&self, id: GlobalId) -> bool {
        id.spec_container() == self.reactor_id()
    }

    /// The component belongs to a sub-reactor of the reactor that is
    /// being assembled, and not to a sub-reactor of a sub-reactor.
    pub open spec fn owns_below(&self, id: GlobalId) -> bool {
        id.spec_container().raw < self.shared().parents().len()
            && self.shared().parents()[id.spec_container().raw as int]
            == Some(self.reactor_id())
    }

    /// What holds of every assembler: the shared state is well formed,
    /// the reactor that is being assembled is one of the program, its
    /// names are distinct and can be numbered, and its reactions come
    /// first among them.
    pub open spec fn wf(&self) -> bool {
        &&& self.shared().wf()
        &&& self.reactor_id().raw < self.shared().parents().len()
        &&& self.names().len() <= ID_SPAN
        &&& self.reaction_count() <= self.names().len()
        &&& forall|i: int, j: int|
            0 <= i < self.names().len() && 0 <= j < self.names().len() && i != j
                ==> #[trigger] self.names()[i] != #[trigger] self.names()[j]
    }

    #[verifier::type_invariant]
    spec fn inv(&self) -> bool {
        self.wf()
    }

    /// Every assembler is well formed.
    pub fn is_wf(&self)
        ensures
            self.wf(),
    {
        proof {
            use_type_invariant(self);
        }
    }

    /// The assembler of the root of a program.
    pub fn new() -> (a: Self)
        ensures
            a.reactor_id().raw == 0,
            a.names() == Seq::<Seq<char>>::empty(),
            a.shared().parents() == seq![None::<ReactorId>],
            a.reaction_count() == 0,
            a.flow().dataflow_nodes() == Seq::<(bool, u32)>::empty(),
            a.flow().dataflow_edges() == Seq::<(usize, usize)>::empty(),
            a.flow().trigger_nodes() == Seq::<(bool, u32)>::empty(),
            a.flow().trigger_edges() == Seq::<(usize, usize)>::empty(),
    {
        let a = Assembler {
            id: ReactorId::new_const(0),
            local_names: Vec::new(),
            global: GlobalAssembler::new(),
        };
        assert(a.names() =~= Seq::<Seq<char>>::empty());
        a
    }

    /// Takes the assembler out of `self` and leaves a fresh assembler in
    /// its place.
    fn take_apart(&mut self) -> (a: Assembler)
        ensures
            a == *old(self),
    {
        let mut taken = Assembler::new();
        std::mem::swap(self, &mut taken);
        taken
    }

    /// The reactor that is being assembled.
    pub fn get_reactor_id(&self) -> (id: ReactorId)
        ensures
            id == self.reactor_id(),
    {
        self.id
    }

    /// The number of names given in this reactor so far.
    pub fn name_count(&self) -> (n: usize)
        ensures
            n == self.names().len(),
    {
        self.local_names.len()
    }

    /// Whether the component belongs to the reactor that is being
    /// assembled.
    pub fn is_in_reactor(&self, id: GlobalId) -> (b: bool)
        ensures
            b == self.owns(id),
    {
        id.container().raw == self.id.raw
    }

    /// Whether the component belongs to a direct sub-reactor of the
    /// reactor that is being assembled.
    pub fn is_in_direct_subreactor(&self, id: GlobalId) -> (b: bool)
        ensures
            b == self.owns_below(id),
    {
        let c = id.container().index();
        if c < self.global.parents.len() {
            match self.global.parents[c] {
                Some(p) => p.raw == self.id.raw,
                None => false,
            }
        } else {
            false
        }
    }

    /// How far the assembly is from refusing, for want of room in the
    /// graphs, to record a dependency: the number of nodes and edges that
    /// the fuller of the two graphs can still take.
    pub fn room(&self) -> (n: usize)
        ensures
            n == vstd::math::min(
                vstd::math::min(
                    GRAPH_LIMIT - self.flow().dataflow_nodes().len(),
                    GRAPH_LIMIT - self.flow().dataflow_edges().len(),
                ),
                vstd::math::min(
                    GRAPH_LIMIT - self.flow().trigger_nodes().len(),
                    GRAPH_LIMIT - self.flow().trigger_edges().len(),
                ),
            ),
    {
        proof {
            use_type_invariant(self);
            self.global.data_flow.lemma_wf();
        }
        let a = self.global.data_flow.dataflow_room();
        let b = self.global.data_flow.trigger_room();
        if a <= b {
            a
        } else {
            b
        }
    }

    /// The assembler differs from `before` at most in the names given and
    /// in the labels kept for diagnostics.
    pub open spec fn same_but_names(&self, before: &Self) -> bool {
        &&& self.reactor_id() == before.reactor_id()
        &&& self.flow() == before.flow()
        &&& self.shared().parents() == before.shared().parents()
        &&& self.shared().reaction_counts() == before.shared().reaction_counts()
        &&& self.shared().registry().paths() == before.shared().registry().paths()
    }

    /// The assembler is what `before` becomes when the next id gets the
    /// name `name`: the name is added to the names, and becomes the label
    /// of the id.
    pub open spec fn named_from(&self, before: &Self, name: Seq<char>) -> bool {
        &&& self.same_but_names(before)
        &&& self.names() == before.names().push(name)
        &&& self.shared().registry().labels() == before.shared().registry().labels().insert(
            before.next_id().raw,
            name,
        )
    }

    /// The assembler is as `before` is, labels included.
    pub open spec fn unchanged_from(&self, before: &Self) -> bool {
        &&& self.same_but_names(before)
        &&& self.names() == before.names()
        &&& self.shared().registry().labels() == before.shared().registry().labels()
    }

    /// The id that the next name gets.
    pub open spec fn next_id(&self) -> GlobalId {
        GlobalId::spec_new(self.reactor_id(), LocalReactionId { raw: self.names().len() as u16 })
    }

    /// Gives a name to a new component of the reactor and returns the id
    /// of the component. A name that was given before is refused, and so
    /// is a name beyond the number of components that a reactor can have.
    fn new_id(&mut self, name: &'static str) -> (r: Result<GlobalId, AssemblyError>)
        ensures
            final(self).same_but_names(old(self)),
            match r {
                Ok(id) => !old(self).knows(name@) && old(self).names().len() < ID_SPAN && id
                    == old(self).next_id() && final(self).named_from(old(self), name@),
                Err(e) => final(self).unchanged_from(old(self)) && if old(self).knows(name@) {
                    e matches AssemblyError::DuplicateName(n) && n@ == name@
                } else {
                    e is Overflow && old(self).names().len() >= ID_SPAN
                },
            },
    {
        proof {
            use_type_invariant(&*self);
        }
        if knows_name(&self.local_names, name) {
            proof {
                let k = choose|k: int|
                    0 <= k < self.local_names@.len() && (#[trigger] self.local_names@[k])@ == name@;
                assert(self.names()[k] == name@);
            }
            return Err(AssemblyError::DuplicateName(name));
        }
        assert(!self.knows(name@)) by {
            if self.knows(name@) {
                let k = choose|k: int| 0 <= k < self.names().len() && self.names()[k] == name@;
                assert(self.local_names@[k]@ == name@);
            }
        }
        if self.local_names.len() >= ID_SPAN {
            return Err(AssemblyError::Overflow("while allocating next id"));
        }
        let taken = self.take_apart();
        proof {
            use_type_invariant(&taken);
        }
        let ghost before = taken;
        let Assembler { id, mut local_names, mut global } = taken;
        let local = LocalReactionId::new_const(local_names.len() as u16);
        let gid = GlobalId::new(id, local);
        local_names.push(String::from_str(name));
        global.registry.record(gid, String::from_str(name));
        proof {
            assert(texts(local_names@) =~= before.names().push(name@));
            let names = texts(local_names@);
            assert forall|i: int, j: int|
                0 <= i < names.len() && 0 <= j < names.len() && i != j implies #[trigger] names[i]
                != #[trigger] names[j] by {
                if i < before.names().len() && j < before.names().len() {
                    assert(before.names()[i] != before.names()[j]);
                } else if i < before.names().len() {
                    assert(before.names().contains(before.names()[i]));
                } else {
                    assert(before.names().contains(before.names()[j]));
                }
            }
        }
        *self = Assembler { id, local_names, global };
        Ok(gid)
    }

    /// The global id of a reaction of the reactor that is being
    /// assembled; `None` for a local id that is none of its reactions.
    pub fn existing_id(&self, reaction_id: LocalReactionId) -> (r: Option<GlobalReactionId>)
        ensures
            r is Some <==> reaction_id.raw < self.reaction_count(),
            r matches Some(id) ==> id == GlobalReactionId(
                GlobalId::spec_new(self.reactor_id(), reaction_id),
            ) && self.flow().registered().contains(id.0.raw),
    {
        proof {
            use_type_invariant(self);
        }
        if reaction_id.index() < self.global.reaction_counts[self.id.index()] {
            assert(self.flow().registered().contains(
                pack(self.id.raw as int as u16, reaction_id.raw as int as u16),
            ));
            Some(GlobalReactionId::new(self.id, reaction_id))
        } else {
            None
        }
    }

    /// A new port of the reactor.
    fn new_port<T: Copy>(&mut self, bank: &mut PortBank<T>, kind: PortKind, name: &'static str) -> (r:
        Result<Port, AssemblyError>)
        ensures
            final(self).same_but_names(old(self)),
            match r {
                Ok(port) => {
                    &&& !old(self).knows(name@)
                    &&& old(self).names().len() < ID_SPAN
                    &&& final(self).named_from(old(self), name@)
                    &&& port == (Port {
                        id: old(self).next_id(),
                        kind,
                        slot: old(bank).len() as usize,
                    })
                    &&& final(bank).len() == old(bank).len() + 1
                    &&& final(bank).holds(port)
                    &&& final(bank).status(port.slot as int) == BindStatus::Unbound
                    &&& final(bank).value(port.slot as int) is None
                    &&& forall|i: int|
                        0 <= i < old(bank).len() ==> {
                            &&& final(bank).kind(i) == old(bank).kind(i)
                            &&& final(bank).status(i) == old(bank).status(i)
                            &&& final(bank).cell(i) == old(bank).cell(i)
                            &&& final(bank).value(i) == old(bank).value(i)
                            &&& final(bank).deps(i) == old(bank).deps(i)
                        }
                },
                Err(e) => final(self).unchanged_from(old(self)) && *final(bank) == *old(bank)
                    && if old(self).knows(name@) {
                    e matches AssemblyError::DuplicateName(n) && n@ == name@
                } else {
                    e is Overflow && old(self).names().len() >= ID_SPAN
                },
            },
    {
        match self.new_id(name) {
            Err(e) => Err(e),
            Ok(id) => Ok(bank.new_port(kind, id)),
        }
    }

    /// A new output port of the reactor, in the bank `bank`.
    pub fn new_output_port<T: Copy>(&mut self, bank: &mut PortBank<T>, name: &'static str) -> (r:
        Result<Port, AssemblyError>)
        ensures
            final(self).same_but_names(old(self)),
            r is Ok <==> !old(self).knows(name@) && old(self).names().len() < ID_SPAN,
            r matches Ok(port) ==> {
                &&& final(self).named_from(old(self), name@)
                &&& port == (Port {
                    id: old(self).next_id(),
                    kind: PortKind::Output,
                    slot: old(bank).len() as usize,
                })
                &&& final(bank).len() == old(bank).len() + 1
                &&& final(bank).holds(port)
                &&& final(bank).status(port.slot as int) == BindStatus::Unbound
                &&& final(bank).value(port.slot as int) is None
            },
            r matches Err(e) ==> final(self).unchanged_from(old(self))
                && *final(bank) == *old(bank) && if old(self).knows(name@) {
                e matches AssemblyError::DuplicateName(n) && n@ == name@
            } else {
                e is Overflow
            },
    {
        self.new_port(bank, PortKind::Output, name)
    }

    /// A new input port of the reactor, in the bank `bank`.
    pub fn new_input_port<T: Copy>(&mut self, bank: &mut PortBank<T>, name: &'static str) -> (r:
        Result<Port, AssemblyError>)
        ensures
            final(self).same_but_names(old(self)),
            r is Ok <==> !old(self).knows(name@) && old(self).names().len() < ID_SPAN,
            r matches Ok(port) ==> {
                &&& final(self).named_from(old(self), name@)
                &&& port == (Port {
                    id: old(self).next_id(),
                    kind: PortKind::Input,
                    slot: old(bank).len() as usize,
                })
                &&& final(bank).len() == old(bank).len() + 1
                &&& final(bank).holds(port)
                &&& final(bank).status(port.slot as int) == BindStatus::Unbound
                &&& final(bank).value(port.slot as int) is None
            },
            r matches Err(e) ==> final(self).unchanged_from(old(self))
                && *final(bank) == *old(bank) && if old(self).knows(name@) {
                e matches AssemblyError::DuplicateName(n) && n@ == name@
            } else {
                e is Overflow
            },
    {
        self.new_port(bank, PortKind::Input, name)
    }

    /// A new action of the reactor.
    pub fn new_action(&mut self, name: &'static str, min_delay: Option<u64>, is_logical: bool) -> (r:
        Result<Action, AssemblyError>)
        ensures
            final(self).same_but_names(old(self)),
            r is Ok <==> !old(self).knows(name@) && old(self).names().len() < ID_SPAN,
            r matches Ok(action) ==> {
                &&& final(self).named_from(old(self), name@)
                &&& action.id == old(self).next_id()
                &&& action.is_logical == is_logical
                &&& action.min_delay == match min_delay {
                    Some(d) => d,
                    None => 0,
                }
                &&& action.downstream@ == Seq::<GlobalReactionId>::empty()
            },
            r matches Err(e) ==> final(self).unchanged_from(old(self)) && if old(self).knows(
                name@,
            ) {
                e matches AssemblyError::DuplicateName(n) && n@ == name@
            } else {
                e is Overflow
            },
    {
        match self.new_id(name) {
            Err(e) => Err(e),
            Ok(id) => Ok(Action::new(min_delay, id, is_logical)),
        }
    }
    /// The data-flow graph can take two more nodes and two more edges.
    pub open spec fn has_flow_room(&self) -> bool {
        self.flow().dataflow_nodes().len() + 2 <= GRAPH_LIMIT && self.flow().dataflow_edges().len()
            + 2 <= GRAPH_LIMIT
    }

    /// The trigger graph can take two more nodes and two more edges.
    pub open spec fn has_trigger_room(&self) -> bool {
        self.flow().trigger_nodes().len() + 2 <= GRAPH_LIMIT && self.flow().trigger_edges().len()
            + 2 <= GRAPH_LIMIT
    }

    /// The assembler differs from `before` at most in the dependency
    /// graphs.
    pub open spec fn same_but_flow(&self, before: &Self) -> bool {
        &&& self.reactor_id() == before.reactor_id()
        &&& self.names() == before.names()
        &&& self.shared().parents() == before.shared().parents()
        &&& self.shared().reaction_counts() == before.shared().reaction_counts()
        &&& self.shared().registry() == before.shared().registry()
        &&& self.flow().registered() == before.flow().registered()
    }

    /// The global id that a local id stands for in the reactor that is
    /// being assembled.
    pub open spec fn global_of(&self, local: LocalReactionId) -> GlobalId {
        GlobalId::spec_new(self.reactor_id(), local)
    }

    /// Why the reaction may not use the port; `None` when it may.
    pub open spec fn uses_cause(&self, reaction_id: LocalReactionId, port: Port) -> Option<
        Seq<char>,
    > {
        if reaction_id.raw >= self.reaction_count() {
            Some("Reaction is not declared by this reactor"@)
        } else if port.kind == PortKind::Input && !self.owns(port.id) {
            Some("Reaction can only use input ports of this reactor"@)
        } else if port.kind == PortKind::Output && !self.owns_below(port.id) {
            Some("Reaction can only use output ports of sub-reactors"@)
        } else {
            None
        }
    }

    /// Why the reaction may not affect the port; `None` when it may.
    pub open spec fn affects_cause(&self, reaction_id: LocalReactionId, port: Port) -> Option<
        Seq<char>,
    > {
        if reaction_id.raw >= self.reaction_count() {
            Some("Reaction is not declared by this reactor"@)
        } else if port.kind == PortKind::Output && !self.owns(port.id) {
            Some("Reaction can only affect output ports of this reactor"@)
        } else if port.kind == PortKind::Input && !self.owns_below(port.id) {
            Some("Reaction can only affect input ports of sub-reactors"@)
        } else if self.flow().spec_has_upstream_port(port.id) {
            Some("Port is already bound"@)
        } else {
            None
        }
    }

    /// Why the reaction and the action may not depend on one another;
    /// `None` when they may.
    pub open spec fn action_cause(&self, reaction_id: LocalReactionId, action: GlobalId) -> Option<
        Seq<char>,
    > {
        if reaction_id.raw >= self.reaction_count() {
            Some("Reaction is not declared by this reactor"@)
        } else if !self.owns(action) {
            Some("Action is not declared by this reactor"@)
        } else {
            None
        }
    }

    /// Records a dependency between a registered reaction and a port in
    /// the data-flow graph.
    fn record_data_dependency(&mut self, reaction: GlobalReactionId, port: GlobalId, kind: DependencyKind)
        requires
            old(self).has_flow_room(),
            old(self).flow().registered().contains(reaction.0.raw),
        ensures
            final(self).same_but_flow(old(self)),
            final(self).flow().trigger_nodes() == old(self).flow().trigger_nodes(),
            final(self).flow().trigger_edges() == old(self).flow().trigger_edges(),
            final(self).flow().dataflow_nodes() == with_node(
                with_node(old(self).flow().dataflow_nodes(), reaction_weight(reaction)),
                component_weight(port),
            ),
            final(self).flow().dataflow_edges() == old(self).flow().dataflow_edges().push(
                dependency_edge(final(self).flow().dataflow_nodes(), reaction.0.raw, port.raw, kind),
            ),
    {
        let taken = self.take_apart();
        proof {
            use_type_invariant(&taken);
        }
        let ghost before = taken;
        let Assembler { id, local_names, mut global } = taken;
        let _ = global.data_flow.add_data_dependency(reaction, port, kind);
        proof {
            let nodes = before.flow().dataflow_nodes();
            let registered = before.flow().registered();
            lemma_registered_with_node(nodes, registered, reaction_weight(reaction));
            lemma_registered_with_node(
                with_node(nodes, reaction_weight(reaction)),
                registered,
                component_weight(port),
            );
        }
        *self = Assembler { id, local_names, global };
    }

    /// Records a dependency between a registered reaction and an action
    /// in the trigger graph.
    fn record_trigger_dependency(
        &mut self,
        reaction: GlobalReactionId,
        action: GlobalId,
        kind: DependencyKind,
    )
        requires
            old(self).has_trigger_room(),
            old(self).flow().registered().contains(reaction.0.raw),
        ensures
            final(self).same_but_flow(old(self)),
            final(self).flow().dataflow_nodes() == old(self).flow().dataflow_nodes(),
            final(self).flow().dataflow_edges() == old(self).flow().dataflow_edges(),
            final(self).flow().trigger_nodes() == with_node(
                with_node(old(self).flow().trigger_nodes(), reaction_weight(reaction)),
                component_weight(action),
            ),
            final(self).flow().trigger_edges() == old(self).flow().trigger_edges().push(
                dependency_edge(final(self).flow().trigger_nodes(), reaction.0.raw, action.raw, kind),
            ),
    {
        let taken = self.take_apart();
        proof {
            use_type_invariant(&taken);
        }
        let ghost before = taken;
        let Assembler { id, local_names, mut global } = taken;
        let _ = global.data_flow.add_trigger_dependency(reaction, action, kind);
        proof {
            let nodes = before.flow().trigger_nodes();
            let registered = before.flow().registered();
            lemma_registered_with_node(nodes, registered, reaction_weight(reaction));
            lemma_registered_with_node(
                with_node(nodes, reaction_weight(reaction)),
                registered,
                component_weight(action),
            );
        }
        *self = Assembler { id, local_names, global };
    }

    /// Whether the data-flow graph can take two more nodes and two more
    /// edges.
    fn check_flow_room(&self) -> (b: bool)
        ensures
            b == self.has_flow_room(),
    {
        proof {
            use_type_invariant(self);
            self.global.data_flow.lemma_wf();
        }
        self.global.data_flow.dataflow_room() >= 2
    }

    /// Whether the trigger graph can take two more nodes and two more
    /// edges.
    fn check_trigger_room(&self) -> (b: bool)
        ensures
            b == self.has_trigger_room(),
    {
        proof {
            use_type_invariant(self);
            self.global.data_flow.lemma_wf();
        }
        self.global.data_flow.trigger_room() >= 2
    }

    /// Records that the reaction depends on the value of the port. The
    /// port must be an input port of this reactor or an output port of a
    /// direct sub-reactor.
    pub fn reaction_uses(&mut self, reaction_id: LocalReactionId, port: &Port) -> (r: Result<
        (),
        AssemblyError,
    >)
        ensures
            final(self).same_but_flow(old(self)),
            final(self).flow().trigger_nodes() == old(self).flow().trigger_nodes(),
            final(self).flow().trigger_edges() == old(self).flow().trigger_edges(),
            r is Ok <==> old(self).uses_cause(reaction_id, *port) is None
                && old(self).has_flow_room(),
            r is Ok ==> final(self).flow().dataflow_nodes() == with_node(
                with_node(
                    old(self).flow().dataflow_nodes(),
                    (true, old(self).global_of(reaction_id).raw),
                ),
                component_weight(port.id),
            ) && final(self).flow().dataflow_edges() == old(self).flow().dataflow_edges().push(
                dependency_edge(
                    final(self).flow().dataflow_nodes(),
                    old(self).global_of(reaction_id).raw,
                    port.id.raw,
                    DependencyKind::Use,
                ),
            ),
            r matches Err(e) ==> final(self).flow() == old(self).flow()
                && match old(self).uses_cause(reaction_id, *port) {
                Some(text) => e matches AssemblyError::InvalidDependency(cause, reaction, kind, p)
                    && cause@ == text && reaction == old(self).global_of(reaction_id) && kind
                    == DependencyKind::Use && p == port.id,
                None => e is Overflow,
            },
    {
        let react = GlobalId::new(self.id, reaction_id);
        let known = self.existing_id(reaction_id);
        if known.is_none() {
            return Err(
                AssemblyError::InvalidDependency(
                    "Reaction is not declared by this reactor",
                    react,
                    DependencyKind::Use,
                    port.id,
                ),
            );
        }
        if port.is_input() && !self.is_in_reactor(port.id) {
            return Err(
                AssemblyError::InvalidDependency(
                    "Reaction can only use input ports of this reactor",
                    react,
                    DependencyKind::Use,
                    port.id,
                ),
            );
        } else if port.is_output() && !self.is_in_direct_subreactor(port.id) {
            return Err(
                AssemblyError::InvalidDependency(
                    "Reaction can only use output ports of sub-reactors",
                    react,
                    DependencyKind::Use,
                    port.id,
                ),
            );
        }
        if !self.check_flow_room() {
            return Err(AssemblyError::Overflow("while recording a dependency"));
        }
        self.record_data_dependency(known.unwrap(), port.id, DependencyKind::Use);
        Ok(())
    }

    /// Records that the reaction may set the value of the port. The port
    /// must be an output port of this reactor or an input port of a direct
    /// sub-reactor, and must not be bound to an upstream port.
    pub fn reaction_affects(&mut self, reaction_id: LocalReactionId, port: &Port) -> (r: Result<
        (),
        AssemblyError,
    >)
        ensures
            final(self).same_but_flow(old(self)),
            final(self).flow().trigger_nodes() == old(self).flow().trigger_nodes(),
            final(self).flow().trigger_edges() == old(self).flow().trigger_edges(),
            r is Ok <==> old(self).affects_cause(reaction_id, *port) is None
                && old(self).has_flow_room(),
            r is Ok ==> final(self).flow().dataflow_nodes() == with_node(
                with_node(
                    old(self).flow().dataflow_nodes(),
                    (true, old(self).global_of(reaction_id).raw),
                ),
                component_weight(port.id),
            ) && final(self).flow().dataflow_edges() == old(self).flow().dataflow_edges().push(
                dependency_edge(
                    final(self).flow().dataflow_nodes(),
                    old(self).global_of(reaction_id).raw,
                    port.id.raw,
                    DependencyKind::Affects,
                ),
            ),
            r matches Err(e) ==> final(self).flow() == old(self).flow()
                && match old(self).affects_cause(reaction_id, *port) {
                Some(text) => e matches AssemblyError::InvalidDependency(cause, reaction, kind, p)
                    && cause@ == text && reaction == old(self).global_of(reaction_id) && kind
                    == DependencyKind::Affects && p == port.id,
                None => e is Overflow,
            },
    {
        proof {
            use_type_invariant(&*self);
        }
        let react = GlobalId::new(self.id, reaction_id);
        let known = self.existing_id(reaction_id);
        if known.is_none() {
            return Err(
                AssemblyError::InvalidDependency(
                    "Reaction is not declared by this reactor",
                    react,
                    DependencyKind::Affects,
                    port.id,
                ),
            );
        }
        if port.is_output() && !self.is_in_reactor(port.id) {
            return Err(
                AssemblyError::InvalidDependency(
                    "Reaction can only affect output ports of this reactor",
                    react,
                    DependencyKind::Affects,
                    port.id,
                ),
            );
        } else if port.is_input() && !self.is_in_direct_subreactor(port.id) {
            return Err(
                AssemblyError::InvalidDependency(
                    "Reaction can only affect input ports of sub-reactors",
                    react,
                    DependencyKind::Affects,
                    port.id,
                ),
            );
        } else if self.global.data_flow.has_upstream_port(port.id) {
            return Err(
                AssemblyError::InvalidDependency(
                    "Port is already bound",
                    react,
                    DependencyKind::Affects,
                    port.id,
                ),
            );
        }
        if !self.check_flow_room() {
            return Err(AssemblyError::Overflow("while recording a dependency"));
        }
        self.record_data_dependency(known.unwrap(), port.id, DependencyKind::Affects);
        Ok(())
    }

    /// Records that the action triggers the reaction. Both must be
    /// declared by this reactor.
    pub fn action_triggers(&mut self, action: &Action, reaction_id: LocalReactionId) -> (r: Result<
        (),
        AssemblyError,
    >)
        ensures
            final(self).same_but_flow(old(self)),
            final(self).flow().dataflow_nodes() == old(self).flow().dataflow_nodes(),
            final(self).flow().dataflow_edges() == old(self).flow().dataflow_edges(),
            r is Ok <==> old(self).action_cause(reaction_id, action.id) is None
                && old(self).has_trigger_room(),
            r is Ok ==> final(self).flow().trigger_nodes() == with_node(
                with_node(
                    old(self).flow().trigger_nodes(),
                    (true, old(self).global_of(reaction_id).raw),
                ),
                component_weight(action.id),
            ) && final(self).flow().trigger_edges() == old(self).flow().trigger_edges().push(
                dependency_edge(
                    final(self).flow().trigger_nodes(),
                    old(self).global_of(reaction_id).raw,
                    action.id.raw,
                    DependencyKind::Use,
                ),
            ),
            r matches Err(e) ==> final(self).flow() == old(self).flow()
                && match old(self).action_cause(reaction_id, action.id) {
                Some(text) => e matches AssemblyError::InvalidDependency(cause, reaction, kind, a)
                    && cause@ == text && reaction == old(self).global_of(reaction_id) && kind
                    == DependencyKind::Use && a == action.id,
                None => e is Overflow,
            },
    {
        self.depend_on_action(reaction_id, action.id, DependencyKind::Use)
    }

    /// Records that the reaction may schedule the action. Both must be
    /// declared by this reactor.
    pub fn reaction_schedules(&mut self, reaction_id: LocalReactionId, action: &Action) -> (r:
        Result<(), AssemblyError>)
        ensures
            final(self).same_but_flow(old(self)),
            final(self).flow().dataflow_nodes() == old(self).flow().dataflow_nodes(),
            final(self).flow().dataflow_edges() == old(self).flow().dataflow_edges(),
            r is Ok <==> old(self).action_cause(reaction_id, action.id) is None
                && old(self).has_trigger_room(),
            r is Ok ==> final(self).flow().trigger_nodes() == with_node(
                with_node(
                    old(self).flow().trigger_nodes(),
                    (true, old(self).global_of(reaction_id).raw),
                ),
                component_weight(action.id),
            ) && final(self).flow().trigger_edges() == old(self).flow().trigger_edges().push(
                dependency_edge(
                    final(self).flow().trigger_nodes(),
                    old(self).global_of(reaction_id).raw,
                    action.id.raw,
                    DependencyKind::Affects,
                ),
            ),
            r matches Err(e) ==> final(self).flow() == old(self).flow()
                && match old(self).action_cause(reaction_id, action.id) {
                Some(text) => e matches AssemblyError::InvalidDependency(cause, reaction, kind, a)
                    && cause@ == text && reaction == old(self).global_of(reaction_id) && kind
                    == DependencyKind::Affects && a == action.id,
                None => e is Overflow,
            },
    {
        self.depend_on_action(reaction_id, action.id, DependencyKind::Affects)
    }

    /// Records a dependency between a reaction and an action of this
    /// reactor.
    fn depend_on_action(&mut self, reaction_id: LocalReactionId, action: GlobalId, kind: DependencyKind)
        -> (r: Result<(), AssemblyError>)
        ensures
            final(self).same_but_flow(old(self)),
            final(self).flow().dataflow_nodes() == old(self).flow().dataflow_nodes(),
            final(self).flow().dataflow_edges() == old(self).flow().dataflow_edges(),
            r is Ok <==> old(self).action_cause(reaction_id, action) is None
                && old(self).has_trigger_room(),
            r is Ok ==> final(self).flow().trigger_nodes() == with_node(
                with_node(
                    old(self).flow().trigger_nodes(),
                    (true, old(self).global_of(reaction_id).raw),
                ),
                component_weight(action),
            ) && final(self).flow().trigger_edges() == old(self).flow().trigger_edges().push(
                dependency_edge(
                    final(self).flow().trigger_nodes(),
                    old(self).global_of(reaction_id).raw,
                    action.raw,
                    kind,
                ),
            ),
            r matches Err(e) ==> final(self).flow() == old(self).flow()
                && match old(self).action_cause(reaction_id, action) {
                Some(text) => e matches AssemblyError::InvalidDependency(cause, reaction, k, a)
                    && cause@ == text && reaction == old(self).global_of(reaction_id) && k == kind
                    && a == action,
                None => e is Overflow,
            },
    {
        let react = GlobalId::new(self.id, reaction_id);
        let known = self.existing_id(reaction_id);
        if known.is_none() {
            return Err(
                AssemblyError::InvalidDependency(
                    "Reaction is not declared by this reactor",
                    react,
                    kind,
                    action,
                ),
            );
        }
        if !self.is_in_reactor(action) {
            return Err(
                AssemblyError::InvalidDependency(
                    "Action is not declared by this reactor",
                    react,
                    kind,
                    action,
                ),
            );
        }
        if !self.check_trigger_room() {
            return Err(AssemblyError::Overflow("while recording a dependency"));
        }
        self.record_trigger_dependency(known.unwrap(), action, kind);
        Ok(())
    }
    /// Why the two ports may not be bound, as far as the places and the
    /// kinds of the ports, the bindings of the downstream port and the
    /// uses of the upstream port decide it; `None` when they do not
    /// forbid the binding.
    pub open spec fn binding_cause(&self, status_down: BindStatus, upstream: Port, downstream: Port)
        -> Option<Seq<char>> {
        if upstream.kind == PortKind::Input && !self.owns(upstream.id) {
            Some("1. Upstream port must be an input port of this reactor"@)
        } else if upstream.kind == PortKind::Input && downstream.kind == PortKind::Input
            && !self.owns_below(downstream.id) {
            Some("1.i. Downstream port should be declared in a direct sub-reactor"@)
        } else if upstream.kind == PortKind::Input && downstream.kind == PortKind::Output
            && !self.owns(downstream.id) {
            Some("1.ii. Downstream port should be declared in this reactor"@)
        } else if upstream.kind == PortKind::Output && !self.owns_below(upstream.id) {
            Some("2. Upstream port must be an output port of a direct sub-reactor"@)
        } else if upstream.kind == PortKind::Output && downstream.kind == PortKind::Input && (
        !self.owns_below(downstream.id) || downstream.id.spec_container()
            == upstream.id.spec_container()) {
            Some("2.i. Downstream port should be declared in a different direct sub-reactor"@)
        } else if upstream.kind == PortKind::Output && downstream.kind == PortKind::Output
            && !self.owns(downstream.id) {
            Some("2.ii. Downstream port should be declared in this reactor"@)
        } else if upstream.slot == downstream.slot {
            Some("A port cannot be bound to itself"@)
        } else if status_down != BindStatus::Unbound {
            Some("Downstream port is already bound"@)
        } else if self.flow().spec_is_used(upstream.id) {
            Some("Upstream port is used by a reaction"@)
        } else {
            None
        }
    }

    /// A port is bound at most once: a downstream port that takes part in
    /// a binding already is refused, whatever the two ports are.
    pub proof fn law_rebinding_is_refused(&self, status_down: BindStatus, upstream: Port, downstream: Port)
        requires
            status_down != BindStatus::Unbound,
        ensures
            self.binding_cause(status_down, upstream, downstream) is Some,
    {
    }

    /// The first rule on the places and the kinds of two ports that
    /// forbids to bind them.
    fn placement_cause(&self, upstream: &Port, downstream: &Port) -> (cause: Option<&'static str>)
        ensures
            match cause {
                Some(text) => self.binding_cause(BindStatus::Unbound, *upstream, *downstream)
                    == Some(text@) && forall|status: BindStatus|
                    self.binding_cause(status, *upstream, *downstream) == Some(text@),
                None => forall|status: BindStatus|
                    self.binding_cause(status, *upstream, *downstream) == (if upstream.slot
                        == downstream.slot {
                        Some("A port cannot be bound to itself"@)
                    } else if status != BindStatus::Unbound {
                        Some("Downstream port is already bound"@)
                    } else if self.flow().spec_is_used(upstream.id) {
                        Some("Upstream port is used by a reaction"@)
                    } else {
                        None
                    }),
            },
    {
        if upstream.is_input() {
            if !self.is_in_reactor(upstream.id) {
                Some("1. Upstream port must be an input port of this reactor")
            } else if downstream.is_input() && !self.is_in_direct_subreactor(downstream.id) {
                Some("1.i. Downstream port should be declared in a direct sub-reactor")
            } else if downstream.is_output() && !self.is_in_reactor(downstream.id) {
                Some("1.ii. Downstream port should be declared in this reactor")
            } else {
                None
            }
        } else {
            if !self.is_in_direct_subreactor(upstream.id) {
                Some("2. Upstream port must be an output port of a direct sub-reactor")
            } else if downstream.is_input() && (!self.is_in_direct_subreactor(downstream.id)
                || downstream.id.container().raw == upstream.id.container().raw) {
                Some("2.i. Downstream port should be declared in a different direct sub-reactor")
            } else if downstream.is_output() && !self.is_in_reactor(downstream.id) {
                Some("2.ii. Downstream port should be declared in this reactor")
            } else {
                None
            }
        }
    }

    /// Something leads into the downstream port of a binding already: a
    /// reaction that affects it, or a port.
    pub open spec fn downstream_driven(&self, upstream: Port, downstream: Port) -> bool {
        neighbors(
            self.flow().dataflow_edges(),
            index_of(
                with_node(
                    with_node(self.flow().dataflow_nodes(), component_weight(upstream.id)),
                    component_weight(downstream.id),
                ),
                downstream.id.raw,
            ),
            false,
        ).len() > 0
    }

    /// Binds the values of two ports: every value set on the upstream
    /// port is seen on the downstream port, which no reaction can set
    /// thereafter. Either the upstream port is an input port of this
    /// reactor, and the downstream port an input port of a direct
    /// sub-reactor or an output port of this reactor; or the upstream port
    /// is an output port of a direct sub-reactor, and the downstream port
    /// an input port of another direct sub-reactor or an output port of
    /// this reactor. The downstream port must be unbound, no reaction may
    /// use the upstream port, and nothing may lead into the downstream
    /// port.
    pub fn bind_ports<T: Copy>(&mut self, bank: &mut PortBank<T>, upstream: &Port, downstream: &Port)
        -> (r: Result<(), AssemblyError>)
        requires
            old(bank).holds(*upstream),
            old(bank).holds(*downstream),
        ensures
            final(bank).len() == old(bank).len(),
            final(self).same_but_flow(old(self)),
            final(self).flow().trigger_nodes() == old(self).flow().trigger_nodes(),
            final(self).flow().trigger_edges() == old(self).flow().trigger_edges(),
            r is Ok <==> old(self).binding_cause(
                old(bank).status(downstream.slot as int),
                *upstream,
                *downstream,
            ) is None && old(self).has_flow_room() && !old(self).downstream_driven(
                *upstream,
                *downstream,
            ),
            r is Ok ==> {
                &&& final(self).flow().dataflow_nodes() == with_node(
                    with_node(old(self).flow().dataflow_nodes(), component_weight(upstream.id)),
                    component_weight(downstream.id),
                )
                &&& final(self).flow().dataflow_edges() == old(self).flow().dataflow_edges().push(
                    (
                        index_of(final(self).flow().dataflow_nodes(), upstream.id.raw),
                        index_of(final(self).flow().dataflow_nodes(), downstream.id.raw),
                    ),
                )
                &&& final(bank).after_bind(old(bank), *upstream, *downstream)
                &&& final(bank).cell(downstream.slot as int) == old(bank).cell(
                    upstream.slot as int,
                )
                &&& final(bank).status(downstream.slot as int) == BindStatus::BoundDownstream
                &&& final(bank).value(downstream.slot as int) == old(bank).value(
                    upstream.slot as int,
                )
                &&& forall|i: int|
                    0 <= i < old(bank).len() && i != downstream.slot ==> {
                        &&& final(bank).cell(i) == old(bank).cell(i)
                        &&& final(bank).value(i) == old(bank).value(i)
                        &&& final(bank).kind(i) == old(bank).kind(i)
                    }
            },
            r matches Err(e) ==> *final(bank) == *old(bank) && final(self).flow().dataflow_edges()
                == old(self).flow().dataflow_edges() && match old(self).binding_cause(
                old(bank).status(downstream.slot as int),
                *upstream,
                *downstream,
            ) {
                Some(text) => final(self).flow() == old(self).flow() && (
                e matches AssemblyError::InvalidBinding(cause, up, down) && cause@ == text && up
                    == upstream.id && down == downstream.id),
                None => if !old(self).has_flow_room() {
                    final(self).flow() == old(self).flow() && e is Overflow
                } else {
                    e matches AssemblyError::InvalidBinding(cause, up, down) && cause@
                        == cause_downstream_affected() && up == upstream.id && down
                        == downstream.id
                },
            },
    {
        proof {
            use_type_invariant(&*self);
        }
        if let Some(cause) = self.placement_cause(upstream, downstream) {
            return Err(AssemblyError::InvalidBinding(cause, upstream.id, downstream.id));
        }
        if upstream.slot == downstream.slot {
            return Err(
                AssemblyError::InvalidBinding(
                    "A port cannot be bound to itself",
                    upstream.id,
                    downstream.id,
                ),
            );
        }
        match bank.bind_status(downstream) {
            BindStatus::Unbound => {},
            _ => {
                return Err(
                    AssemblyError::InvalidBinding(
                        "Downstream port is already bound",
                        upstream.id,
                        downstream.id,
                    ),
                );
            },
        }
        if self.global.data_flow.is_used(upstream.id) {
            return Err(
                AssemblyError::InvalidBinding(
                    "Upstream port is used by a reaction",
                    upstream.id,
                    downstream.id,
                ),
            );
        }
        if !self.check_flow_room() {
            return Err(AssemblyError::Overflow("while recording a binding"));
        }
        let taken = self.take_apart();
        proof {
            use_type_invariant(&taken);
        }
        let ghost before = taken;
        let Assembler { id, local_names, mut global } = taken;
        let result = global.data_flow.add_port_dependency(upstream.id, downstream.id);
        proof {
            let nodes = before.flow().dataflow_nodes();
            let registered = before.flow().registered();
            lemma_registered_with_node(nodes, registered, component_weight(upstream.id));
            lemma_registered_with_node(
                with_node(nodes, component_weight(upstream.id)),
                registered,
                component_weight(downstream.id),
            );
        }
        *self = Assembler { id, local_names, global };
        match result {
            Err(e) => Err(e),
            Ok(()) => {
                bank.bind(upstream, downstream);
                Ok(())
            },
        }
    }

    /// The place, in the tree of reactors, of a sub-reactor of this
    /// reactor with the given name.
    fn sub_id_for(&self, reactor_type: &'static str, name: &'static str) -> (info: ReactorDebugInfo)
        ensures
            info.inst_name@ == name@,
    {
        proof {
            use_type_invariant(self);
        }
        self.global.registry.get_debug_info(self.id).derive(reactor_type, name)
    }

    /// Gives ids to the reactions of the reactor, which has no component
    /// yet: the reaction at index `k` gets the local id `k`. No name occurs
    /// twice among the names of the reactions.
    fn make_reaction_global_ids(&mut self, names: &Vec<&'static str>) -> (ids: Vec<
        GlobalReactionId,
    >)
        requires
            old(self).names().len() == 0,
            names@.len() <= ID_SPAN,
            !repeats(name_texts(names@)),
        ensures
            final(self).same_but_names(old(self)),
            final(self).names() == name_texts(names@),
            ids@ == reactions_of(old(self).reactor_id(), names@.len() as nat),
    {
        let mut globals: Vec<GlobalReactionId> = Vec::new();
        let mut k: usize = 0;
        while k < names.len()
            invariant
                k <= names@.len() <= ID_SPAN,
                !repeats(name_texts(names@)),
                self.same_but_names(old(self)),
                self.names() == name_texts(names@).take(k as int),
                globals@ == reactions_of(old(self).reactor_id(), k as nat),
            decreases names@.len() - k,
        {
            proof {
                if self.knows(names@[k as int]@) {
                    let i = choose|i: int|
                        0 <= i < self.names().len() && self.names()[i] == names@[k as int]@;
                    assert(name_texts(names@)[i] == name_texts(names@)[k as int]);
                }
            }
            match self.new_id(names[k]) {
                Err(_) => {
                    assert(false);
                },
                Ok(id) => {
                    globals.push(GlobalReactionId(id));
                },
            }
            k += 1;
            assert(self.names() =~= name_texts(names@).take(k as int));
            assert(globals@ =~= reactions_of(old(self).reactor_id(), k as nat));
        }
        assert(name_texts(names@).take(k as int) =~= name_texts(names@));
        globals
    }

    /// Declares the reactions `ids` of the reactor that is being
    /// assembled: registers them and records the order of their
    /// declaration in the data-flow graph.
    fn declare_reactions(&mut self, ids: Vec<GlobalReactionId>)
        requires
            ids@.len() <= ID_SPAN,
            old(self).names().len() == ids@.len(),
            old(self).flow().dataflow_nodes().len() + ids@.len() <= GRAPH_LIMIT,
            old(self).flow().dataflow_edges().len() + ids@.len() <= GRAPH_LIMIT,
            forall|k: int|
                0 <= k < ids@.len() ==> (#[trigger] ids@[k]).0 == GlobalId::spec_new(
                    old(self).reactor_id(),
                    LocalReactionId { raw: k as u16 },
                ),
        ensures
            final(self).reactor_id() == old(self).reactor_id(),
            final(self).names() == old(self).names(),
            final(self).shared().parents() == old(self).shared().parents(),
            final(self).reaction_count() == ids@.len(),
            final(self).flow().dataflow_nodes() == with_reactions(
                old(self).flow().dataflow_nodes(),
                ids@,
            ),
            final(self).flow().dataflow_edges() == old(self).flow().dataflow_edges()
                + priority_edges(final(self).flow().dataflow_nodes(), ids@),
            final(self).flow().trigger_nodes() == old(self).flow().trigger_nodes(),
            final(self).flow().trigger_edges() == old(self).flow().trigger_edges(),
    {
        let taken = self.take_apart();
        proof {
            use_type_invariant(&taken);
        }
        let ghost before = taken;
        let Assembler { id, local_names, mut global } = taken;
        let mut k: usize = 0;
        while k < ids.len()
            invariant
                k <= ids@.len(),
                global.data_flow.wf(),
                global.data_flow.dataflow_nodes() == before.flow().dataflow_nodes(),
                global.data_flow.dataflow_edges() == before.flow().dataflow_edges(),
                global.data_flow.trigger_nodes() == before.flow().trigger_nodes(),
                global.data_flow.trigger_edges() == before.flow().trigger_edges(),
                global.parents == before.global.parents,
                global.reaction_counts == before.global.reaction_counts,
                global.registry == before.global.registry,
                before.flow().registered().subset_of(global.data_flow.registered()),
                forall|j: int|
                    0 <= j < k ==> global.data_flow.registered().contains(
                        (#[trigger] ids@[j]).0.raw,
                    ),
            decreases ids@.len() - k,
        {
            global.data_flow.register_reaction(ids[k]);
            k += 1;
        }
        proof {
            let registered = global.data_flow.registered();
            assert(all_registered(before.flow().dataflow_nodes(), registered));
            assert(all_registered(before.flow().trigger_nodes(), registered));
            lemma_registered_with_reactions(before.flow().dataflow_nodes(), registered, ids@);
        }
        let count = ids.len();
        let ghost ids_view = ids@;
        global.data_flow.add_reactions(ids);
        global.reaction_counts.set(id.index(), count);
        proof {
            let counts = global.reaction_counts@;
            let registered = global.data_flow.registered();
            assert forall|rid: int, j: int|
                0 <= rid < counts.len()
                    && 0 <= j < counts[rid] implies #[trigger] registered.contains(
                pack(rid as u16, j as u16),
            ) by {
                if rid == id.raw {
                    assert(ids_view[j].0 == GlobalId::spec_new(id, LocalReactionId { raw: j as u16 }));
                    assert(registered.contains(ids_view[j].0.raw));
                } else {
                    assert(before.flow().registered().contains(pack(rid as u16, j as u16)));
                }
            }
        }
        *self = Assembler { id, local_names, global };
    }

    /// What the assembly of a sub-reactor gives to its parent: the
    /// assembled sub-reactor in its initial state, or the error of its
    /// assembly, marked with the id of the sub-reactor.
    pub fn finish_subreactor<B, S: Reactor<B>>(id: GlobalId, result: Result<S, AssemblyError>) -> (r:
        Result<RunnableReactor<S, S::State>, AssemblyError>)
        ensures
            match result {
                Ok(sub) => r matches Ok(run) && run.spec_reactor() == sub && run.spec_global_id()
                    == id,
                Err(inner) => r matches Err(e)
                    && e == AssemblyError::InContext(id, Box::new(inner)),
            },
    {
        match result {
            Err(sub_error) => Err(AssemblyError::InContext(id, Box::new(sub_error))),
            Ok(sub_reactor) => Ok(RunnableReactor::new(sub_reactor, id, S::initial_state())),
        }
    }

    /// There is no room for a sub-reactor with `n` reactions: the program
    /// has as many reactors as can be numbered, or `n` is more than the
    /// number of components of a reactor, or the data-flow graph cannot
    /// take `n` more nodes and edges.
    pub open spec fn lacks_room_for_reactor(&self, n: nat) -> bool {
        ||| self.shared().parents().len() >= ID_SPAN
        ||| n > ID_SPAN
        ||| self.flow().dataflow_nodes().len() + n > GRAPH_LIMIT
        ||| self.flow().dataflow_edges().len() + n > GRAPH_LIMIT
    }

    /// The assembler is what the assembly of a sub-reactor receives when
    /// the assembler `before` enters the sub-reactor with the reactions
    /// `reactions`: the reactor that is being assembled is a new reactor,
    /// the child of the one before; its names are those of its reactions,
    /// which are declared and registered; and the data-flow graph holds
    /// them, each with an edge to the one declared after it.
    pub open spec fn entered_from(&self, before: &Self, reactions: Seq<&'static str>) -> bool {
        let child = ReactorId { raw: before.shared().parents().len() as u16 };
        &&& self.reactor_id() == child
        &&& self.shared().parents() == before.shared().parents().push(Some(before.reactor_id()))
        &&& self.names() == name_texts(reactions)
        &&& self.reaction_count() == reactions.len()
        &&& self.flow().dataflow_nodes() == with_reactions(
            before.flow().dataflow_nodes(),
            reactions_of(child, reactions.len()),
        )
        &&& self.flow().dataflow_edges() == before.flow().dataflow_edges() + priority_edges(
            self.flow().dataflow_nodes(),
            reactions_of(child, reactions.len()),
        )
        &&& self.flow().trigger_nodes() == before.flow().trigger_nodes()
        &&& self.flow().trigger_edges() == before.flow().trigger_edges()
    }

    /// Enters a sub-reactor: gives it the name `name` in this reactor,
    /// makes it a reactor of the program, and declares its reactions,
    /// whose names are `reactions`. From then on the assembler assembles
    /// the sub-reactor, until `leave_subreactor` is given what this
    /// function returns beside the id of the sub-reactor.
    ///
    /// Without room for the sub-reactor, or for its name, the error is
    /// `Overflow`; with a name that was given before it is
    /// `DuplicateName`; in both cases nothing changes. Where a name occurs
    /// twice among the reactions, the sub-reactor has got its name, and
    /// the error is that of the sub-reactor: `DuplicateName` in the
    /// context of its id.
    pub fn enter_subreactor(
        &mut self,
        name: &'static str,
        reactor_type: &'static str,
        reactions: &Vec<&'static str>,
    ) -> (r: Result<(GlobalId, ParentContext), AssemblyError>)
        ensures
            (r matches Err(e) && e is Overflow) <==> old(self).lacks_room_for_reactor(
                reactions@.len() as nat,
            ) || (!old(self).knows(name@) && old(self).names().len() >= ID_SPAN),
            (r matches Err(e) && e is DuplicateName) <==> !old(self).lacks_room_for_reactor(
                reactions@.len() as nat,
            ) && old(self).knows(name@),
            (r matches Err(e) && e is InContext) <==> !old(self).lacks_room_for_reactor(
                reactions@.len() as nat,
            ) && !old(self).knows(name@) && old(self).names().len() < ID_SPAN && repeats(
                name_texts(reactions@),
            ),
            r matches Err(e) ==> e is Overflow || e is DuplicateName || e is InContext,
            r matches Err(AssemblyError::Overflow(_)) ==> final(self).unchanged_from(old(self)),
            r matches Err(AssemblyError::DuplicateName(n)) ==> n@ == name@ && final(self).unchanged_from(old(self)),
            r matches Err(AssemblyError::InContext(id, inner)) ==> {
                &&& id == old(self).next_id()
                &&& final(self).named_from(old(self), name@)
                &&& *inner matches AssemblyError::DuplicateName(n) && exists|i: int, k: int|
                    0 <= i < k < reactions@.len() && (#[trigger] reactions@[i])@ == n@ && (
                    #[trigger] reactions@[k])@ == n@
            },
            r matches Ok(entered) ==> {
                &&& entered.0 == old(self).next_id()
                &&& entered.1.reactor_id() == old(self).reactor_id()
                &&& entered.1.names() == old(self).names().push(name@)
                &&& final(self).entered_from(old(self), reactions@)
            },
    {
        proof {
            use_type_invariant(&*self);
            self.global.data_flow.lemma_wf();
        }
        let n = reactions.len();
        if self.global.parents.len() >= ID_SPAN || n > ID_SPAN {
            return Err(AssemblyError::Overflow("while allocating next reactor"));
        }
        if self.global.data_flow.dataflow_room() < n {
            return Err(AssemblyError::Overflow("while declaring reactions"));
        }
        let id = match self.new_id(name) {
            Err(e) => {
                return Err(e);
            },
            Ok(id) => id,
        };
        if let Some(k) = first_repeated(reactions) {
            return Err(
                AssemblyError::InContext(id, Box::new(AssemblyError::DuplicateName(reactions[k]))),
            );
        }
        let info = self.sub_id_for(reactor_type, name);
        let taken = self.take_apart();
        proof {
            use_type_invariant(&taken);
        }
        let ghost parent = taken;
        let Assembler { id: parent_id, local_names: parent_names, mut global } = taken;
        let child = ReactorId::new_const(global.parents.len() as u16);
        global.parents.push(Some(parent_id));
        global.reaction_counts.push(0);
        global.registry.record_reactor(&info);
        proof {
            let counts = global.reaction_counts@;
            assert forall|rid: int, j: int|
                0 <= rid < counts.len()
                    && 0 <= j < counts[rid] implies #[trigger] global.flow().registered().contains(
                pack(rid as u16, j as u16),
            ) by {
                assert(rid < parent.global.reaction_counts@.len());
                assert(counts[rid] == parent.global.reaction_counts@[rid]);
            }
            assert forall|rid: int| 0 <= rid < counts.len() implies (#[trigger] counts[rid])
                <= ID_SPAN by {
                if rid < parent.global.reaction_counts@.len() {
                    assert(counts[rid] == parent.global.reaction_counts@[rid]);
                }
            }
        }
        *self = Assembler { id: child, local_names: Vec::new(), global };
        assert(self.names() =~= Seq::<Seq<char>>::empty());
        let globals = self.make_reaction_global_ids(reactions);
        proof {
            assert forall|k: int| 0 <= k < globals@.len() implies (#[trigger] globals@[k]).0
                == GlobalId::spec_new(child, LocalReactionId { raw: k as u16 }) by {}
        }
        self.declare_reactions(globals);
        Ok((id, ParentContext { id: parent_id, local_names: parent_names }))
    }

    /// The assembler can go back to the reactor that `saved` keeps: that
    /// reactor is one of the program, and has no more reactions than
    /// names.
    pub open spec fn can_leave_to(&self, saved: ParentContext) -> bool {
        saved.reactor_id().raw < self.shared().parents().len()
            && self.shared().reaction_counts()[saved.reactor_id().raw as int]
            <= saved.names().len()
    }

    /// Leaves the sub-reactor that was entered when `saved` was returned:
    /// the assembler goes on assembling the reactor that was assembled
    /// before, with the names that it had. What is shared by the assembly
    /// of all reactors stays as the sub-reactor left it. Returns whether
    /// the assembler could go back, which it can after every assembly of a
    /// sub-reactor; where it cannot, nothing changes.
    pub fn leave_subreactor(&mut self, saved: ParentContext) -> (left: bool)
        ensures
            left == old(self).can_leave_to(saved),
            final(self).shared() == old(self).shared(),
            left ==> final(self).reactor_id() == saved.reactor_id() && final(self).names()
                == saved.names(),
            !left ==> final(self).reactor_id() == old(self).reactor_id() && final(self).names()
                == old(self).names(),
    {
        proof {
            use_type_invariant(&*self);
            use_type_invariant(&saved);
        }
        let ParentContext { id: parent_id, local_names: parent_names } = saved;
        if parent_id.index() >= self.global.parents.len()
            || self.global.reaction_counts[parent_id.index()] > parent_names.len() {
            return false;
        }
        let taken = self.take_apart();
        proof {
            use_type_invariant(&taken);
        }
        let Assembler { id: _, local_names: _, global } = taken;
        *self = Assembler { id: parent_id, local_names: parent_names, global };
        true
    }

    /// Assembles a sub-reactor of type `S` under the name `name`. The
    /// ports of the sub-reactor can be used in the dependencies and the
    /// bindings of this reactor afterwards. An error of the assembly of
    /// the sub-reactor is returned with the id of the sub-reactor.
    pub fn new_subreactor<B, S: Reactor<B>>(&mut self, banks: &mut B, name: &'static str) -> (r:
        Result<RunnableReactor<S, S::State>, AssemblyError>)
        ensures
            old(self).shared().parents().len() >= ID_SPAN ==> (r matches Err(e) && e is Overflow)
                && final(self).unchanged_from(old(self)),
            old(self).knows(name@) ==> (r matches Err(e) && (e is Overflow || (
            e matches AssemblyError::DuplicateName(n) && n@ == name@))) && final(self).unchanged_from(old(self)),
            r matches Err(e) ==> e is InContext || e is Overflow || (
            e matches AssemblyError::DuplicateName(n) && n@ == name@ && old(self).knows(name@)),
            r matches Ok(run) ==> !old(self).knows(name@)
                && run.spec_global_id() == old(self).next_id()
                && final(self).reactor_id() == old(self).reactor_id()
                && final(self).names() == old(self).names().push(name@),
            r matches Err(AssemblyError::InContext(ctx, _)) ==> ctx == old(self).next_id()
                && final(self).reactor_id() == old(self).reactor_id() && final(self).names()
                == old(self).names().push(name@),
    {
        let names = S::reaction_names();
        let (id, saved) = match self.enter_subreactor(name, S::type_label(), &names) {
            Err(e) => {
                return Err(e);
            },
            Ok(entered) => entered,
        };
        let result = S::assemble(self, banks);
        // The assembly of a sub-reactor adds reactors and names and takes none
        // away, so the way back is always open; but what the assembly did is
        // not known here, and the answer of `leave_subreactor` stands in for
        // that knowledge.
        if !self.leave_subreactor(saved) {
            return Err(AssemblyError::Overflow("while leaving a sub-reactor"));
        }
        Self::finish_subreactor::<B, S>(id, result)
    }

    /// The dumps of the data-flow graph and of the trigger graph in the
    /// DOT language, for diagnostics. The nodes are labelled with the
    /// paths and the names of what they stand for.
    pub fn graph_dump(&self) -> (dumps: (String, String))
        ensures
            dumps.0@ == dot_text(
                self.shared().registry(),
                self.flow().dataflow_nodes(),
                self.flow().dataflow_edges(),
            ),
            dumps.1@ == dot_text(
                self.shared().registry(),
                self.flow().trigger_nodes(),
                self.flow().trigger_edges(),
            ),
    {
        proof {
            use_type_invariant(self);
        }
        (
            self.global.data_flow.dataflow_dot(&self.global.registry),
            self.global.data_flow.trigger_dot(&self.global.registry),
        )
    }

    /// Ends the assembly: sorts the data-flow graph and takes the snapshot
    /// of the program that the scheduler runs on. A cycle in the declared
    /// data flow is an error.
    pub fn finish(self) -> (r: Result<Schedulable, AssemblyError>)
        ensures
            r is Ok <==> !has_cycle(self.flow().dataflow_edges()),
            r matches Ok(s) ==> exists|order: Seq<usize>|
                is_topological_order(
                    order,
                    self.flow().dataflow_nodes().len(),
                    self.flow().dataflow_edges(),
                ) && #[trigger] s.describes(self.flow(), order),
            r matches Err(e) ==> exists|n: usize|
                n < self.flow().dataflow_nodes().len() && #[trigger] on_cycle(
                    self.flow().dataflow_edges(),
                    n,
                ) && (e matches AssemblyError::CyclicDependency(msg) && msg@ == cycle_message(
                    self.flow().dataflow_nodes()[n as int].1,
                )),
    {
        proof {
            use_type_invariant(&self);
        }
        let Assembler { id: _, local_names: _, global } = self;
        let GlobalAssembler { data_flow, parents: _, reaction_counts: _, registry: _ } = global;
        let ghost flow = data_flow;
        let r = data_flow.consume_to_schedulable();
        proof {
            match &r {
                Ok(s) => {
                    let order = choose|order: Seq<usize>|
                        is_topological_order(
                            order,
                            flow.dataflow_nodes().len(),
                            flow.dataflow_edges(),
                        ) && #[trigger] s.describes(flow, order);
                    assert(s.describes(self.flow(), order));
                },
                Err(e) => {
                    let n = choose|n: usize|
                        n < flow.dataflow_nodes().len() && #[trigger] on_cycle(
                            flow.dataflow_edges(),
                            n,
                        ) && (*e matches AssemblyError::CyclicDependency(msg) && msg@
                            == cycle_message(flow.dataflow_nodes()[n as int].1));
                    assert(on_cycle(self.flow().dataflow_edges(), n));
                },
            }
        }
        r
    }

    /// Ends the assembly of a program whose world reactor was assembled
    /// into `world`: gives the world its name, ":root:", and takes the
    /// snapshot of the program.
    pub fn finish_world<R>(self, world: R) -> (r: Result<
        (RunnableReactor<R, ()>, Schedulable),
        AssemblyError,
    >)
        ensures
            r is Ok <==> !self.knows(":root:"@) && self.names().len() < ID_SPAN && !has_cycle(
                self.flow().dataflow_edges(),
            ),
            r matches Ok(pair) ==> pair.0.spec_reactor() == world && pair.0.spec_global_id()
                == self.next_id() && exists|order: Seq<usize>|
                is_topological_order(
                    order,
                    self.flow().dataflow_nodes().len(),
                    self.flow().dataflow_edges(),
                ) && #[trigger] pair.1.describes(self.flow(), order),
            r matches Err(e) ==> if self.knows(":root:"@) {
                e matches AssemblyError::DuplicateName(n) && n@ == ":root:"@
            } else if self.names().len() >= ID_SPAN {
                e is Overflow
            } else {
                e is CyclicDependency
            },
    {
        let mut root_assembler = self;
        let id = match root_assembler.new_id(":root:") {
            Err(e) => {
                return Err(e);
            },
            Ok(id) => id,
        };
        match root_assembler.finish() {
            Err(e) => Err(e),
            Ok(schedulable) => {
                let ghost order = choose|order: Seq<usize>|
                    is_topological_order(
                        order,
                        root_assembler.flow().dataflow_nodes().len(),
                        root_assembler.flow().dataflow_edges(),
                    ) && #[trigger] schedulable.describes(root_assembler.flow(), order);
                let pair = (RunnableReactor::new(world, id, ()), schedulable);
                assert(is_topological_order(
                    order,
                    self.flow().dataflow_nodes().len(),
                    self.flow().dataflow_edges(),
                ) && pair.1.describes(self.flow(), order));
                Ok(pair)
            },
        }
    }

    /// `run` and `snapshot` are what the assembly `assembly` gives when it
    /// is ended: the assembly is well formed, has no cycle in its data
    /// flow and has the name ":root:" to give, `run` has the id of that
    /// name, and `snapshot` describes the graphs of the assembly.
    pub open spec fn is_world_of<R>(
        assembly: Assembler,
        run: RunnableReactor<R, ()>,
        snapshot: Schedulable,
    ) -> bool {
        &&& assembly.wf()
        &&& !assembly.knows(":root:"@)
        &&& assembly.names().len() < ID_SPAN
        &&& !has_cycle(assembly.flow().dataflow_edges())
        &&& run.spec_global_id() == assembly.next_id()
        &&& exists|order: Seq<usize>|
            is_topological_order(
                order,
                assembly.flow().dataflow_nodes().len(),
                assembly.flow().dataflow_edges(),
            ) && #[trigger] snapshot.describes(assembly.flow(), order)
    }

    /// Assembles a program: the world reactor `R` and all that it
    /// declares. Returns the assembled world and the snapshot of the
    /// program that the scheduler runs on: what `finish_world` gives for
    /// the assembly that the world reactor made.
    pub fn make_world<B, R: WorldReactor<B>>(banks: &mut B) -> (r: Result<
        (RunnableReactor<R, ()>, Schedulable),
        AssemblyError,
    >)
        ensures
            r matches Ok(pair) ==> exists|assembly: Assembler| #[trigger]
                Self::is_world_of(assembly, pair.0, pair.1),
    {
        let mut root_assembler = Assembler::new();
        match R::assemble(&mut root_assembler, banks) {
            Err(e) => Err(e),
            Ok(world) => {
                root_assembler.is_wf();
                let ghost assembly = root_assembler;
                let r = root_assembler.finish_world(world);
                proof {
                    if let Ok(pair) = &r {
                        let order = choose|order: Seq<usize>|
                            is_topological_order(
                                order,
                                assembly.flow().dataflow_nodes().len(),
                                assembly.flow().dataflow_edges(),
                            ) && #[trigger] pair.1.describes(assembly.flow(), order);
                        assert(pair.1.describes(assembly.flow(), order));
                        assert(Self::is_world_of(assembly, pair.0, pair.1));
                    }
                }
                r
            },
        }
    }
}

} // verus!
