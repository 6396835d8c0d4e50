//! Compact numeric identifiers of reactors and of their components.

use std::collections::HashMap;
use std::ops::Range;
use vstd::prelude::*;
use vstd::string::StringExecFns;

verus! {

/// Number of distinct local ids inside one reactor.
pub const LOCAL_ID_SPAN: u32 = 0x1_0000;

/// Index of a component (reaction, port, action) inside its reactor.
#[derive(Debug, Clone, Copy, PartialEq, Eq, Structural, PartialOrd, Ord, Hash)]
pub struct LocalReactionId {
    pub raw: u16,
}

impl LocalReactionId {
    /// The first local id.
    pub fn zero() -> (id: Self)
        ensures
            id.raw == 0,
    {
        LocalReactionId { raw: 0 }
    }

    pub fn new_const(u: u16) -> (id: Self)
        ensures
            id.raw == u,
    {
        LocalReactionId { raw: u }
    }

    pub open spec fn spec_index(self) -> usize {
        self.raw as usize
    }

    #[verifier::when_used_as_spec(spec_index)]
    pub fn index(self) -> (i: usize)
        ensures
            i == self.spec_index(),
    {
        self.raw as usize
    }
}

/// Unique index of a reactor instance during execution.
#[derive(Debug, Clone, Copy, PartialEq, Eq, Structural, PartialOrd, Ord, Hash)]
pub struct ReactorId {
    pub raw: u16,
}

impl ReactorId {
    pub fn new_const(u: u16) -> (id: Self)
        ensures
            id.raw == u,
    {
        ReactorId { raw: u }
    }

    pub open spec fn spec_index(self) -> usize {
        self.raw as usize
    }

    #[verifier::when_used_as_spec(spec_index)]
    pub fn index(self) -> (i: usize)
        ensures
            i == self.spec_index(),
    {
        self.raw as usize
    }
}

impl Default for ReactorId {
    fn default() -> (id: Self)
        ensures
            id.raw == 0,
    {
        ReactorId { raw: 0 }
    }
}

/// Identifies a component of a reactor by the id of its container and a
/// local id, packed into 32 bits: the container in the upper half, the
/// local id in the lower half.
#[derive(Debug, Clone, Copy, PartialEq, Eq, Structural, PartialOrd, Ord, Hash)]
pub struct GlobalId {
    pub raw: u32,
}

/// The packed form of the pair `(container, local)`.
pub open spec fn pack(container: u16, local: u16) -> u32 {
    (container as u32 * LOCAL_ID_SPAN + local as u32) as u32
}

pub proof fn lemma_pack_bits(container: u16, local: u16)
    ensures
        ((container as u32) << 16 | (local as u32)) == pack(container, local),
        pack(container, local) >> 16 == container as u32,
        pack(container, local) & 0xffff == local as u32,
{
    let c = container as u32;
    let l = local as u32;
    assert((c << 16 | l) == (c * 0x1_0000 + l) as u32) by (bit_vector)
        requires
            c < 0x1_0000,
            l < 0x1_0000,
    ;
    let p = pack(container, local);
    assert(p >> 16 == c && p & 0xffff == l) by (bit_vector)
        requires
            c < 0x1_0000,
            l < 0x1_0000,
            p == (c * 0x1_0000 + l) as u32,
    ;
}

pub proof fn lemma_unpack_bits(raw: u32)
    ensures
        raw >> 16 == raw / LOCAL_ID_SPAN,
        raw & 0xffff == raw % LOCAL_ID_SPAN,
        raw >> 16 < 0x1_0000,
{
    assert(raw >> 16 == raw / 0x1_0000 && raw & 0xffff == raw % 0x1_0000 && raw >> 16 < 0x1_0000)
        by (bit_vector);
}

impl GlobalId {
    /// The reactor that holds the component.
    pub open spec fn spec_container(&self) -> ReactorId {
        ReactorId { raw: (self.raw / LOCAL_ID_SPAN) as u16 }
    }

    /// The component's index inside its reactor.
    pub open spec fn spec_local(&self) -> LocalReactionId {
        LocalReactionId { raw: (self.raw % LOCAL_ID_SPAN) as u16 }
    }

    pub open spec fn spec_new(container: ReactorId, local: LocalReactionId) -> GlobalId {
        GlobalId { raw: pack(container.raw, local.raw) }
    }

    pub fn new(container: ReactorId, local: LocalReactionId) -> (id: Self)
        ensures
            id == Self::spec_new(container, local),
            id.spec_container() == container,
            id.spec_local() == local,
    {
        proof {
            lemma_pack_bits(container.raw, local.raw);
        }
        let raw: u32 = (container.raw as u32) << 16 | (local.raw as u32);
        GlobalId { raw }
    }

    /// The id that follows this one in the same reactor.
    pub fn next_id(&self) -> (id: GlobalId)
        requires
            self.spec_local().raw != 0xffff,
        ensures
            id.raw == self.raw + 1,
            id.spec_container() == self.spec_container(),
            id.spec_local().raw == self.spec_local().raw + 1,
    {
        GlobalId { raw: self.raw + 1 }
    }

    /// The `len` ids that start at this one: the range from this id up
    /// to, and without, the id `len` steps after it.
    pub fn id_range(&self, len: usize) -> (r: Range<GlobalId>)
        requires
            self.spec_local().raw + len <= 0xffff,
        ensures
            r.start == *self,
            r.end.raw == self.raw + len,
            r.end.spec_container() == self.spec_container(),
            r.end.spec_local().raw == self.spec_local().raw + len,
    {
        Range { start: *self, end: GlobalId { raw: self.raw + (len as u32) } }
    }

    pub fn first_id() -> (id: GlobalId)
        ensures
            id.raw == 0,
            id == Self::spec_new(ReactorId { raw: 0 }, LocalReactionId { raw: 0 }),
    {
        GlobalId { raw: 0 }
    }

    #[verifier::when_used_as_spec(spec_container)]
    pub fn container(&self) -> (c: ReactorId)
        ensures
            c == self.spec_container(),
    {
        proof {
            lemma_unpack_bits(self.raw);
        }
        ReactorId::new_const((self.raw >> 16) as u16)
    }

    #[verifier::when_used_as_spec(spec_local)]
    pub fn local(&self) -> (l: LocalReactionId)
        ensures
            l == self.spec_local(),
    {
        proof {
            lemma_unpack_bits(self.raw);
        }
        LocalReactionId::new_const((self.raw & 0xffff) as u16)
    }

    /// The value that stands for this id in a hash table: the packed form.
    pub fn hash_value(&self) -> (h: u32)
        ensures
            h == self.raw,
    {
        self.raw
    }

    /// The number of steps from `start` up to `end`; `None` when `end` is
    /// before `start`.
    pub fn steps_between(start: &Self, end: &Self) -> (r: Option<usize>)
        ensures
            r == if start.raw <= end.raw {
                Some((end.raw - start.raw) as usize)
            } else {
                None
            },
    {
        if start.raw <= end.raw {
            Some((end.raw - start.raw) as usize)
        } else {
            None
        }
    }

    /// The id `count` steps after `start`; `None` when there is none.
    pub fn forward_checked(start: Self, count: usize) -> (r: Option<Self>)
        ensures
            r is Some <==> start.raw + count <= u32::MAX,
            r matches Some(id) ==> id.raw == start.raw + count,
    {
        if count > u32::MAX as usize {
            return None;
        }
        match start.raw.checked_add(count as u32) {
            Some(raw) => Some(GlobalId { raw }),
            None => None,
        }
    }

    /// The id `count` steps before `start`; `None` when there is none.
    pub fn backward_checked(start: Self, count: usize) -> (r: Option<Self>)
        ensures
            r is Some <==> count <= start.raw,
            r matches Some(id) ==> id.raw == start.raw - count,
    {
        if count > u32::MAX as usize {
            return None;
        }
        match start.raw.checked_sub(count as u32) {
            Some(raw) => Some(GlobalId { raw }),
            None => None,
        }
    }
}

/// An id is the pair of its two halves.
pub proof fn law_global_id_roundtrip(id: GlobalId)
    ensures
        GlobalId::spec_new(id.spec_container(), id.spec_local()) == id,
{
}

/// Two ids with the same container and the same local id are the same id.
pub proof fn law_global_id_injective(a: GlobalId, b: GlobalId)
    requires
        a.spec_container() == b.spec_container(),
        a.spec_local() == b.spec_local(),
    ensures
        a == b,
{
    law_global_id_roundtrip(a);
    law_global_id_roundtrip(b);
}

/// Global identifier of a reaction.
#[derive(Debug, Clone, Copy, PartialEq, Eq, Structural, PartialOrd, Ord, Hash)]
pub struct GlobalReactionId(pub GlobalId);

impl GlobalReactionId {
    pub fn new(container: ReactorId, local: LocalReactionId) -> (id: Self)
        ensures
            id.0 == GlobalId::spec_new(container, local),
            id.0.spec_container() == container,
            id.0.spec_local() == local,
    {
        GlobalReactionId(GlobalId::new(container, local))
    }
}

/// What can trigger a reaction.
#[derive(Debug, Clone, Copy, PartialEq, Eq, Structural)]
pub enum TriggerIdImpl {
    Startup,
    Shutdown,
    Component(GlobalId),
}

/// Identifier of a trigger: the start of the program, its end, or a
/// component (port, action) of some reactor.
#[derive(Debug, Clone, Copy, PartialEq, Eq, Structural)]
pub struct TriggerId(pub TriggerIdImpl);

impl TriggerId {
    pub fn startup() -> (t: Self)
        ensures
            t.0 == TriggerIdImpl::Startup,
    {
        TriggerId(TriggerIdImpl::Startup)
    }

    pub fn shutdown() -> (t: Self)
        ensures
            t.0 == TriggerIdImpl::Shutdown,
    {
        TriggerId(TriggerIdImpl::Shutdown)
    }

    pub fn new(id: GlobalId) -> (t: Self)
        ensures
            t.0 == TriggerIdImpl::Component(id),
    {
        TriggerId(TriggerIdImpl::Component(id))
    }

    pub open spec fn spec_hash_value(&self) -> u32 {
        match self.0 {
            TriggerIdImpl::Startup => u32::MAX,
            TriggerIdImpl::Shutdown => u32::MAX,
            TriggerIdImpl::Component(id) => id.raw,
        }
    }

    /// The value that stands for this trigger in a hash table. The two
    /// pseudo-triggers share one value: each occurs once in a program.
    #[verifier::when_used_as_spec(spec_hash_value)]
    pub fn hash_value(&self) -> (h: u32)
        ensures
            h == self.spec_hash_value(),
    {
        match self.0 {
            TriggerIdImpl::Startup => u32::MAX,
            TriggerIdImpl::Shutdown => u32::MAX,
            TriggerIdImpl::Component(id) => id.raw,
        }
    }
}

/// The character of a decimal digit.
pub open spec fn digit_char(d: nat) -> char {
    if d == 0 {
        '0'
    } else if d == 1 {
        '1'
    } else if d == 2 {
        '2'
    } else if d == 3 {
        '3'
    } else if d == 4 {
        '4'
    } else if d == 5 {
        '5'
    } else if d == 6 {
        '6'
    } else if d == 7 {
        '7'
    } else if d == 8 {
        '8'
    } else {
        '9'
    }
}

/// The decimal notation of a number, without leading zeros.
pub open spec fn decimal(n: nat) -> Seq<char>
    decreases n,
{
    if n < 10 {
        seq![digit_char(n)]
    } else {
        decimal(n / 10).push(digit_char(n % 10))
    }
}

fn digit_str(d: u32) -> (s: &'static str)
    requires
        d < 10,
    ensures
        s@ == seq![digit_char(d as nat)],
{
    proof {
        reveal_strlit("0");
        reveal_strlit("1");
        reveal_strlit("2");
        reveal_strlit("3");
        reveal_strlit("4");
        reveal_strlit("5");
        reveal_strlit("6");
        reveal_strlit("7");
        reveal_strlit("8");
        reveal_strlit("9");
    }
    let s = if d == 0 {
        "0"
    } else if d == 1 {
        "1"
    } else if d == 2 {
        "2"
    } else if d == 3 {
        "3"
    } else if d == 4 {
        "4"
    } else if d == 5 {
        "5"
    } else if d == 6 {
        "6"
    } else if d == 7 {
        "7"
    } else if d == 8 {
        "8"
    } else {
        "9"
    };
    assert(s@ =~= seq![digit_char(d as nat)]);
    s
}

/// Appends the decimal notation of `n` to `s`.
pub fn push_decimal(s: &mut String, n: u32)
    ensures
        final(s)@ == old(s)@ + decimal(n as nat),
    decreases n,
{
    if n >= 10 {
        push_decimal(s, n / 10);
        s.append(digit_str(n % 10));
        assert(s@ =~= old(s)@ + decimal(n as nat));
    } else {
        s.append(digit_str(n));
    }
}

impl GlobalId {
    /// How an id is written: the container, a slash, the local id.
    pub open spec fn spec_display(self) -> Seq<char> {
        decimal(self.spec_container().raw as nat) + seq!['/'] + decimal(
            self.spec_local().raw as nat,
        )
    }

    /// Appends the written form of the id to `s`.
    pub fn push_display(&self, s: &mut String)
        ensures
            final(s)@ == old(s)@ + self.spec_display(),
    {
        proof {
            reveal_strlit("/");
        }
        push_decimal(s, self.container().raw as u32);
        s.append("/");
        push_decimal(s, self.local().raw as u32);
        assert(s@ =~= old(s)@ + self.spec_display());
    }

    /// The written form of the id.
    pub fn display(&self) -> (s: String)
        ensures
            s@ == self.spec_display(),
    {
        let mut s = String::new();
        self.push_display(&mut s);
        assert(s@ =~= self.spec_display());
        s
    }
}

impl GlobalReactionId {
    /// The written form of the id.
    pub fn display(&self) -> (s: String)
        ensures
            s@ == self.0.spec_display(),
    {
        self.0.display()
    }
}

/// What is known, for diagnostics, of the place of a reactor in the tree
/// of reactors.
#[derive(Debug)]
pub struct ReactorDebugInfo {
    /// The name of the type of the reactor.
    pub reactor_type: &'static str,
    /// The name of this instance: the last segment of its path.
    pub inst_name: &'static str,
    /// The path to this instance, such as "/parent/child/".
    pub inst_path: String,
}

impl ReactorDebugInfo {
    /// The information of the root of the tree, a reactor whose type is
    /// called `reactor_type`.
    pub fn root(reactor_type: &'static str) -> (info: Self)
        ensures
            info.reactor_type@ == reactor_type@,
            info.inst_name@ == "/"@,
            info.inst_path@ == "/"@,
    {
        ReactorDebugInfo { reactor_type, inst_name: "/", inst_path: String::from_str("/") }
    }

    /// The information of the child named `inst_name`, a reactor whose
    /// type is called `reactor_type`, of this reactor.
    pub fn derive(&self, reactor_type: &'static str, inst_name: &'static str) -> (info: Self)
        ensures
            info.reactor_type@ == reactor_type@,
            info.inst_name@ == inst_name@,
            info.inst_path@ == self.inst_path@ + inst_name@ + "/"@,
    {
        let mut inst_path = self.inst_path.clone();
        inst_path.append(inst_name);
        inst_path.append("/");
        ReactorDebugInfo { reactor_type, inst_name, inst_path }
    }

    /// A copy of the information.
    pub fn duplicate(&self) -> (info: Self)
        ensures
            info.reactor_type@ == self.reactor_type@,
            info.inst_name@ == self.inst_name@,
            info.inst_path@ == self.inst_path@,
    {
        ReactorDebugInfo {
            reactor_type: self.reactor_type,
            inst_name: self.inst_name,
            inst_path: self.inst_path.clone(),
        }
    }

    /// The written form of the information: the path.
    pub fn display(&self) -> (s: String)
        ensures
            s@ == self.inst_path@,
    {
        self.inst_path.clone()
    }
}

/// The labels given to components and the places of the reactors, kept
/// for diagnostics.
pub struct IdRegistry {
    debug_ids: HashMap<u32, String>,
    reactor_infos: Vec<ReactorDebugInfo>,
}

impl IdRegistry {
    /// The labels, by the packed id of the component.
    pub closed spec fn labels(&self) -> Map<u32, Seq<char>> {
        Map::new(|id: u32| self.debug_ids@.contains_key(id), |id: u32| self.debug_ids@[id]@)
    }

    /// The paths of the reactors, by reactor id.
    pub closed spec fn paths(&self) -> Seq<Seq<char>> {
        Seq::new(self.reactor_infos@.len(), |k: int| self.reactor_infos@[k].inst_path@)
    }

    /// How a component is written when it has no label: the path of its
    /// reactor and its local id.
    pub open spec fn spec_component_path(&self, id: GlobalId) -> Seq<char> {
        self.paths()[id.spec_container().raw as int] + decimal(id.spec_local().raw as nat)
    }

    /// How a reaction is written: as a component without label, followed,
    /// when it has a label, by "@" and the label.
    pub open spec fn spec_reaction(&self, id: GlobalReactionId) -> Seq<char> {
        if self.labels().contains_key(id.0.raw) {
            self.spec_component_path(id.0) + "@"@ + self.labels()[id.0.raw]
        } else {
            self.spec_component_path(id.0)
        }
    }

    /// A registry that knows nothing.
    pub fn new() -> (r: Self)
        ensures
            r.labels() == Map::<u32, Seq<char>>::empty(),
            r.paths() == Seq::<Seq<char>>::empty(),
    {
        let r = IdRegistry { debug_ids: HashMap::new(), reactor_infos: Vec::new() };
        assert(r.labels() =~= Map::<u32, Seq<char>>::empty());
        assert(r.paths() =~= Seq::<Seq<char>>::empty());
        r
    }

    /// The number of reactors whose place is known.
    pub fn reactor_count(&self) -> (n: usize)
        ensures
            n == self.paths().len(),
    {
        self.reactor_infos.len()
    }

    /// The label of a component, if it has one.
    pub fn get_debug_label(&self, id: GlobalId) -> (label: Option<&str>)
        ensures
            label is Some <==> self.labels().contains_key(id.raw),
            label matches Some(text) ==> text@ == self.labels()[id.raw],
    {
        broadcast use vstd::std_specs::hash::group_hash_axioms;

        match self.debug_ids.get(&id.raw) {
            Some(text) => Some(text.as_str()),
            None => None,
        }
    }

    /// The place of a reactor.
    pub fn get_debug_info(&self, id: ReactorId) -> (info: &ReactorDebugInfo)
        requires
            id.raw < self.paths().len(),
        ensures
            info.inst_path@ == self.paths()[id.raw as int],
    {
        &self.reactor_infos[id.index()]
    }

    /// How a component is written when it has no label.
    pub fn fmt_component_path(&self, id: GlobalId) -> (s: String)
        requires
            id.spec_container().raw < self.paths().len(),
        ensures
            s@ == self.spec_component_path(id),
    {
        let mut s = self.get_debug_info(id.container()).display();
        push_decimal(&mut s, id.local().raw as u32);
        s
    }

    /// How a component is written: the path of its reactor, followed by
    /// its label, or by its local id when it has no label.
    pub open spec fn spec_component(&self, id: GlobalId) -> Seq<char> {
        if self.labels().contains_key(id.raw) {
            self.paths()[id.spec_container().raw as int] + self.labels()[id.raw]
        } else {
            self.spec_component_path(id)
        }
    }

    /// How a component is written.
    pub fn fmt_component(&self, id: GlobalId) -> (s: String)
        requires
            id.spec_container().raw < self.paths().len(),
        ensures
            s@ == self.spec_component(id),
    {
        if let Some(label) = self.get_debug_label(id) {
            let mut s = self.get_debug_info(id.container()).display();
            s.append(label);
            s
        } else {
            self.fmt_component_path(id)
        }
    }

    /// How a reaction is written.
    pub fn fmt_reaction(&self, id: GlobalReactionId) -> (s: String)
        requires
            id.0.spec_container().raw < self.paths().len(),
        ensures
            s@ == self.spec_reaction(id),
    {
        let mut s = self.fmt_component_path(id.0);
        if let Some(label) = self.get_debug_label(id.0) {
            s.append("@");
            s.append(label);
        }
        s
    }

    /// Gives a component a label, in place of the one it had.
    pub fn record(&mut self, id: GlobalId, name: String)
        ensures
            final(self).labels() == old(self).labels().insert(id.raw, name@),
            final(self).paths() == old(self).paths(),
    {
        broadcast use vstd::std_specs::hash::group_hash_axioms;

        self.debug_ids.insert(id.raw, name);
        assert(self.labels() =~= old(self).labels().insert(id.raw, name@));
        assert(self.paths() =~= old(self).paths());
    }

    /// Records the place of the next reactor: the one whose id is the
    /// number of reactors recorded so far.
    pub fn record_reactor(&mut self, debug: &ReactorDebugInfo)
        ensures
            final(self).labels() == old(self).labels(),
            final(self).paths() == old(self).paths().push(debug.inst_path@),
    {
        self.reactor_infos.push(debug.duplicate());
        assert(self.labels() =~= old(self).labels());
        assert(self.paths() =~= old(self).paths().push(debug.inst_path@));
    }
}

} // verus!
