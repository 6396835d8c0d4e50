//! Ports: value cells that reactions read and set, and that can be bound
//! to one another so that a value set upstream is seen downstream.
//!
//! The ports of one value type live together in a `PortBank`. A port is
//! named by a `Port` handle. Each port points at a cell of the bank; a
//! port that is bound to an upstream port points at the cell of that
//! port, which is how it sees the values set there.

use crate::ids::{GlobalId, GlobalReactionId, LocalReactionId, ReactorId};
use vstd::prelude::*;

verus! {

/// Whether a port takes values into its reactor or gives them out.
#[derive(Debug, Clone, Copy, PartialEq, Eq, Structural)]
pub enum PortKind {
    Input,
    Output,
}

/// What bindings a port takes part in.
#[derive(Debug, Clone, Copy, PartialEq, Eq, Structural)]
pub enum BindStatus {
    /// The port takes part in no binding.
    Unbound,
    /// The port is upstream of some port, and has no upstream port itself.
    BoundUpstream,
    /// The port is bound to an upstream port, which drives its value.
    BoundDownstream,
}

/// The handle of a port of a bank.
#[derive(Debug, Clone, Copy, PartialEq, Eq, Structural)]
pub struct Port {
    pub id: GlobalId,
    pub kind: PortKind,
    pub slot: usize,
}

impl Port {
    pub open spec fn spec_is_input(&self) -> bool {
        self.kind == PortKind::Input
    }

    #[verifier::when_used_as_spec(spec_is_input)]
    pub fn is_input(&self) -> (b: bool)
        ensures
            b == self.spec_is_input(),
    {
        match self.kind {
            PortKind::Input => true,
            PortKind::Output => false,
        }
    }

    pub open spec fn spec_is_output(&self) -> bool {
        self.kind == PortKind::Output
    }

    #[verifier::when_used_as_spec(spec_is_output)]
    pub fn is_output(&self) -> (b: bool)
        ensures
            b == self.spec_is_output(),
    {
        match self.kind {
            PortKind::Input => false,
            PortKind::Output => true,
        }
    }

    pub fn global_id(&self) -> (id: GlobalId)
        ensures
            id == self.id,
    {
        self.id
    }
}

/// The state of one port of a bank.
#[derive(Debug, Clone, Copy)]
pub struct PortState {
    pub kind: PortKind,
    pub status: BindStatus,
    /// The cell that holds the value of the port.
    pub cell: usize,
}

/// The ports of one value type.
pub struct PortBank<T: Copy> {
    ports: Vec<PortState>,
    values: Vec<Option<T>>,
    downstream: Vec<Vec<GlobalReactionId>>,
}

/// The reactions of the reactor `container` with the given local ids.
pub open spec fn spec_make_deps(container: ReactorId, ids: Seq<u16>) -> Seq<GlobalReactionId> {
    Seq::new(
        ids.len(),
        |k: int| GlobalReactionId(GlobalId::spec_new(container, LocalReactionId { raw: ids[k] })),
    )
}

/// The reactions of the reactor `container` with the given local ids.
pub fn make_deps(container: ReactorId, ids: Vec<u16>) -> (deps: Vec<GlobalReactionId>)
    ensures
        deps@ == spec_make_deps(container, ids@),
{
    let mut deps: Vec<GlobalReactionId> = Vec::new();
    let mut k: usize = 0;
    while k < ids.len()
        invariant
            k <= ids@.len(),
            deps@.len() == k,
            forall|j: int|
                0 <= j < k ==> #[trigger] deps@[j] == GlobalReactionId(
                    GlobalId::spec_new(container, LocalReactionId { raw: ids@[j] }),
                ),
        decreases ids@.len() - k,
    {
        deps.push(GlobalReactionId::new(container, LocalReactionId::new_const(ids[k])));
        k += 1;
    }
    assert(deps@ =~= spec_make_deps(container, ids@));
    deps
}

/// A copy of a list of reactions.
pub fn copy_reactions(list: &Vec<GlobalReactionId>) -> (copy: Vec<GlobalReactionId>)
    ensures
        copy@ == list@,
{
    let mut copy: Vec<GlobalReactionId> = Vec::new();
    let mut k: usize = 0;
    while k < list.len()
        invariant
            k <= list@.len(),
            copy@ == list@.take(k as int),
        decreases list@.len() - k,
    {
        copy.push(list[k]);
        k += 1;
        assert(copy@ =~= list@.take(k as int));
    }
    assert(list@.take(k as int) =~= list@);
    copy
}

impl<T: Copy> PortBank<T> {
    /// The number of ports.
    pub closed spec fn len(&self) -> nat {
        self.ports@.len()
    }

    /// The kind of the port in `slot`.
    pub closed spec fn kind(&self, slot: int) -> PortKind {
        self.ports@[slot].kind
    }

    /// The bindings that the port in `slot` takes part in.
    pub closed spec fn status(&self, slot: int) -> BindStatus {
        self.ports@[slot].status
    }

    /// The cell that the port in `slot` points at. Ports that point at one
    /// cell show one value.
    pub closed spec fn cell(&self, slot: int) -> int {
        self.ports@[slot].cell as int
    }

    /// The value that the port in `slot` shows.
    pub closed spec fn value(&self, slot: int) -> Option<T> {
        self.values@[self.ports@[slot].cell as int]
    }

    /// The reactions recorded as depending on the port in `slot`.
    pub closed spec fn deps(&self, slot: int) -> Seq<GlobalReactionId> {
        self.downstream@[self.ports@[slot].cell as int]@
    }

    /// Every port points at a cell.
    #[verifier::type_invariant]
    spec fn inv(&self) -> bool {
        &&& self.values@.len() == self.ports@.len()
        &&& self.downstream@.len() == self.ports@.len()
        &&& forall|i: int|
            0 <= i < self.ports@.len() ==> (#[trigger] self.ports@[i]).cell < self.ports@.len()
    }

    /// Takes the bank out of `self` and leaves an empty bank in its place.
    fn take_apart(&mut self) -> (bank: PortBank<T>)
        ensures
            bank == *old(self),
    {
        let mut taken = PortBank::new();
        std::mem::swap(self, &mut taken);
        taken
    }

    /// Whether the handle names a port of this bank.
    pub fn contains(&self, port: &Port) -> (b: bool)
        ensures
            b == self.holds(*port),
    {
        proof {
            use_type_invariant(self);
        }
        if port.slot < self.ports.len() {
            match (self.ports[port.slot].kind, port.kind) {
                (PortKind::Input, PortKind::Input) => true,
                (PortKind::Output, PortKind::Output) => true,
                _ => false,
            }
        } else {
            false
        }
    }

    /// The number of ports.
    pub fn port_count(&self) -> (n: usize)
        ensures
            n == self.len(),
    {
        self.ports.len()
    }

    /// The handle `port` names a port of this bank.
    pub open spec fn holds(&self, port: Port) -> bool {
        port.slot < self.len() && self.kind(port.slot as int) == port.kind
    }

    /// This bank is what the bank `before` becomes when `value` is set on
    /// `port`: the ports that point at the cell of `port` show the value,
    /// and nothing else changes.
    pub open spec fn after_set(&self, before: &Self, port: Port, value: T) -> bool {
        &&& self.len() == before.len()
        &&& forall|i: int|
            0 <= i < before.len() ==> {
                &&& self.kind(i) == before.kind(i)
                &&& self.status(i) == before.status(i)
                &&& self.cell(i) == before.cell(i)
                &&& self.deps(i) == before.deps(i)
                &&& self.value(i) == if before.cell(i) == before.cell(port.slot as int) {
                    Some(value)
                } else {
                    before.value(i)
                }
            }
    }

    /// This bank is what the bank `before` becomes when `downstream` is
    /// bound to `upstream`: `downstream` points at the cell of `upstream`
    /// and is marked as bound, `upstream` is marked as upstream unless
    /// it is bound itself, the reactions recorded on `downstream` are
    /// added to those of the cell, and nothing else changes.
    pub open spec fn after_bind(&self, before: &Self, upstream: Port, downstream: Port) -> bool {
        &&& self.len() == before.len()
        &&& self.cell(downstream.slot as int) == before.cell(upstream.slot as int)
        &&& self.status(downstream.slot as int) == BindStatus::BoundDownstream
        &&& self.status(upstream.slot as int) == if before.status(upstream.slot as int)
            == BindStatus::Unbound {
            BindStatus::BoundUpstream
        } else {
            before.status(upstream.slot as int)
        }
        &&& forall|i: int|
            0 <= i < before.len() ==> {
                &&& self.kind(i) == before.kind(i)
                &&& i != downstream.slot ==> self.cell(i) == before.cell(i)
                &&& i != downstream.slot && i != upstream.slot ==> self.status(i) == before.status(
                    i,
                )
                &&& self.value(i) == if i == downstream.slot {
                    before.value(upstream.slot as int)
                } else {
                    before.value(i)
                }
                &&& self.deps(i) == if self.cell(i) == before.cell(upstream.slot as int) {
                    before.deps(upstream.slot as int) + before.deps(downstream.slot as int)
                } else {
                    before.deps(i)
                }
            }
    }

    /// This bank is what the bank `before` becomes when it is cleared: no
    /// port shows a value, and nothing else changes.
    pub open spec fn after_clear(&self, before: &Self) -> bool {
        &&& self.len() == before.len()
        &&& forall|i: int|
            0 <= i < before.len() ==> {
                &&& self.kind(i) == before.kind(i)
                &&& self.status(i) == before.status(i)
                &&& self.cell(i) == before.cell(i)
                &&& self.deps(i) == before.deps(i)
                &&& self.value(i) is None
            }
    }

    /// A bank without ports.
    pub fn new() -> (bank: Self)
        ensures
            bank.len() == 0,
    {
        PortBank { ports: Vec::new(), values: Vec::new(), downstream: Vec::new() }
    }

    /// Adds an unbound port without a value and without dependencies.
    pub fn new_port(&mut self, kind: PortKind, id: GlobalId) -> (port: Port)
        ensures
            final(self).len() == old(self).len() + 1,
            port == (Port { id, kind, slot: old(self).len() as usize }),
            final(self).holds(port),
            final(self).status(port.slot as int) == BindStatus::Unbound,
            final(self).cell(port.slot as int) == port.slot,
            final(self).value(port.slot as int) is None,
            final(self).deps(port.slot as int) == Seq::<GlobalReactionId>::empty(),
            forall|i: int|
                0 <= i < old(self).len() ==> {
                    &&& final(self).kind(i) == old(self).kind(i)
                    &&& final(self).status(i) == old(self).status(i)
                    &&& final(self).cell(i) == old(self).cell(i)
                    &&& final(self).value(i) == old(self).value(i)
                    &&& final(self).deps(i) == old(self).deps(i)
                },
    {
        let taken = self.take_apart();
        proof {
            use_type_invariant(&taken);
        }
        let PortBank { mut ports, mut values, mut downstream } = taken;
        let slot = ports.len();
        ports.push(PortState { kind, status: BindStatus::Unbound, cell: slot });
        values.push(None);
        downstream.push(Vec::new());
        *self = PortBank { ports, values, downstream };
        Port { id, kind, slot }
    }

    /// The value that a port shows: the one last set on the port, or on
    /// the port that drives it, since the bank was last cleared.
    pub fn get(&self, port: &Port) -> (v: Option<T>)
        requires
            self.holds(*port),
        ensures
            v == self.value(port.slot as int),
    {
        proof {
            use_type_invariant(self);
        }
        self.values[self.ports[port.slot].cell]
    }

    /// The bindings that a port takes part in.
    pub fn bind_status(&self, port: &Port) -> (s: BindStatus)
        requires
            self.holds(*port),
        ensures
            s == self.status(port.slot as int),
    {
        proof {
            use_type_invariant(self);
        }
        self.ports[port.slot].status
    }

    /// The reactions recorded as depending on a port.
    pub fn get_downstream_deps(&self, port: &Port) -> (deps: Vec<GlobalReactionId>)
        requires
            self.holds(*port),
        ensures
            deps@ == self.deps(port.slot as int),
    {
        proof {
            use_type_invariant(self);
        }
        copy_reactions(&self.downstream[self.ports[port.slot].cell])
    }

    /// Records the reactions that depend on a port, in place of those
    /// recorded before.
    pub fn set_downstream(&mut self, port: &Port, deps: Vec<GlobalReactionId>)
        requires
            old(self).holds(*port),
        ensures
            final(self).len() == old(self).len(),
            forall|i: int|
                0 <= i < old(self).len() ==> {
                    &&& final(self).kind(i) == old(self).kind(i)
                    &&& final(self).status(i) == old(self).status(i)
                    &&& final(self).cell(i) == old(self).cell(i)
                    &&& final(self).value(i) == old(self).value(i)
                    &&& final(self).deps(i) == if old(self).cell(i) == old(self).cell(
                        port.slot as int,
                    ) {
                        deps@
                    } else {
                        old(self).deps(i)
                    }
                },
    {
        let taken = self.take_apart();
        proof {
            use_type_invariant(&taken);
        }
        let PortBank { ports, values, mut downstream } = taken;
        let c = ports[port.slot].cell;
        downstream.set(c, deps);
        *self = PortBank { ports, values, downstream };
    }

    /// Sets the value of a port and returns the reactions recorded as
    /// depending on it. Every port that is bound to the port, directly or
    /// through other ports, shows the value from now on. A port that is
    /// driven by an upstream port cannot be set.
    pub fn set(&mut self, port: &Port, value: T) -> (deps: Vec<GlobalReactionId>)
        requires
            old(self).holds(*port),
            old(self).status(port.slot as int) != BindStatus::BoundDownstream,
        ensures
            final(self).len() == old(self).len(),
            final(self).after_set(old(self), *port, value),
            deps@ == old(self).deps(port.slot as int),
            final(self).value(port.slot as int) == Some(value),
            forall|i: int|
                0 <= i < old(self).len() ==> {
                    &&& final(self).kind(i) == old(self).kind(i)
                    &&& final(self).status(i) == old(self).status(i)
                    &&& final(self).cell(i) == old(self).cell(i)
                    &&& final(self).deps(i) == old(self).deps(i)
                    &&& final(self).value(i) == if old(self).cell(i) == old(self).cell(
                        port.slot as int,
                    ) {
                        Some(value)
                    } else {
                        old(self).value(i)
                    }
                },
    {
        let taken = self.take_apart();
        proof {
            use_type_invariant(&taken);
        }
        let PortBank { ports, mut values, downstream } = taken;
        let c = ports[port.slot].cell;
        values.set(c, Some(value));
        let deps = copy_reactions(&downstream[c]);
        *self = PortBank { ports, values, downstream };
        deps
    }

    /// Binds `downstream` to `upstream`: from now on `downstream` shows
    /// what `upstream` shows. The reactions recorded on `downstream` are
    /// added after those recorded on `upstream`. The downstream port must
    /// be unbound, so bindings in a chain are made from its upstream end.
    pub fn bind(&mut self, upstream: &Port, downstream: &Port)
        requires
            old(self).holds(*upstream),
            old(self).holds(*downstream),
            old(self).status(downstream.slot as int) == BindStatus::Unbound,
            upstream.slot != downstream.slot,
        ensures
            final(self).len() == old(self).len(),
            final(self).after_bind(old(self), *upstream, *downstream),
            final(self).cell(downstream.slot as int) == old(self).cell(upstream.slot as int),
            final(self).status(downstream.slot as int) == BindStatus::BoundDownstream,
            final(self).status(upstream.slot as int) == if old(self).status(upstream.slot as int)
                == BindStatus::Unbound {
                BindStatus::BoundUpstream
            } else {
                old(self).status(upstream.slot as int)
            },
            forall|i: int|
                0 <= i < old(self).len() ==> {
                    &&& final(self).kind(i) == old(self).kind(i)
                    &&& i != downstream.slot ==> final(self).cell(i) == old(self).cell(i)
                    &&& i != downstream.slot && i != upstream.slot ==> final(self).status(i)
                        == old(self).status(i)
                    &&& final(self).value(i) == if i == downstream.slot {
                        old(self).value(upstream.slot as int)
                    } else {
                        old(self).value(i)
                    }
                    &&& final(self).deps(i) == if final(self).cell(i) == old(self).cell(
                        upstream.slot as int,
                    ) {
                        old(self).deps(upstream.slot as int) + old(self).deps(
                            downstream.slot as int,
                        )
                    } else {
                        old(self).deps(i)
                    }
                },
    {
        let taken = self.take_apart();
        proof {
            use_type_invariant(&taken);
        }
        let PortBank { mut ports, values, downstream: mut recorded } = taken;
        let up = ports[upstream.slot];
        let down = ports[downstream.slot];
        let mut merged = copy_reactions(&recorded[up.cell]);
        let moved = copy_reactions(&recorded[down.cell]);
        let mut k: usize = 0;
        let ghost first = merged@;
        while k < moved.len()
            invariant
                k <= moved@.len(),
                merged@ == first + moved@.take(k as int),
            decreases moved@.len() - k,
        {
            merged.push(moved[k]);
            k += 1;
            assert(merged@ =~= first + moved@.take(k as int));
        }
        assert(moved@.take(k as int) =~= moved@);
        recorded.set(up.cell, merged);
        ports.set(
            downstream.slot,
            PortState { kind: down.kind, status: BindStatus::BoundDownstream, cell: up.cell },
        );
        let up_status = match up.status {
            BindStatus::Unbound => BindStatus::BoundUpstream,
            BindStatus::BoundUpstream => BindStatus::BoundUpstream,
            BindStatus::BoundDownstream => BindStatus::BoundDownstream,
        };
        ports.set(upstream.slot, PortState { kind: up.kind, status: up_status, cell: up.cell });
        *self = PortBank { ports, values, downstream: recorded };
    }

    /// Takes the values away from all ports. This is done when a wave of
    /// reactions has ended: a value lives for one tag.
    pub fn clear(&mut self)
        ensures
            final(self).len() == old(self).len(),
            final(self).after_clear(old(self)),
            forall|i: int|
                0 <= i < old(self).len() ==> {
                    &&& final(self).kind(i) == old(self).kind(i)
                    &&& final(self).status(i) == old(self).status(i)
                    &&& final(self).cell(i) == old(self).cell(i)
                    &&& final(self).deps(i) == old(self).deps(i)
                    &&& final(self).value(i) is None
                },
    {
        let taken = self.take_apart();
        proof {
            use_type_invariant(&taken);
        }
        let PortBank { ports, mut values, downstream } = taken;
        let n = values.len();
        let mut k: usize = 0;
        while k < n
            invariant
                n == values@.len(),
                k <= n,
                forall|j: int| 0 <= j < k ==> (#[trigger] values@[j]) is None,
            decreases n - k,
        {
            values.set(k, None);
            k += 1;
        }
        *self = PortBank { ports, values, downstream };
    }
}

/// A value set on a port is seen on a port that was bound to it: after
/// `downstream` was bound to `upstream` and `value` was set on `upstream`,
/// `downstream` shows `value`.
pub proof fn law_port_propagation<T: Copy>(
    unbound: PortBank<T>,
    bound: PortBank<T>,
    written: PortBank<T>,
    upstream: Port,
    downstream: Port,
    value: T,
)
    requires
        unbound.holds(upstream),
        unbound.holds(downstream),
        bound.after_bind(&unbound, upstream, downstream),
        written.after_set(&bound, upstream, value),
    ensures
        written.value(downstream.slot as int) == Some(value),
        written.value(upstream.slot as int) == Some(value),
{
}

/// A value set on a port is seen at the end of a chain of bindings: after
/// `middle` was bound to `first` and `last` to `middle`, a value set on
/// `first` shows on all three.
pub proof fn law_port_propagation_is_transitive<T: Copy>(
    a: PortBank<T>,
    b: PortBank<T>,
    c: PortBank<T>,
    d: PortBank<T>,
    first: Port,
    middle: Port,
    last: Port,
    value: T,
)
    requires
        a.holds(first),
        a.holds(middle),
        a.holds(last),
        first.slot != middle.slot,
        middle.slot != last.slot,
        first.slot != last.slot,
        b.after_bind(&a, first, middle),
        c.after_bind(&b, middle, last),
        d.after_set(&c, first, value),
    ensures
        d.value(first.slot as int) == Some(value),
        d.value(middle.slot as int) == Some(value),
        d.value(last.slot as int) == Some(value),
{
}

/// A value lives for one tag: when the bank was cleared at the end of a
/// wave, no port shows a value, and binding ports gives none a value. A
/// port shows a value again when one is set.
pub proof fn law_value_transience<T: Copy>(
    used: PortBank<T>,
    cleared: PortBank<T>,
    rebound: PortBank<T>,
    upstream: Port,
    downstream: Port,
    slot: int,
)
    requires
        cleared.after_clear(&used),
        used.holds(upstream),
        used.holds(downstream),
        rebound.after_bind(&cleared, upstream, downstream),
        0 <= slot < used.len(),
    ensures
        cleared.value(slot) is None,
        rebound.value(slot) is None,
{
}

/// A port is bound to an upstream port at most once: once `downstream`
/// was bound it is no longer unbound, which `bind` asks of its downstream
/// port; and it stays so whatever is set or cleared afterwards.
pub proof fn law_no_rebinding<T: Copy>(
    before: PortBank<T>,
    bound: PortBank<T>,
    upstream: Port,
    downstream: Port,
)
    requires
        before.holds(upstream),
        before.holds(downstream),
        bound.after_bind(&before, upstream, downstream),
    ensures
        bound.status(downstream.slot as int) == BindStatus::BoundDownstream,
        bound.status(upstream.slot as int) != BindStatus::Unbound || upstream.slot
            == downstream.slot,
        forall|later: PortBank<T>, p: Port, v: T| #[trigger]
            later.after_set(&bound, p, v) ==> later.status(downstream.slot as int)
                == BindStatus::BoundDownstream,
        forall|later: PortBank<T>| #[trigger]
            later.after_clear(&bound) ==> later.status(downstream.slot as int)
                == BindStatus::BoundDownstream,
{
}

/// Sets a port to a value.
pub fn set_port<T: Copy>(bank: &mut PortBank<T>, port: &Port, v: T)
    requires
        old(bank).holds(*port),
        old(bank).status(port.slot as int) != BindStatus::BoundDownstream,
    ensures
        final(bank).len() == old(bank).len(),
        forall|i: int|
            0 <= i < old(bank).len() ==> {
                &&& final(bank).kind(i) == old(bank).kind(i)
                &&& final(bank).status(i) == old(bank).status(i)
                &&& final(bank).cell(i) == old(bank).cell(i)
                &&& final(bank).deps(i) == old(bank).deps(i)
                &&& final(bank).value(i) == if old(bank).cell(i) == old(bank).cell(
                    port.slot as int,
                ) {
                    Some(v)
                } else {
                    old(bank).value(i)
                }
            },
{
    let _ = bank.set(port, v);
}

/// Records on a port, as the reactions that depend on it, the reactions
/// of the reactor `container` with the local ids `ids`.
pub fn set_fake_downstream<T: Copy>(
    container: ReactorId,
    ids: Vec<u16>,
    bank: &mut PortBank<T>,
    port: &Port,
)
    requires
        old(bank).holds(*port),
    ensures
        final(bank).len() == old(bank).len(),
        final(bank).deps(port.slot as int) == spec_make_deps(container, ids@),
        forall|i: int|
            0 <= i < old(bank).len() ==> {
                &&& final(bank).kind(i) == old(bank).kind(i)
                &&& final(bank).status(i) == old(bank).status(i)
                &&& final(bank).cell(i) == old(bank).cell(i)
                &&& final(bank).value(i) == old(bank).value(i)
                &&& final(bank).deps(i) == if old(bank).cell(i) == old(bank).cell(
                    port.slot as int,
                ) {
                    spec_make_deps(container, ids@)
                } else {
                    old(bank).deps(i)
                }
            },
{
    let deps = make_deps(container, ids);
    bank.set_downstream(port, deps)
}

/// Whether the reactions recorded on a port are exactly the reactions of
/// the reactor `container` with the local ids `local_ids`, in that order.
pub fn assert_deps_eq<T: Copy>(
    container: ReactorId,
    local_ids: Vec<u16>,
    bank: &PortBank<T>,
    port: &Port,
) -> (same: bool)
    requires
        bank.holds(*port),
    ensures
        same == (bank.deps(port.slot as int) == spec_make_deps(container, local_ids@)),
{
    let expected = make_deps(container, local_ids);
    let actual = bank.get_downstream_deps(port);
    if expected.len() != actual.len() {
        return false;
    }
    let mut k: usize = 0;
    while k < expected.len()
        invariant
            k <= expected@.len(),
            expected@.len() == actual@.len(),
            expected@ == spec_make_deps(container, local_ids@),
            actual@ == bank.deps(port.slot as int),
            forall|j: int| 0 <= j < k ==> expected@[j] == actual@[j],
        decreases expected@.len() - k,
    {
        if expected[k].0.raw != actual[k].0.raw {
            assert(expected@[k as int] != actual@[k as int]);
            return false;
        }
        k += 1;
    }
    assert(expected@ =~= actual@);
    true
}

} // verus!
