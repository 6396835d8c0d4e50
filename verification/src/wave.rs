//! The wave: the reactions that run at one tag, in the order of their
//! levels.

use crate::bitset::{bitset_bits, bitset_get, bitset_new, bitset_set, bitset_size, BITSET_LIMIT};
use crate::flowgraph::{
    is_reaction_node, law_levels_follow_data_flow, sorted_by_level, FlowGraph, Schedulable,
};
use crate::graph::{index_of, is_topological_order, reachable};
use crate::ids::{GlobalId, GlobalReactionId};
use crate::action::LogicalAction;
use crate::ports::{copy_reactions, BindStatus, Port, PortBank};
use crate::time::{compute_due_tag, due_tag, due_tag_fits, Clock, LogicalTag, Offset};
use bitset_fixed::BitSet;
use vstd::prelude::*;

verus! {

/// A violation, at run time, of what was declared at assembly. Each is
/// fatal for the program.
#[derive(Debug, Clone, Copy, PartialEq, Eq, Structural)]
pub enum RuntimeError {
    /// The reaction read a port that it did not declare to use.
    UndeclaredRead(GlobalReactionId, GlobalId),
    /// The reaction set a port that it did not declare to affect.
    UndeclaredWrite(GlobalReactionId, GlobalId),
    /// The reaction scheduled an action that it did not declare to
    /// schedule.
    UndeclaredSchedule(GlobalReactionId, GlobalId),
    /// The reaction set a port whose value is driven by an upstream port.
    DrivenPort(GlobalReactionId, GlobalId),
    /// The reaction has no level, or a level that the wave has no room for.
    UnknownReaction(GlobalReactionId),
    /// No reaction is running.
    NoReaction,
    /// A tag cannot be held in the types of its parts.
    TagOverflow,
    /// The program has more levels than a wave can keep track of.
    TooManyReactions,
}

/// An order to run reactions at a tag.
#[derive(Debug, Clone)]
pub struct Event {
    pub process_at: LogicalTag,
    pub todo: Vec<GlobalReactionId>,
}

/// The list `list`, ordered by level, with `r` put at its place.
pub open spec fn insert_by_level(
    list: Seq<GlobalReactionId>,
    r: GlobalReactionId,
    level: spec_fn(GlobalReactionId) -> Option<usize>,
) -> Seq<GlobalReactionId>
    decreases list.len(),
{
    if list.len() == 0 {
        seq![r]
    } else if level(list.last())->0 < level(r)->0 {
        list.push(r)
    } else {
        insert_by_level(list.drop_last(), r, level).push(list.last())
    }
}

/// The pending reactions and the set of the levels seen, after the
/// reaction `r` was asked for: a reaction whose level was seen is not
/// taken again.
pub open spec fn enqueue_one(
    state: (Seq<GlobalReactionId>, Set<usize>),
    r: GlobalReactionId,
    level: spec_fn(GlobalReactionId) -> Option<usize>,
) -> (Seq<GlobalReactionId>, Set<usize>) {
    if state.1.contains(level(r)->0) {
        state
    } else {
        (insert_by_level(state.0, r, level), state.1.insert(level(r)->0))
    }
}

/// The pending reactions and the set of the levels seen, after each of
/// the reactions `rs` was asked for in turn.
pub open spec fn enqueue_all(
    state: (Seq<GlobalReactionId>, Set<usize>),
    rs: Seq<GlobalReactionId>,
    level: spec_fn(GlobalReactionId) -> Option<usize>,
) -> (Seq<GlobalReactionId>, Set<usize>)
    decreases rs.len(),
{
    if rs.len() == 0 {
        state
    } else {
        enqueue_one(enqueue_all(state, rs.drop_last(), level), rs.last(), level)
    }
}

/// The levels along `list` increase strictly.
pub open spec fn increasing(
    list: Seq<GlobalReactionId>,
    level: spec_fn(GlobalReactionId) -> Option<usize>,
) -> bool {
    forall|j: int, k: int|
        0 <= j < k < list.len() ==> (#[trigger] level(list[j]))->0 < (#[trigger] level(
            list[k],
        ))->0
}

/// Every reaction of `list` has a level, and that level was seen.
pub open spec fn all_seen(
    list: Seq<GlobalReactionId>,
    seen: Set<usize>,
    level: spec_fn(GlobalReactionId) -> Option<usize>,
) -> bool {
    forall|k: int|
        0 <= k < list.len() ==> (#[trigger] level(list[k])) is Some && seen.contains(
            level(list[k])->0,
        )
}

/// Every reaction of `list` has a level.
pub open spec fn has_levels(
    list: Seq<GlobalReactionId>,
    level: spec_fn(GlobalReactionId) -> Option<usize>,
) -> bool {
    forall|k: int| 0 <= k < list.len() ==> (#[trigger] level(list[k])) is Some
}

/// Putting a reaction at the index where the levels begin to exceed its
/// own is `insert_by_level`.
pub proof fn lemma_insert_at(
    list: Seq<GlobalReactionId>,
    r: GlobalReactionId,
    level: spec_fn(GlobalReactionId) -> Option<usize>,
    pos: int,
)
    requires
        0 <= pos <= list.len(),
        forall|k: int| pos <= k < list.len() ==> level(r)->0 <= (#[trigger] level(list[k]))->0,
        pos > 0 ==> level(list[pos - 1])->0 < level(r)->0,
    ensures
        insert_by_level(list, r, level) == list.insert(pos, r),
    decreases list.len(),
{
    if list.len() == 0 {
        assert(list.insert(pos, r) =~= seq![r]);
    } else if pos == list.len() {
        assert(list.insert(pos, r) =~= list.push(r));
    } else {
        let rest = list.drop_last();
        assert(level(r)->0 <= level(list[list.len() - 1])->0);
        assert forall|k: int| pos <= k < rest.len() implies level(r)->0 <= (#[trigger] level(
            rest[k],
        ))->0 by {
            assert(rest[k] == list[k]);
        }
        if pos > 0 {
            assert(rest[pos - 1] == list[pos - 1]);
        }
        lemma_insert_at(rest, r, level, pos);
        assert(rest.insert(pos, r).push(list.last()) =~= list.insert(pos, r));
    }
}

/// Putting a reaction whose level no reaction of the list has into a list
/// of increasing levels gives a list of increasing levels, which holds
/// the reaction and those that were there, and nothing else.
pub proof fn lemma_insert_by_level(
    list: Seq<GlobalReactionId>,
    r: GlobalReactionId,
    level: spec_fn(GlobalReactionId) -> Option<usize>,
)
    requires
        increasing(list, level),
        forall|k: int| 0 <= k < list.len() ==> (#[trigger] level(list[k]))->0 != level(r)->0,
    ensures
        increasing(insert_by_level(list, r, level), level),
        insert_by_level(list, r, level).len() == list.len() + 1,
        forall|x: GlobalReactionId|
            #![trigger insert_by_level(list, r, level).contains(x)]
            #![trigger list.contains(x)]
            insert_by_level(list, r, level).contains(x) <==> (x == r || list.contains(x)),
        insert_by_level(list, r, level).contains(r),
    decreases list.len(),
{
    let out = insert_by_level(list, r, level);
    if list.len() == 0 {
        assert(out[0] == r);
        assert forall|x: GlobalReactionId|
            #![trigger out.contains(x)]
            #![trigger list.contains(x)]
            out.contains(x) <==> (x == r || list.contains(x)) by {
            if out.contains(x) {
                let i = choose|i: int| 0 <= i < out.len() && out[i] == x;
            }
        }
    } else if level(list.last())->0 < level(r)->0 {
        assert(out[list.len() as int] == r);
        assert forall|j: int, k: int| 0 <= j < k < out.len() implies (#[trigger] level(
            out[j],
        ))->0 < (#[trigger] level(out[k]))->0 by {
            if k == list.len() {
                assert(out[j] == list[j]);
                if j < list.len() - 1 {
                    assert(level(list[j])->0 < level(list[list.len() - 1])->0);
                }
            } else {
                assert(out[j] == list[j]);
                assert(out[k] == list[k]);
            }
        }
        assert forall|x: GlobalReactionId|
            #![trigger out.contains(x)]
            #![trigger list.contains(x)]
            out.contains(x) <==> (x == r || list.contains(x)) by {
            if out.contains(x) {
                let i = choose|i: int| 0 <= i < out.len() && out[i] == x;
                if i < list.len() {
                    assert(list[i] == x);
                }
            }
            if list.contains(x) {
                let i = choose|i: int| 0 <= i < list.len() && list[i] == x;
                assert(out[i] == x);
            }
        }
    } else {
        let rest = list.drop_last();
        let last = list.last();
        assert(list[list.len() - 1] == last);
        assert forall|j: int, k: int| 0 <= j < k < rest.len() implies (#[trigger] level(
            rest[j],
        ))->0 < (#[trigger] level(rest[k]))->0 by {
            assert(rest[j] == list[j]);
            assert(rest[k] == list[k]);
        }
        assert forall|k: int| 0 <= k < rest.len() implies (#[trigger] level(rest[k]))->0
            != level(r)->0 by {
            assert(rest[k] == list[k]);
        }
        lemma_insert_by_level(rest, r, level);
        let inner = insert_by_level(rest, r, level);
        assert(out == inner.push(last));
        assert(level(last)->0 > level(r)->0);
        assert forall|j: int, k: int| 0 <= j < k < out.len() implies (#[trigger] level(
            out[j],
        ))->0 < (#[trigger] level(out[k]))->0 by {
            if k == inner.len() {
                assert(out[j] == inner[j]);
                assert(inner.contains(inner[j]));
                if inner[j] == r {
                } else {
                    assert(rest.contains(inner[j]));
                    let i = choose|i: int| 0 <= i < rest.len() && rest[i] == inner[j];
                    assert(list[i] == inner[j]);
                    assert(level(list[i])->0 < level(list[list.len() - 1])->0);
                }
            } else {
                assert(out[j] == inner[j]);
                assert(out[k] == inner[k]);
            }
        }
        assert forall|x: GlobalReactionId|
            #![trigger out.contains(x)]
            #![trigger list.contains(x)]
            out.contains(x) <==> (x == r || list.contains(x)) by {
            if out.contains(x) {
                let i = choose|i: int| 0 <= i < out.len() && out[i] == x;
                if i < inner.len() {
                    assert(inner[i] == x);
                    assert(inner.contains(x));
                    if x != r {
                        assert(rest.contains(x));
                        let m = choose|m: int| 0 <= m < rest.len() && rest[m] == x;
                        assert(list[m] == x);
                    }
                } else {
                    assert(x == last);
                }
            }
            if x == r {
                assert(inner.contains(r));
                let i = choose|i: int| 0 <= i < inner.len() && inner[i] == r;
                assert(out[i] == r);
            }
            if list.contains(x) {
                let i = choose|i: int| 0 <= i < list.len() && list[i] == x;
                if i < rest.len() {
                    assert(rest[i] == x);
                    assert(rest.contains(x));
                    assert(inner.contains(x));
                    let m = choose|m: int| 0 <= m < inner.len() && inner[m] == x;
                    assert(out[m] == x);
                } else {
                    assert(out[inner.len() as int] == x);
                }
            }
        }
    }
}

/// Every reaction of `first` has a lower level than every reaction of
/// `second`.
pub open spec fn all_below(
    first: Seq<GlobalReactionId>,
    second: Seq<GlobalReactionId>,
    level: spec_fn(GlobalReactionId) -> Option<usize>,
) -> bool {
    forall|i: int, j: int|
        0 <= i < first.len() && 0 <= j < second.len() ==> (#[trigger] level(first[i]))->0 < (
        #[trigger] level(second[j]))->0
}

/// Every event is due after `tag` and has reactions to run.
pub open spec fn all_due_after(events: Seq<Event>, tag: LogicalTag) -> bool {
    forall|k: int|
        0 <= k < events.len() ==> tag.spec_is_before(&(#[trigger] events[k]).process_at)
            && events[k].todo@.len() > 0
}

/// A reaction runs at most once in a wave: among reactions that ran by
/// strictly increasing level, none occurs twice.
pub proof fn law_at_most_once(
    fired: Seq<GlobalReactionId>,
    level: spec_fn(GlobalReactionId) -> Option<usize>,
)
    requires
        increasing(fired, level),
    ensures
        fired.no_duplicates(),
{
    assert forall|i: int, j: int| 0 <= i < fired.len() && 0 <= j < fired.len()
        && i != j implies fired[i]
        != fired[j] by {
        if i < j {
            assert(level(fired[i])->0 < level(fired[j])->0);
        } else {
            assert(level(fired[j])->0 < level(fired[i])->0);
        }
    }
}

/// A reaction is pending at most once, however often it is asked for:
/// when the reactions downstream of several ports are asked for in turn,
/// a reaction that several of the ports list enters the pending
/// reactions the first time, and is passed over from then on.
pub proof fn law_pending_at_most_once(
    state: (Seq<GlobalReactionId>, Set<usize>),
    first: Seq<GlobalReactionId>,
    second: Seq<GlobalReactionId>,
    third: Seq<GlobalReactionId>,
    level: spec_fn(GlobalReactionId) -> Option<usize>,
)
    requires
        increasing(state.0, level),
        all_seen(state.0, state.1, level),
        has_levels(first, level),
        has_levels(second, level),
        has_levels(third, level),
    ensures
        enqueue_all(
            enqueue_all(enqueue_all(state, first, level), second, level),
            third,
            level,
        ).0.no_duplicates(),
        enqueue_all(state, first, level).0.no_duplicates(),
{
    lemma_enqueue_all(state, first, level);
    let one = enqueue_all(state, first, level);
    lemma_enqueue_all(one, second, level);
    let two = enqueue_all(one, second, level);
    lemma_enqueue_all(two, third, level);
    law_at_most_once(one.0, level);
    law_at_most_once(enqueue_all(two, third, level).0, level);
}

/// The reactions of a wave run in the order of the data flow: of two
/// reactions that ran in one wave, of which the first reaches the second
/// in the data-flow graph, the first ran before the second.
pub proof fn law_topological_firing(
    s: Schedulable,
    flow: FlowGraph,
    order: Seq<usize>,
    fired: Seq<GlobalReactionId>,
    i: int,
    j: int,
)
    requires
        flow.wf(),
        is_topological_order(order, flow.dataflow_nodes().len(), flow.dataflow_edges()),
        s.describes(flow, order),
        increasing(fired, s.level_fn()),
        0 <= i < fired.len(),
        0 <= j < fired.len(),
        fired[i] != fired[j],
        is_reaction_node(flow.dataflow_nodes(), fired[i].0.raw),
        is_reaction_node(flow.dataflow_nodes(), fired[j].0.raw),
        reachable(
            flow.dataflow_edges(),
            index_of(flow.dataflow_nodes(), fired[i].0.raw),
            index_of(flow.dataflow_nodes(), fired[j].0.raw),
        ),
    ensures
        i < j,
{
    law_levels_follow_data_flow(s, flow, order, fired[i], fired[j]);
    let level = s.level_fn();
    if j < i {
        assert(level(fired[j])->0 < level(fired[i])->0);
    }
}

/// The levels whose bit is on.
pub open spec fn seen_of(bits: Seq<bool>) -> Set<usize> {
    Set::new(|l: usize| l < bits.len() && bits[l as int])
}

/// The reaction has a level, and the level is below `capacity`.
pub open spec fn admissible(
    r: GlobalReactionId,
    level: spec_fn(GlobalReactionId) -> Option<usize>,
    capacity: nat,
) -> bool {
    level(r) is Some && level(r)->0 < capacity
}

/// Asking for reactions keeps the pending reactions ordered by level and
/// seen, takes nothing away from what was seen, and brings in nothing but
/// the reactions asked for.
pub proof fn lemma_enqueue_all(
    state: (Seq<GlobalReactionId>, Set<usize>),
    rs: Seq<GlobalReactionId>,
    level: spec_fn(GlobalReactionId) -> Option<usize>,
)
    requires
        increasing(state.0, level),
        all_seen(state.0, state.1, level),
        forall|k: int| 0 <= k < rs.len() ==> (#[trigger] level(rs[k])) is Some,
    ensures
        increasing(enqueue_all(state, rs, level).0, level),
        all_seen(enqueue_all(state, rs, level).0, enqueue_all(state, rs, level).1, level),
        state.1.subset_of(enqueue_all(state, rs, level).1),
        forall|x: GlobalReactionId| #[trigger]
            enqueue_all(state, rs, level).0.contains(x) ==> state.0.contains(x) || rs.contains(x),
        forall|x: GlobalReactionId| #[trigger]
            state.0.contains(x) ==> enqueue_all(state, rs, level).0.contains(x),
        forall|k: int|
            0 <= k < rs.len() ==> enqueue_all(state, rs, level).1.contains(
                (#[trigger] level(rs[k]))->0,
            ),
        forall|k: int|
            0 <= k < rs.len() && !state.1.contains((#[trigger] level(rs[k]))->0)
                ==> enqueue_all(state, rs, level).0.contains(rs[k]) || exists|j: int|
                0 <= j < k && level(rs[j]) == level(rs[k]),
    decreases rs.len(),
{
    if rs.len() > 0 {
        let front = rs.drop_last();
        let r = rs.last();
        assert(rs[rs.len() - 1] == r);
        assert forall|k: int| 0 <= k < front.len() implies (#[trigger] level(front[k])) is Some by {
            assert(front[k] == rs[k]);
        }
        lemma_enqueue_all(state, front, level);
        let mid = enqueue_all(state, front, level);
        let out = enqueue_all(state, rs, level);
        assert(out == enqueue_one(mid, r, level));
        if mid.1.contains(level(r)->0) {
        } else {
            assert forall|k: int| 0 <= k < mid.0.len() implies (#[trigger] level(mid.0[k]))->0
                != level(r)->0 by {}
            lemma_insert_by_level(mid.0, r, level);
            assert forall|k: int| 0 <= k < out.0.len() implies (#[trigger] level(out.0[k])) is Some
                && out.1.contains(level(out.0[k])->0) by {
                assert(out.0.contains(out.0[k]));
                if out.0[k] != r {
                    assert(mid.0.contains(out.0[k]));
                    let i = choose|i: int| 0 <= i < mid.0.len() && mid.0[i] == out.0[k];
                    assert(level(mid.0[i]) is Some);
                }
            }
        }
        assert forall|x: GlobalReactionId| #[trigger] out.0.contains(x) implies state.0.contains(x)
            || rs.contains(x) by {
            if x == r {
            } else {
                assert(mid.0.contains(x));
                if front.contains(x) {
                    let i = choose|i: int| 0 <= i < front.len() && front[i] == x;
                    assert(rs[i] == x);
                }
            }
        }
        assert forall|k: int| 0 <= k < rs.len() implies out.1.contains(
            (#[trigger] level(rs[k]))->0,
        ) by {
            if k < front.len() {
                assert(front[k] == rs[k]);
                assert(mid.1.contains(level(front[k])->0));
            }
        }
        assert forall|k: int|
            0 <= k < rs.len()
                && !state.1.contains((#[trigger] level(rs[k]))->0) implies out.0.contains(
            rs[k],
        ) || exists|j: int| 0 <= j < k && level(rs[j]) == level(rs[k]) by {
            if k < front.len() {
                assert(front[k] == rs[k]);
                if mid.0.contains(front[k]) {
                } else {
                    let j = choose|j: int| 0 <= j < k && level(front[j]) == level(front[k]);
                    assert(front[j] == rs[j]);
                }
            } else {
                if mid.1.contains(level(r)->0) {
                    lemma_seen_source(state, front, level, level(r)->0);
                    let j = choose|j: int| 0 <= j < front.len()
                        && level(front[j])->0 == level(r)->0;
                    assert(front[j] == rs[j]);
                }
            }
        }
    }
}

/// A level that was seen after reactions were asked for was seen before,
/// or is the level of one of them.
pub proof fn lemma_seen_source(
    state: (Seq<GlobalReactionId>, Set<usize>),
    rs: Seq<GlobalReactionId>,
    level: spec_fn(GlobalReactionId) -> Option<usize>,
    l: usize,
)
    requires
        enqueue_all(state, rs, level).1.contains(l),
        forall|k: int| 0 <= k < rs.len() ==> (#[trigger] level(rs[k])) is Some,
    ensures
        state.1.contains(l) || exists|j: int| 0 <= j < rs.len()
            && (#[trigger] level(rs[j]))->0 == l,
    decreases rs.len(),
{
    if rs.len() > 0 {
        let front = rs.drop_last();
        let r = rs.last();
        assert(rs[rs.len() - 1] == r);
        let mid = enqueue_all(state, front, level);
        if mid.1.contains(l) {
            assert forall|k: int| 0 <= k < front.len() implies (#[trigger] level(front[k])) is Some by {
                assert(front[k] == rs[k]);
            }
            lemma_seen_source(state, front, level, l);
            if !state.1.contains(l) {
                let j = choose|j: int| 0 <= j < front.len() && (#[trigger] level(front[j]))->0 == l;
                assert(front[j] == rs[j]);
            }
        } else {
            assert(level(rs[rs.len() - 1])->0 == l);
        }
    }
}

/// Puts the reactions `reactions` among the pending reactions `todo`,
/// each at the place of its level, but for those whose level is marked in
/// `done`; and marks their levels. Nothing is changed when one of the
/// reactions has no level or a level that `done` has no bit for.
fn enqueue_parts(
    sched: &Schedulable,
    todo: &mut Vec<GlobalReactionId>,
    done: &mut BitSet,
    reactions: &[GlobalReactionId],
) -> (r: Result<(), RuntimeError>)
    requires
        increasing(old(todo)@, sched.level_fn()),
        all_seen(old(todo)@, seen_of(bitset_bits(*old(done))), sched.level_fn()),
    ensures
        bitset_bits(*final(done)).len() == bitset_bits(*old(done)).len(),
        r is Ok <==> forall|k: int|
            0 <= k < reactions@.len() ==> admissible(
                #[trigger] reactions@[k],
                sched.level_fn(),
                bitset_bits(*old(done)).len(),
            ),
        r is Ok ==> (final(todo)@, seen_of(bitset_bits(*final(done)))) == enqueue_all(
            (old(todo)@, seen_of(bitset_bits(*old(done)))),
            reactions@,
            sched.level_fn(),
        ),
        r matches Err(e) ==> final(todo)@ == old(todo)@ && bitset_bits(*final(done))
            == bitset_bits(*old(done)) && exists|k: int|
            0 <= k < reactions@.len() && !admissible(
                #[trigger] reactions@[k],
                sched.level_fn(),
                bitset_bits(*old(done)).len(),
            ) && e == RuntimeError::UnknownReaction(reactions@[k]),
{
    let ghost level = sched.level_fn();
    let ghost start = (todo@, seen_of(bitset_bits(*done)));
    let capacity = bitset_size(done);
    let mut k: usize = 0;
    while k < reactions.len()
        invariant
            k <= reactions@.len(),
            level == sched.level_fn(),
            capacity == bitset_bits(*done).len(),
            forall|j: int| 0 <= j < k ==> admissible(#[trigger] reactions@[j], level, capacity as nat),
        decreases reactions@.len() - k,
    {
        let r = reactions[k];
        match sched.level_of(&r) {
            Some(l) => {
                if l >= capacity {
                    assert(!admissible(reactions@[k as int], level, capacity as nat));
                    return Err(RuntimeError::UnknownReaction(r));
                }
            },
            None => {
                assert(!admissible(reactions@[k as int], level, capacity as nat));
                return Err(RuntimeError::UnknownReaction(r));
            },
        }
        k += 1;
    }
    let mut k: usize = 0;
    assert(reactions@.take(0) =~= Seq::<GlobalReactionId>::empty());
    while k < reactions.len()
        invariant
            k <= reactions@.len(),
            level == sched.level_fn(),
            capacity == bitset_bits(*done).len(),
            capacity == bitset_bits(*old(done)).len(),
            start == (old(todo)@, seen_of(bitset_bits(*old(done)))),
            increasing(start.0, level),
            all_seen(start.0, start.1, level),
            forall|j: int|
                0 <= j < reactions@.len() ==> admissible(
                    #[trigger] reactions@[j],
                    level,
                    capacity as nat,
                ),
            (todo@, seen_of(bitset_bits(*done))) == enqueue_all(
                start,
                reactions@.take(k as int),
                level,
            ),
        decreases reactions@.len() - k,
    {
        let r = reactions[k];
        let ghost before = (todo@, seen_of(bitset_bits(*done)));
        proof {
            assert(reactions@.take(k + 1).drop_last() =~= reactions@.take(k as int));
            assert(reactions@.take(k + 1).last() == r);
            assert forall|j: int| 0 <= j < reactions@.take(k as int).len() implies (#[trigger] level(
                reactions@.take(k as int)[j],
            )) is Some by {
                assert(admissible(reactions@[j], level, capacity as nat));
            }
            lemma_enqueue_all(start, reactions@.take(k as int), level);
            assert(admissible(reactions@[k as int], level, capacity as nat));
        }
        let l = sched.level_of(&r).unwrap();
        if !bitset_get(done, l) {
            bitset_set(done, l, true);
            let mut pos: usize = todo.len();
            while pos > 0
                invariant
                    pos <= todo@.len(),
                    level == sched.level_fn(),
                    todo@ == before.0,
                    all_seen(before.0, before.1, level),
                    level(r) == Some(l),
                    forall|j: int| pos <= j < todo@.len() ==> l <= (#[trigger] level(todo@[j]))->0,
                ensures
                    pos <= todo@.len(),
                    todo@ == before.0,
                    forall|j: int| pos <= j < todo@.len() ==> l <= (#[trigger] level(todo@[j]))->0,
                    pos > 0 ==> level(todo@[pos - 1])->0 < l,
                decreases pos,
            {
                let other = todo[pos - 1];
                assert(level(todo@[pos - 1]) is Some);
                let lv = sched.level_of(&other).unwrap();
                if lv < l {
                    break;
                }
                pos -= 1;
            }
            proof {
                lemma_insert_at(before.0, r, level, pos as int);
            }
            todo.insert(pos, r);
            assert(seen_of(bitset_bits(*done)) =~= before.1.insert(l));
        }
        k += 1;
    }
    assert(reactions@.take(k as int) =~= reactions@);
    Ok(())
}

/// Whether a list of ids holds an id.
pub fn contains_id(list: &[GlobalId], id: GlobalId) -> (found: bool)
    ensures
        found == list@.contains(id),
{
    let mut k: usize = 0;
    while k < list.len()
        invariant
            k <= list@.len(),
            forall|j: int| 0 <= j < k ==> list@[j] != id,
        decreases list@.len() - k,
    {
        if list[k].raw == id.raw {
            assert(list@[k as int] == id);
            return true;
        }
        k += 1;
    }
    false
}

/// A copy of a list of reactions.
pub fn to_vec(list: &[GlobalReactionId]) -> (copy: Vec<GlobalReactionId>)
    ensures
        copy@ == list@,
{
    let mut copy: Vec<GlobalReactionId> = Vec::new();
    let mut k: usize = 0;
    while k < list.len()
        invariant
            k <= list@.len(),
            copy@ == list@.take(k as int),
        decreases list@.len() - k,
    {
        copy.push(list[k]);
        k += 1;
        assert(copy@ =~= list@.take(k as int));
    }
    assert(list@.take(k as int) =~= list@);
    copy
}

/// Every reaction of `list` has a level that is at least `floor`.
pub open spec fn at_least(
    list: Seq<GlobalReactionId>,
    level: spec_fn(GlobalReactionId) -> Option<usize>,
    floor: usize,
) -> bool {
    forall|k: int| 0 <= k < list.len() ==> (#[trigger] level(list[k]))->0 >= floor
}

/// Puts the reaction `r`, whose level is `l`, at the place of its level
/// among the pending reactions `todo`, unless a reaction of that level is
/// pending.
fn insert_unique(sched: &Schedulable, todo: &mut Vec<GlobalReactionId>, r: GlobalReactionId, l: usize)
    requires
        increasing(old(todo)@, sched.level_fn()),
        has_levels(old(todo)@, sched.level_fn()),
        sched.level(r) == Some(l),
    ensures
        increasing(final(todo)@, sched.level_fn()),
        has_levels(final(todo)@, sched.level_fn()),
        forall|x: GlobalReactionId| #[trigger]
            final(todo)@.contains(x) ==> x == r || old(todo)@.contains(x),
        forall|x: GlobalReactionId| #[trigger]
            old(todo)@.contains(x) ==> final(todo)@.contains(x),
{
    let ghost level = sched.level_fn();
    let ghost list = todo@;
    let mut pos: usize = todo.len();
    while pos > 0
        invariant
            pos <= todo@.len(),
            todo@ == list,
            level == sched.level_fn(),
            has_levels(list, level),
            forall|j: int| pos <= j < list.len() ==> l < (#[trigger] level(list[j]))->0,
        ensures
            pos <= todo@.len(),
            todo@ == list,
            forall|j: int| pos <= j < list.len() ==> l < (#[trigger] level(list[j]))->0,
            pos > 0 ==> level(list[pos - 1])->0 <= l,
        decreases pos,
    {
        let other = todo[pos - 1];
        assert(level(list[pos - 1]) is Some);
        let lv = sched.level_of(&other).unwrap();
        if lv <= l {
            break ;
        }
        pos -= 1;
    }
    if pos > 0 {
        let other = todo[pos - 1];
        assert(level(list[pos - 1]) is Some);
        if sched.level_of(&other).unwrap() == l {
            return ;
        }
    }
    proof {
        assert(level(r) == Some(l));
        assert forall|k: int| 0 <= k < list.len() implies (#[trigger] level(list[k]))->0
            != level(r)->0 by {
            if k < pos - 1 {
                assert(level(list[k])->0 < level(list[pos - 1])->0);
            }
        }
        lemma_insert_at(list, r, level, pos as int);
        lemma_insert_by_level(list, r, level);
    }
    todo.insert(pos, r);
    proof {
        assert forall|k: int| 0 <= k < todo@.len() implies (#[trigger] level(todo@[k])) is Some by {
            assert(todo@.contains(todo@[k]));
            if todo@[k] != r {
                let i = choose|i: int| 0 <= i < list.len() && list[i] == todo@[k];
                assert(level(list[i]) is Some);
            }
        }
    }
}

/// Makes pending, among the reactions `todo`, those of the reactions
/// `asked` whose level is at least `floor`, each at the place of its
/// level and at most once. The others are left out.
fn merge_asked(
    sched: &Schedulable,
    todo: &mut Vec<GlobalReactionId>,
    asked: &Vec<GlobalReactionId>,
    floor: usize,
)
    requires
        increasing(old(todo)@, sched.level_fn()),
        has_levels(old(todo)@, sched.level_fn()),
        at_least(old(todo)@, sched.level_fn(), floor),
    ensures
        increasing(final(todo)@, sched.level_fn()),
        has_levels(final(todo)@, sched.level_fn()),
        at_least(final(todo)@, sched.level_fn(), floor),
        forall|x: GlobalReactionId| #[trigger]
            old(todo)@.contains(x) ==> final(todo)@.contains(x),
        forall|x: GlobalReactionId| #[trigger]
            final(todo)@.contains(x) ==> old(todo)@.contains(x) || asked@.contains(x),
{
    let ghost level = sched.level_fn();
    let mut k: usize = 0;
    while k < asked.len()
        invariant
            k <= asked@.len(),
            level == sched.level_fn(),
            increasing(todo@, level),
            has_levels(todo@, level),
            at_least(todo@, level, floor),
            forall|x: GlobalReactionId| #[trigger] old(todo)@.contains(x) ==> todo@.contains(x),
            forall|x: GlobalReactionId| #[trigger]
                todo@.contains(x) ==> old(todo)@.contains(x) || asked@.contains(x),
        decreases asked@.len() - k,
    {
        let d = asked[k];
        let ghost before = todo@;
        match sched.level_of(&d) {
            Some(l) => {
                if l >= floor {
                    insert_unique(sched, todo, d, l);
                    proof {
                        assert forall|j: int| 0 <= j < todo@.len() implies (#[trigger] level(
                            todo@[j],
                        ))->0 >= floor by {
                            assert(todo@.contains(todo@[j]));
                            if todo@[j] != d {
                                let i = choose|i: int|
                                    0 <= i < before.len() && before[i] == todo@[j];
                                assert(level(before[i])->0 >= floor);
                            }
                        }
                        assert(asked@.contains(d));
                    }
                }
            },
            None => {},
        }
        k += 1;
    }
}

/// Adds to the events `later` those of the events `scheduled` that are
/// due after `tag` and have reactions to run. The others are left out.
fn merge_later(tag: LogicalTag, later: &mut Vec<Event>, scheduled: &Vec<Event>)
    requires
        all_due_after(old(later)@, tag),
    ensures
        all_due_after(final(later)@, tag),
        old(later)@.is_prefix_of(final(later)@),
        scheduled@.len() == 0 ==> final(later)@ == old(later)@,
{
    let ghost start = later@;
    let mut k: usize = 0;
    assert(later@.subrange(0, start.len() as int) =~= start);
    while k < scheduled.len()
        invariant
            k <= scheduled@.len(),
            all_due_after(later@, tag),
            start.is_prefix_of(later@),
            k == 0 ==> later@ == start,
        decreases scheduled@.len() - k,
    {
        let event = &scheduled[k];
        if tag.is_before(&event.process_at) && event.todo.len() > 0 {
            let ghost before = later@;
            let copy = Event { process_at: event.process_at, todo: copy_reactions(&event.todo) };
            later.push(copy);
            proof {
                assert forall|j: int| 0 <= j < later@.len() implies tag.spec_is_before(
                    &(#[trigger] later@[j]).process_at,
                ) && later@[j].todo@.len() > 0 by {
                    if j < before.len() {
                        assert(later@[j] == before[j]);
                    }
                }
                assert(later@.subrange(0, start.len() as int) =~= before.subrange(
                    0,
                    start.len() as int,
                ));
            }
        }
        k += 1;
    }
}

/// An empty wave without room for any level: what stands in the place
/// of a wave while the wave is being changed.
fn parked_parts() -> (parts: (Vec<GlobalReactionId>, BitSet, Vec<GlobalReactionId>, Vec<Event>))
    ensures
        parts.0@.len() == 0,
        bitset_bits(parts.1).len() == 0,
        parts.2@.len() == 0,
        parts.3@.len() == 0,
{
    (Vec::new(), bitset_new(0), Vec::new(), Vec::new())
}

/// The reactions that run at one tag. A wave hands out its pending
/// reactions one at a time, by increasing level. The reaction that runs
/// may set ports, which makes the reactions downstream of them pending
/// in the same wave, and schedule actions, which makes events for later
/// tags.
pub struct ReactionWave<'s> {
    sched: &'s Schedulable,
    logical_time: LogicalTag,
    todo: Vec<GlobalReactionId>,
    done: BitSet,
    fired: Vec<GlobalReactionId>,
    later: Vec<Event>,
    current: Option<GlobalReactionId>,
    shutdown: bool,
}

impl<'s> ReactionWave<'s> {
    /// The snapshot of the program that the wave runs on.
    pub closed spec fn schedulable(&self) -> Schedulable {
        *self.sched
    }

    /// The tag of the wave.
    pub closed spec fn tag(&self) -> LogicalTag {
        self.logical_time
    }

    /// The reactions that will run in this wave, by increasing level.
    pub closed spec fn pending(&self) -> Seq<GlobalReactionId> {
        self.todo@
    }

    /// The levels of the reactions that were asked for in this wave.
    pub closed spec fn seen(&self) -> Set<usize> {
        seen_of(bitset_bits(self.done))
    }

    /// The number of levels that the wave can keep track of.
    pub closed spec fn capacity(&self) -> nat {
        bitset_bits(self.done).len()
    }

    /// The reactions that were handed out in this wave, oldest first.
    pub closed spec fn fired(&self) -> Seq<GlobalReactionId> {
        self.fired@
    }

    /// The events that the reactions of this wave scheduled.
    pub closed spec fn later(&self) -> Seq<Event> {
        self.later@
    }

    /// The reaction that runs.
    pub closed spec fn current(&self) -> Option<GlobalReactionId> {
        self.current
    }

    /// Whether a reaction asked for the program to shut down.
    pub closed spec fn shutdown_requested(&self) -> bool {
        self.shutdown
    }

    /// The level of a reaction in the program that the wave runs on.
    pub open spec fn level(&self) -> spec_fn(GlobalReactionId) -> Option<usize> {
        self.schedulable().level_fn()
    }

    /// What holds of every wave: pending reactions and reactions handed
    /// out are ordered by strictly increasing level, every reaction handed
    /// out has a lower level than every pending one, the reaction that
    /// runs is the last one handed out, and every event scheduled is due
    /// after the tag of the wave and has reactions to run.
    pub open spec fn well_ordered(&self) -> bool {
        &&& increasing(self.pending(), self.level())
        &&& all_seen(self.pending(), self.seen(), self.level())
        &&& increasing(self.fired(), self.level())
        &&& has_levels(self.fired(), self.level())
        &&& all_below(self.fired(), self.pending(), self.level())
        &&& (self.current() matches Some(c) ==> self.fired().len() > 0 && self.fired().last()
            == c)
        &&& all_due_after(self.later(), self.tag())
        &&& forall|l: usize| #[trigger] self.seen().contains(l) ==> l < self.capacity()
    }

    #[verifier::type_invariant]
    spec fn inv(&self) -> bool {
        self.well_ordered()
    }

    /// Every wave is well ordered.
    pub fn is_well_ordered(&self)
        ensures
            self.well_ordered(),
    {
        proof {
            use_type_invariant(self);
        }
    }

    /// A wave at the tag `tag` that has room for every level of the
    /// program, with the reactions `reactions` pending, each once, by
    /// increasing level. A reaction without a level is refused.
    pub fn new(sched: &'s Schedulable, tag: LogicalTag, reactions: &[GlobalReactionId]) -> (r:
        Result<Self, RuntimeError>)
        ensures
            r is Ok <==> sched.spec_level_bound() <= BITSET_LIMIT && forall|k: int|
                0 <= k < reactions@.len() ==> (#[trigger] sched.level(reactions@[k])) is Some,
            r matches Ok(wave) ==> wave.starts(*sched, tag, reactions@, sched.spec_level_bound()),
            r matches Err(e) ==> (e == RuntimeError::TooManyReactions <==> sched.spec_level_bound()
                > BITSET_LIMIT) && (e != RuntimeError::TooManyReactions ==> exists|k: int|
                0 <= k < reactions@.len() && (#[trigger] sched.level(reactions@[k])) is None && e
                    == RuntimeError::UnknownReaction(reactions@[k])),
    {
        sched.levels_are_ordered();
        let r = Self::with_room(sched, tag, reactions, sched.level_bound());
        proof {
            if r is Ok {
                assert forall|k: int| 0 <= k < reactions@.len() implies (#[trigger] sched.level(
                    reactions@[k],
                )) is Some by {
                    assert(admissible(
                        reactions@[k],
                        sched.level_fn(),
                        sched.spec_level_bound() as nat,
                    ));
                }
            } else if r != Err::<Self, RuntimeError>(RuntimeError::TooManyReactions) {
                let e = r->Err_0;
                let k = choose|k: int|
                    0 <= k < reactions@.len() && !admissible(
                        #[trigger] reactions@[k],
                        sched.level_fn(),
                        sched.spec_level_bound() as nat,
                    ) && e == RuntimeError::UnknownReaction(reactions@[k]);
                assert(sched.level(reactions@[k]) is None);
            }
        }
        r
    }

    /// The wave is a fresh wave at the tag `tag` with room for `room`
    /// levels, in which the reactions `reactions` are pending, each once,
    /// by increasing level.
    pub open spec fn starts(
        &self,
        sched: Schedulable,
        tag: LogicalTag,
        reactions: Seq<GlobalReactionId>,
        room: usize,
    ) -> bool {
        &&& self.schedulable() == sched
        &&& self.tag() == tag
        &&& self.capacity() == room
        &&& (self.pending(), self.seen()) == enqueue_all(
            (Seq::empty(), Set::empty()),
            reactions,
            sched.level_fn(),
        )
        &&& self.fired() == Seq::<GlobalReactionId>::empty()
        &&& self.later() == Seq::<Event>::empty()
        &&& self.current() is None
        &&& !self.shutdown_requested()
    }

    /// A wave at the tag `tag` that has room for `room` levels, with the
    /// reactions `reactions` pending, each once, by increasing level. A
    /// reaction without a level, or with a level that the wave has no
    /// room for, is refused.
    pub fn with_room(
        sched: &'s Schedulable,
        tag: LogicalTag,
        reactions: &[GlobalReactionId],
        room: usize,
    ) -> (r: Result<Self, RuntimeError>)
        ensures
            r is Ok <==> room <= BITSET_LIMIT && forall|k: int|
                0 <= k < reactions@.len() ==> admissible(
                    #[trigger] reactions@[k],
                    sched.level_fn(),
                    room as nat,
                ),
            r matches Ok(wave) ==> wave.starts(*sched, tag, reactions@, room),
            r matches Err(e) ==> (e == RuntimeError::TooManyReactions <==> room > BITSET_LIMIT)
                && (e != RuntimeError::TooManyReactions ==> exists|k: int|
                0 <= k < reactions@.len() && !admissible(
                    #[trigger] reactions@[k],
                    sched.level_fn(),
                    room as nat,
                ) && e == RuntimeError::UnknownReaction(reactions@[k])),
    {
        if room > BITSET_LIMIT {
            return Err(RuntimeError::TooManyReactions);
        }
        let mut todo: Vec<GlobalReactionId> = Vec::new();
        let mut done = bitset_new(room);
        assert(seen_of(bitset_bits(done)) =~= Set::<usize>::empty());
        match enqueue_parts(sched, &mut todo, &mut done, reactions) {
            Err(e) => Err(e),
            Ok(()) => {
                proof {
                    assert forall|k: int| 0 <= k < reactions@.len() implies (#[trigger] (
                    sched.level_fn())(reactions@[k])) is Some by {
                        assert(admissible(reactions@[k], sched.level_fn(), room as nat));
                    }
                    lemma_enqueue_all((Seq::empty(), Set::empty()), reactions@, sched.level_fn());
                }
                Ok(
                    ReactionWave {
                        sched,
                        logical_time: tag,
                        todo,
                        done,
                        fired: Vec::new(),
                        later: Vec::new(),
                        current: None,
                        shutdown: false,
                    },
                )
            },
        }
    }

    /// Takes the wave out of `self` and leaves an empty wave in its place.
    fn take_apart(&mut self) -> (wave: ReactionWave<'s>)
        ensures
            wave == *old(self),
    {
        let (todo, done, fired, later) = parked_parts();
        assert(seen_of(bitset_bits(done)) =~= Set::<usize>::empty());
        let mut taken = ReactionWave {
            sched: self.sched,
            logical_time: self.logical_time,
            todo,
            done,
            fired,
            later,
            current: None,
            shutdown: false,
        };
        std::mem::swap(self, &mut taken);
        taken
    }

    /// The wave differs from `before` at most in the pending reactions,
    /// the levels seen, the reactions handed out, the reaction that runs,
    /// the events scheduled and the request to shut down.
    pub open spec fn same_wave(&self, before: &Self) -> bool {
        &&& self.schedulable() == before.schedulable()
        &&& self.tag() == before.tag()
        &&& self.capacity() == before.capacity()
    }

    /// The wave is in the state in which `before` is.
    pub open spec fn same_state(&self, before: &Self) -> bool {
        &&& self.same_wave(before)
        &&& self.pending() == before.pending()
        &&& self.seen() == before.seen()
        &&& self.fired() == before.fired()
        &&& self.later() == before.later()
        &&& self.current() == before.current()
        &&& self.shutdown_requested() == before.shutdown_requested()
    }

    /// The tag of the wave.
    pub fn get_logical_time(&self) -> (tag: LogicalTag)
        ensures
            tag == self.tag(),
    {
        self.logical_time
    }

    /// The reaction that runs.
    pub fn current_reaction(&self) -> (r: Option<GlobalReactionId>)
        ensures
            r == self.current(),
    {
        self.current
    }

    /// Whether reactions are pending.
    pub fn has_pending(&self) -> (b: bool)
        ensures
            b == (self.pending().len() > 0),
    {
        self.todo.len() > 0
    }

    /// The number of levels that the wave can keep track of.
    pub fn room(&self) -> (n: usize)
        ensures
            n == self.capacity(),
    {
        bitset_size(&self.done)
    }

    /// Hands out the pending reaction of the lowest level, which becomes
    /// the reaction that runs. Without pending reactions no reaction runs.
    pub fn next_reaction(&mut self) -> (r: Option<GlobalReactionId>)
        ensures
            final(self).same_wave(old(self)),
            final(self).seen() == old(self).seen(),
            final(self).later() == old(self).later(),
            final(self).shutdown_requested() == old(self).shutdown_requested(),
            final(self).current() == r,
            match r {
                None => old(self).pending().len() == 0
                    && final(self).pending() == old(self).pending()
                    && final(self).fired() == old(self).fired(),
                Some(x) => old(self).pending().len() > 0 && x == old(self).pending()[0]
                    && final(self).pending() == old(self).pending().drop_first()
                    && final(self).fired() == old(self).fired().push(x),
            },
    {
        let taken = self.take_apart();
        proof {
            use_type_invariant(&taken);
        }
        let ReactionWave { sched, logical_time, mut todo, done, mut fired, later, current: _, shutdown } =
            taken;
        if todo.len() == 0 {
            *self = ReactionWave {
                sched,
                logical_time,
                todo,
                done,
                fired,
                later,
                current: None,
                shutdown,
            };
            None
        } else {
            let ghost level = sched.level_fn();
            let ghost before_todo = todo@;
            let ghost before_fired = fired@;
            let x = todo.remove(0);
            fired.push(x);
            proof {
                assert(todo@ =~= before_todo.drop_first());
                assert forall|j: int, k: int| 0 <= j < k < todo@.len() implies (#[trigger] level(
                    todo@[j],
                ))->0 < (#[trigger] level(todo@[k]))->0 by {
                    assert(todo@[j] == before_todo[j + 1]);
                    assert(todo@[k] == before_todo[k + 1]);
                }
                assert forall|k: int| 0 <= k < todo@.len() implies (#[trigger] level(todo@[k])) is Some
                    && seen_of(bitset_bits(done)).contains(level(todo@[k])->0) by {
                    assert(todo@[k] == before_todo[k + 1]);
                }
                assert forall|j: int, k: int| 0 <= j < k < fired@.len() implies (#[trigger] level(
                    fired@[j],
                ))->0 < (#[trigger] level(fired@[k]))->0 by {
                    assert(fired@[j] == before_fired[j]);
                    if k < before_fired.len() {
                        assert(fired@[k] == before_fired[k]);
                    } else {
                        assert(fired@[k] == before_todo[0]);
                    }
                }
                assert forall|k: int| 0 <= k < fired@.len() implies (#[trigger] level(
                    fired@[k],
                )) is Some by {
                    if k < before_fired.len() {
                        assert(fired@[k] == before_fired[k]);
                    } else {
                        assert(fired@[k] == before_todo[0]);
                    }
                }
                assert(all_below(before_fired, before_todo, level));
                assert forall|i: int, j: int|
                    0 <= i < fired@.len() && 0 <= j < todo@.len() implies (#[trigger] level(
                    fired@[i],
                ))->0 < (#[trigger] level(todo@[j]))->0 by {
                    assert(todo@[j] == before_todo[j + 1]);
                    if i < before_fired.len() {
                        assert(fired@[i] == before_fired[i]);
                    } else {
                        assert(fired@[i] == before_todo[0]);
                    }
                }
            }
            *self = ReactionWave {
                sched,
                logical_time,
                todo,
                done,
                fired,
                later,
                current: Some(x),
                shutdown,
            };
            Some(x)
        }
    }

    /// The wave is what the wave `before` becomes when a shutdown is asked
    /// for: the request is recorded, and nothing else changes.
    pub open spec fn is_asked_to_shut_down_from(&self, before: &Self) -> bool {
        &&& self.same_wave(before)
        &&& self.pending() == before.pending()
        &&& self.seen() == before.seen()
        &&& self.fired() == before.fired()
        &&& self.later() == before.later()
        &&& self.current() == before.current()
        &&& self.shutdown_requested()
    }

    /// Asks for the program to shut down once this wave has ended.
    pub fn request_shutdown(&mut self)
        ensures
            final(self).is_asked_to_shut_down_from(old(self)),
    {
        let taken = self.take_apart();
        proof {
            use_type_invariant(&taken);
        }
        let ReactionWave { sched, logical_time, todo, done, fired, later, current, shutdown: _ } =
            taken;
        *self = ReactionWave {
            sched,
            logical_time,
            todo,
            done,
            fired,
            later,
            current,
            shutdown: true,
        };
    }

    /// The value of a port, for the reaction that runs: an error unless
    /// that reaction declared to use the port.
    pub fn get<T: Copy>(&self, bank: &PortBank<T>, port: &Port) -> (r: Result<
        Option<T>,
        RuntimeError,
    >)
        requires
            bank.holds(*port),
        ensures
            r == match self.current() {
                None => Err::<Option<T>, RuntimeError>(RuntimeError::NoReaction),
                Some(c) => if self.schedulable().allowed_reads(c).contains(port.id) {
                    Ok(bank.value(port.slot as int))
                } else {
                    Err(RuntimeError::UndeclaredRead(c, port.id))
                },
            },
    {
        match self.current {
            None => Err(RuntimeError::NoReaction),
            Some(c) => {
                if contains_id(self.sched.get_allowed_reads(&c), port.id) {
                    Ok(bank.get(port))
                } else {
                    Err(RuntimeError::UndeclaredRead(c, port.id))
                }
            },
        }
    }
    /// Why the reaction that runs may not set the port `port`, whose
    /// bindings are `status`; `None` when it may.
    pub open spec fn set_refusal(&self, status: BindStatus, port: GlobalId) -> Option<
        RuntimeError,
    > {
        match self.current() {
            None => Some(RuntimeError::NoReaction),
            Some(c) => if !self.schedulable().allowed_writes(c).contains(port) {
                Some(RuntimeError::UndeclaredWrite(c, port))
            } else if status == BindStatus::BoundDownstream {
                Some(RuntimeError::DrivenPort(c, port))
            } else {
                None
            },
        }
    }

    /// The wave can keep track of the level of each reaction of `list`.
    pub open spec fn has_room_for(&self, list: Seq<GlobalReactionId>) -> bool {
        forall|k: int|
            0 <= k < list.len() ==> admissible(#[trigger] list[k], self.level(), self.capacity())
    }

    /// Makes the reactions `downstream` pending, each at the place of its
    /// level, but for those that were asked for before in this wave.
    fn enqueue_now(&mut self, downstream: &[GlobalReactionId]) -> (r: Result<(), RuntimeError>)
        requires
            forall|k: int|
                0 <= k < downstream@.len() ==> (#[trigger] (old(self).level())(downstream@[k])) is Some,
            all_below(old(self).fired(), downstream@, old(self).level()),
        ensures
            final(self).same_wave(old(self)),
            final(self).fired() == old(self).fired(),
            final(self).later() == old(self).later(),
            final(self).current() == old(self).current(),
            final(self).shutdown_requested() == old(self).shutdown_requested(),
            r is Ok <==> old(self).has_room_for(downstream@),
            r is Ok ==> (final(self).pending(), final(self).seen()) == enqueue_all(
                (old(self).pending(), old(self).seen()),
                downstream@,
                old(self).level(),
            ),
            r matches Err(e) ==> final(self).same_state(old(self)) && exists|k: int|
                0 <= k < downstream@.len() && e == RuntimeError::UnknownReaction(
                    #[trigger] downstream@[k],
                ),
    {
        let taken = self.take_apart();
        proof {
            use_type_invariant(&taken);
        }
        let ghost before = taken;
        let ReactionWave { sched, logical_time, mut todo, mut done, fired, later, current, shutdown } =
            taken;
        let ghost level = sched.level_fn();
        let ghost start = (todo@, seen_of(bitset_bits(done)));
        let result = enqueue_parts(sched, &mut todo, &mut done, downstream);
        proof {
            if result is Ok {
                lemma_enqueue_all(start, downstream@, level);
                assert forall|i: int, j: int|
                    0 <= i < fired@.len() && 0 <= j < todo@.len() implies (#[trigger] level(
                    fired@[i],
                ))->0 < (#[trigger] level(todo@[j]))->0 by {
                    assert(todo@.contains(todo@[j]));
                    if start.0.contains(todo@[j]) {
                        let m = choose|m: int| 0 <= m < start.0.len() && start.0[m] == todo@[j];
                        assert(all_below(fired@, start.0, level));
                    } else {
                        let m = choose|m: int|
                            0 <= m < downstream@.len() && downstream@[m] == todo@[j];
                    }
                }

            } else {
                let k = choose|k: int|
                    0 <= k < downstream@.len() && !admissible(
                        #[trigger] downstream@[k],
                        sched.level_fn(),
                        bitset_bits(done).len(),
                    ) && result == Err::<(), RuntimeError>(
                        RuntimeError::UnknownReaction(downstream@[k]),
                    );
                assert(downstream@[k] == downstream@[k]);
            }
        }
        *self = ReactionWave { sched, logical_time, todo, done, fired, later, current, shutdown };
        result
    }
    /// The wave and the bank `bank_after` are what the wave `before` and
    /// the bank `bank_before` become when the reaction that runs sets
    /// `value` on `port`, with the result `r`: where the reaction may not
    /// set the port, or the wave has no room for a reaction downstream of
    /// the port, `r` is the error and nothing changes; otherwise the ports
    /// that point at the cell of `port` show the value, and the reactions
    /// downstream of `port` are pending, unless they were asked for
    /// before.
    pub open spec fn is_set_from<T: Copy>(
        &self,
        before: &Self,
        bank_before: &PortBank<T>,
        bank_after: &PortBank<T>,
        port: Port,
        value: T,
        r: Result<(), RuntimeError>,
    ) -> bool {
        let refusal = before.set_refusal(bank_before.status(port.slot as int), port.id);
        let downstream = before.schedulable().downstream_reactions(port.id);
        &&& bank_after.len() == bank_before.len()
        &&& self.same_wave(before)
        &&& self.fired() == before.fired()
        &&& self.later() == before.later()
        &&& self.current() == before.current()
        &&& self.shutdown_requested() == before.shutdown_requested()
        &&& r is Ok <==> refusal is None && before.has_room_for(downstream)
        &&& refusal matches Some(e) ==> r == Err::<(), RuntimeError>(e)
        &&& r matches Err(e) ==> self.same_state(before) && *bank_after == *bank_before
        &&& r is Ok ==> (self.pending(), self.seen()) == enqueue_all(
            (before.pending(), before.seen()),
            downstream,
            before.level(),
        ) && bank_after.after_set(bank_before, port, value)
    }

    /// Sets a port, for the reaction that runs, and makes the reactions
    /// downstream of the port pending. Nothing is changed when the
    /// reaction did not declare to affect the port, when the port is
    /// driven from upstream, or when the wave has no room for a reaction
    /// downstream.
    pub fn set<T: Copy>(&mut self, bank: &mut PortBank<T>, port: &Port, value: T) -> (r: Result<
        (),
        RuntimeError,
    >)
        requires
            old(bank).holds(*port),
        ensures
            final(self).is_set_from(old(self), old(bank), final(bank), *port, value, r),
    {
        proof {
            use_type_invariant(&*self);
        }
        let c = match self.current {
            None => {
                return Err(RuntimeError::NoReaction);
            },
            Some(c) => c,
        };
        if !contains_id(self.sched.get_allowed_writes(&c), port.id) {
            return Err(RuntimeError::UndeclaredWrite(c, port.id));
        }
        match bank.bind_status(port) {
            BindStatus::BoundDownstream => {
                return Err(RuntimeError::DrivenPort(c, port.id));
            },
            _ => {},
        }
        let sched = self.sched;
        sched.levels_are_ordered();
        let downstream = sched.get_downstream_reactions(&port.id);
        proof {
            let level = sched.level_fn();
            let writes = sched.allowed_writes(c);
            let k = choose|k: int| 0 <= k < writes.len() && writes[k] == port.id;
            assert(sorted_by_level(sched.downstream_reactions(port.id), level));
            assert forall|j: int| 0 <= j < downstream@.len() implies (#[trigger] level(
                downstream@[j],
            )) is Some by {}
            assert forall|i: int, j: int|
                0 <= i < self.fired().len() && 0 <= j < downstream@.len() implies (#[trigger] level(
                self.fired()[i],
            ))->0 < (#[trigger] level(downstream@[j]))->0 by {
                let last = self.fired().len() - 1;
                assert(self.fired()[last] == c);
                assert(sched.level(c)->0 < sched.level(
                    sched.downstream_reactions(sched.allowed_writes(c)[k])[j],
                )->0);
                if i < last {
                    assert(level(self.fired()[i])->0 < level(self.fired()[last])->0);
                }
            }
        }
        match self.enqueue_now(downstream) {
            Err(e) => Err(e),
            Ok(()) => {
                let _ = bank.set(port, value);
                Ok(())
            },
        }
    }

    /// What the event holds that an action gives when it is scheduled at
    /// the tag `tag`: the tag at which the event is due and the reactions
    /// that the action triggers.
    pub open spec fn scheduled_event(&self, action: LogicalAction, offset: Offset) -> (
        (int, int),
        Seq<GlobalReactionId>,
    ) {
        (
            due_tag(self.tag(), action.0.min_delay, offset.spec_to_duration(), None),
            self.schedulable().triggered_reactions(action.0.id),
        )
    }

    /// Why the reaction that runs may not schedule the action; `None`
    /// when it may.
    pub open spec fn schedule_refusal(&self, action: LogicalAction, offset: Offset) -> Option<
        RuntimeError,
    > {
        match self.current() {
            None => Some(RuntimeError::NoReaction),
            Some(c) => if !self.schedulable().allowed_schedules(c).contains(action.0.id) {
                Some(RuntimeError::UndeclaredSchedule(c, action.0.id))
            } else if !due_tag_fits(
                self.tag(),
                action.0.min_delay,
                offset.spec_to_duration(),
                None,
            ) {
                Some(RuntimeError::TagOverflow)
            } else {
                None
            },
        }
    }

    /// The wave is what the wave `before` becomes when the reaction that
    /// runs schedules `action` with the additional delay `offset`, with
    /// the result `r`: where the reaction may not schedule the action, or
    /// the tag of the event cannot be held, `r` is the error; otherwise
    /// the event of the action is added to the events scheduled, unless
    /// the action triggers no reaction. Nothing else changes.
    pub open spec fn is_scheduled_from(
        &self,
        before: &Self,
        action: LogicalAction,
        offset: Offset,
        r: Result<(), RuntimeError>,
    ) -> bool {
        let scheduled = before.scheduled_event(action, offset);
        &&& self.same_wave(before)
        &&& self.pending() == before.pending()
        &&& self.seen() == before.seen()
        &&& self.fired() == before.fired()
        &&& self.current() == before.current()
        &&& self.shutdown_requested() == before.shutdown_requested()
        &&& r == match before.schedule_refusal(action, offset) {
            Some(e) => Err::<(), RuntimeError>(e),
            None => Ok(()),
        }
        &&& r is Err || scheduled.1.len() == 0 ==> self.later() == before.later()
        &&& r is Ok && scheduled.1.len() > 0 ==> {
            let event = self.later().last();
            &&& self.later().len() == before.later().len() + 1
            &&& self.later().drop_last() == before.later()
            &&& (event.process_at.instant as int, event.process_at.microstep as int)
                == scheduled.0
            &&& event.todo@ == scheduled.1
        }
    }

    /// Schedules an action, for the reaction that runs: an event with the
    /// reactions that the action triggers becomes due after the delay of
    /// the action and the additional delay `offset`. An action that
    /// triggers no reaction gives no event. Nothing is changed when the
    /// reaction did not declare to schedule the action, or when the tag
    /// of the event cannot be held.
    pub fn schedule(&mut self, action: &LogicalAction, offset: Offset) -> (r: Result<
        (),
        RuntimeError,
    >)
        ensures
            final(self).is_scheduled_from(old(self), *action, offset, r),
    {
        proof {
            use_type_invariant(&*self);
        }
        let c = match self.current {
            None => {
                return Err(RuntimeError::NoReaction);
            },
            Some(c) => c,
        };
        if !contains_id(self.sched.get_allowed_schedules(&c), action.0.id) {
            return Err(RuntimeError::UndeclaredSchedule(c, action.0.id));
        }
        let process_at = match compute_due_tag(
            self.logical_time,
            action.0.min_delay,
            offset.to_duration(),
            None,
        ) {
            None => {
                return Err(RuntimeError::TagOverflow);
            },
            Some(tag) => tag,
        };
        let triggered = self.sched.get_triggered_reactions(&action.0.id);
        if triggered.len() == 0 {
            return Ok(());
        }
        let todo = to_vec(triggered);
        self.enqueue_later(Event { process_at, todo });
        assert(self.later().drop_last() =~= old(self).later());
        Ok(())
    }

    /// Records an event that is due after the tag of the wave.
    fn enqueue_later(&mut self, event: Event)
        requires
            old(self).tag().spec_is_before(&event.process_at),
            event.todo@.len() > 0,
        ensures
            final(self).same_wave(old(self)),
            final(self).pending() == old(self).pending(),
            final(self).seen() == old(self).seen(),
            final(self).fired() == old(self).fired(),
            final(self).current() == old(self).current(),
            final(self).shutdown_requested() == old(self).shutdown_requested(),
            final(self).later() == old(self).later().push(event),
    {
        let taken = self.take_apart();
        proof {
            use_type_invariant(&taken);
        }
        let ReactionWave { sched, logical_time, todo, done, fired, mut later, current, shutdown } =
            taken;
        let ghost before = later@;
        later.push(event);
        proof {
            assert forall|k: int| 0 <= k < later@.len() implies logical_time.spec_is_before(
                &(#[trigger] later@[k]).process_at,
            ) && later@[k].todo@.len() > 0 by {
                if k < before.len() {
                    assert(later@[k] == before[k]);
                }
            }
        }
        *self = ReactionWave { sched, logical_time, todo, done, fired, later, current, shutdown };
    }

    /// Ends the wave and gives what it did.
    pub fn finish(self) -> (outcome: WaveOutcome<'s>)
        ensures
            *outcome.sched == self.schedulable(),
            outcome.tag == self.tag(),
            outcome.fired@ == self.fired(),
            outcome.unfinished@ == self.pending(),
            outcome.later@ == self.later(),
            outcome.shutdown_requested == self.shutdown_requested(),
            outcome.well_ordered(),
    {
        proof {
            use_type_invariant(&self);
        }
        let ReactionWave { sched, logical_time, todo, done: _, fired, later, current: _, shutdown } =
            self;
        proof {
            let level = sched.level_fn();
            assert forall|k: int| 0 <= k < fired@.len() implies (#[trigger] sched.level(
                fired@[k],
            )) is Some by {
                assert(level(fired@[k]) is Some);
            }
        }
        WaveOutcome {
            sched,
            tag: logical_time,
            fired,
            unfinished: todo,
            later,
            shutdown_requested: shutdown,
        }
    }

    /// The context in which a reaction of this wave runs.
    fn new_ctx<'a>(&'a mut self) -> (ctx: LogicalCtx<'a, 's>)
        ensures
            ctx.wave() == *old(self),
            *final(self) == *final(ctx.scheduler),
    {
        LogicalCtx { scheduler: self }
    }

    /// A wave at the tag `tag` in which the reaction `reaction` runs and
    /// nothing is pending: the wave in which the body of one reaction
    /// of a larger wave is run. Its bit set is `done`, so that what was
    /// asked for in the larger wave is not asked for again.
    fn for_reaction(sched: &'s Schedulable, tag: LogicalTag, reaction: GlobalReactionId, done: BitSet)
        -> (wave: Self)
        requires
            sched.level(reaction) is Some,
        ensures
            wave.schedulable() == *sched,
            wave.tag() == tag,
            wave.current() == Some(reaction),
    {
        let mut fired: Vec<GlobalReactionId> = Vec::new();
        fired.push(reaction);
        ReactionWave {
            sched,
            logical_time: tag,
            todo: Vec::new(),
            done,
            fired,
            later: Vec::new(),
            current: Some(reaction),
            shutdown: false,
        }
    }

    /// Runs the wave to its end. As long as reactions are pending, the
    /// pending reaction of the lowest level is taken and `invoker` runs
    /// its body, with the ports of `bank`. What the body asks for through
    /// its context is taken into the wave when the body has returned: the
    /// reactions downstream of the ports that it set become pending, each
    /// at the place of its level and once, and the events that it
    /// scheduled are added to those of the wave. When nothing is pending
    /// the values are taken away from the ports of `bank`.
    ///
    /// Whatever the bodies do, the wave keeps its snapshot and its tag,
    /// the reactions run by strictly increasing level and none runs
    /// twice, nothing is left pending, and no port of `bank` shows a value
    /// at the end. What a body hands back that cannot stem from its
    /// context (a reaction of no higher level than its own, an event that
    /// is not due after the tag) is left out.
    pub fn consume<T: Copy, I: ReactionInvoker<T>>(
        self,
        invoker: &mut I,
        bank: &mut PortBank<T>,
    ) -> (outcome: WaveOutcome<'s>)
        ensures
            *outcome.sched == self.schedulable(),
            outcome.tag == self.tag(),
            outcome.unfinished@.len() == 0,
            outcome.well_ordered(),
            outcome.fired@.no_duplicates(),
            self.fired().is_prefix_of(outcome.fired@),
            self.later().is_prefix_of(outcome.later@),
            self.shutdown_requested() ==> outcome.shutdown_requested,
            self.pending().len() > 0 ==> outcome.fired@.len() > self.fired().len()
                && outcome.fired@[self.fired().len() as int] == self.pending()[0],
            self.pending().len() == 0 ==> outcome.fired@ == self.fired() && outcome.later@
                == self.later() && outcome.shutdown_requested == self.shutdown_requested()
                && final(bank).after_clear(old(bank)),
            forall|i: int| 0 <= i < final(bank).len() ==> final(bank).value(i) is None,
    {
        proof {
            use_type_invariant(&self);
        }
        let ReactionWave {
            sched,
            logical_time,
            mut todo,
            mut done,
            mut fired,
            mut later,
            current: _,
            shutdown,
        } = self;
        let mut shutdown = shutdown;
        sched.levels_are_ordered();
        let ghost level = sched.level_fn();
        let ghost fired0 = fired@;
        let ghost todo0 = todo@;
        let ghost later0 = later@;
        let ghost shutdown0 = shutdown;
        let bound = sched.level_bound();
        let mut floor: usize = 0;
        assert(fired@.subrange(0, fired0.len() as int) =~= fired0);
        assert(later@.subrange(0, later0.len() as int) =~= later0);
        while todo.len() > 0
            invariant
                level == sched.level_fn(),
                sched.ordered(),
                bound == sched.spec_level_bound(),
                floor <= bound,
                increasing(todo@, level),
                has_levels(todo@, level),
                at_least(todo@, level, floor),
                increasing(fired@, level),
                has_levels(fired@, level),
                all_below(fired@, todo@, level),
                all_due_after(later@, logical_time),
                fired0.is_prefix_of(fired@),
                later0.is_prefix_of(later@),
                shutdown0 ==> shutdown,
                fired@.len() == fired0.len() ==> todo@ == todo0 && later@ == later0 && shutdown
                    == shutdown0 && *bank == *old(bank),
                fired@.len() > fired0.len() ==> todo0.len() > 0 && fired@[fired0.len() as int]
                    == todo0[0],
            decreases bound - floor,
        {
            let ghost before_todo = todo@;
            let ghost before_fired = fired@;
            let reaction = todo.remove(0);
            assert(reaction == before_todo[0]);
            assert(level(before_todo[0]) is Some);
            let own = sched.level_of(&reaction).unwrap();
            fired.push(reaction);
            proof {
                assert(todo@ =~= before_todo.drop_first());
                assert forall|j: int, k: int| 0 <= j < k < todo@.len() implies (#[trigger] level(
                    todo@[j],
                ))->0 < (#[trigger] level(todo@[k]))->0 by {
                    assert(todo@[j] == before_todo[j + 1]);
                    assert(todo@[k] == before_todo[k + 1]);
                }
                assert forall|k: int| 0 <= k < todo@.len() implies (#[trigger] level(todo@[k])) is Some
                    && level(todo@[k])->0 >= own + 1 by {
                    assert(todo@[k] == before_todo[k + 1]);
                    assert(level(before_todo[0])->0 < level(before_todo[k + 1])->0);
                }
                assert forall|j: int, k: int| 0 <= j < k < fired@.len() implies (#[trigger] level(
                    fired@[j],
                ))->0 < (#[trigger] level(fired@[k]))->0 by {
                    assert(fired@[j] == before_fired[j]);
                    if k < before_fired.len() {
                        assert(fired@[k] == before_fired[k]);
                    } else {
                        assert(fired@[k] == before_todo[0]);
                    }
                }
                assert forall|k: int| 0 <= k < fired@.len() implies (#[trigger] level(
                    fired@[k],
                )) is Some by {
                    if k < before_fired.len() {
                        assert(fired@[k] == before_fired[k]);
                    }
                }
                assert forall|i: int, j: int|
                    0 <= i < fired@.len() && 0 <= j < todo@.len() implies (#[trigger] level(
                    fired@[i],
                ))->0 < (#[trigger] level(todo@[j]))->0 by {
                    assert(todo@[j] == before_todo[j + 1]);
                    if i < before_fired.len() {
                        assert(fired@[i] == before_fired[i]);
                    } else {
                        assert(fired@[i] == before_todo[0]);
                        assert(level(before_todo[0])->0 < level(before_todo[j + 1])->0);
                    }
                }
                assert(fired@.subrange(0, fired0.len() as int) =~= before_fired.subrange(
                    0,
                    fired0.len() as int,
                ));
                assert(sched.level(reaction) is Some);
            }
            floor = own + 1;
            // The body runs in a wave of its own, which holds nothing of this
            // wave but the bit set.
            let mut running = Self::for_reaction(sched, logical_time, reaction, done);
            let mut ctx = running.new_ctx();
            invoker.fire(&mut ctx, bank, reaction);
            let ReactionWave {
                sched: _,
                logical_time: _,
                todo: asked,
                done: returned,
                fired: _,
                later: scheduled,
                current: _,
                shutdown: asked_to_shut_down,
            } = running;
            done = returned;
            merge_asked(sched, &mut todo, &asked, floor);
            merge_later(logical_time, &mut later, &scheduled);
            shutdown = shutdown || asked_to_shut_down;
            proof {
                assert forall|i: int, j: int|
                    0 <= i < fired@.len() && 0 <= j < todo@.len() implies (#[trigger] level(
                    fired@[i],
                ))->0 < (#[trigger] level(todo@[j]))->0 by {
                    assert(level(todo@[j])->0 >= floor);
                    if i < fired@.len() - 1 {
                        assert(level(fired@[i])->0 < level(fired@[fired@.len() - 1])->0);
                    }
                }
            }
        }
        let ghost used = *bank;
        bank.clear();
        proof {
            assert forall|i: int| 0 <= i < bank.len() implies bank.value(i) is None by {
                assert(bank.kind(i) == used.kind(i));
            }
        }
        let outcome = WaveOutcome {
            sched,
            tag: logical_time,
            fired,
            unfinished: todo,
            later,
            shutdown_requested: shutdown,
        };
        proof {
            assert forall|k: int| 0 <= k < outcome.fired@.len() implies (#[trigger] sched.level(
                outcome.fired@[k],
            )) is Some by {
                assert(level(outcome.fired@[k]) is Some);
            }
            law_at_most_once(outcome.fired@, level);
        }
        outcome
    }
}

/// What a wave did.
pub struct WaveOutcome<'s> {
    /// The snapshot of the program that the wave ran on.
    pub sched: &'s Schedulable,
    /// The tag of the wave.
    pub tag: LogicalTag,
    /// The reactions that ran, in the order in which they ran.
    pub fired: Vec<GlobalReactionId>,
    /// The reactions that were pending when the wave was ended.
    pub unfinished: Vec<GlobalReactionId>,
    /// The events that the reactions scheduled.
    pub later: Vec<Event>,
    /// Whether a reaction asked for the program to shut down.
    pub shutdown_requested: bool,
}

impl<'s> WaveOutcome<'s> {
    /// The reactions ran by strictly increasing level, and every event
    /// that they scheduled is due after the tag of the wave.
    pub open spec fn well_ordered(&self) -> bool {
        &&& increasing(self.fired@, self.sched.level_fn())
        &&& forall|k: int| 0 <= k < self.fired@.len() ==> (#[trigger] self.sched.level(self.fired@[k])) is Some
        &&& all_below(self.fired@, self.unfinished@, self.sched.level_fn())
        &&& all_due_after(self.later@, self.tag)
    }
}

/// What runs the reactions of a program whose ports hold values of the
/// type `T`.
pub trait ReactionInvoker<T: Copy> {
    /// Runs the body of `reaction` in the context `ctx`, with the ports of
    /// `bank`.
    fn fire(
        &mut self,
        ctx: &mut LogicalCtx<'_, '_>,
        bank: &mut PortBank<T>,
        reaction: GlobalReactionId,
    );
}

/// The context in which a reaction runs: what the reaction may do to the
/// wave. Only what the reaction declared at assembly is allowed.
pub struct LogicalCtx<'a, 's> {
    scheduler: &'a mut ReactionWave<'s>,
}

impl<'a, 's> LogicalCtx<'a, 's> {
    /// The wave that the reaction runs in.
    pub closed spec fn wave(&self) -> ReactionWave<'s> {
        *self.scheduler
    }

    /// The value of a port at this tag.
    pub fn get<T: Copy>(&self, bank: &PortBank<T>, port: &Port) -> (r: Result<
        Option<T>,
        RuntimeError,
    >)
        requires
            bank.holds(*port),
        ensures
            r == match self.wave().current() {
                None => Err::<Option<T>, RuntimeError>(RuntimeError::NoReaction),
                Some(c) => if self.wave().schedulable().allowed_reads(c).contains(port.id) {
                    Ok(bank.value(port.slot as int))
                } else {
                    Err(RuntimeError::UndeclaredRead(c, port.id))
                },
            },
    {
        self.scheduler.get(bank, port)
    }

    /// Sets the value of a port. The value is seen at once by the ports
    /// bound to it, and the reactions downstream run in this wave.
    pub fn set<T: Copy>(&mut self, bank: &mut PortBank<T>, port: &Port, value: T) -> (r: Result<
        (),
        RuntimeError,
    >)
        requires
            old(bank).holds(*port),
        ensures
            final(self).wave().is_set_from(
                &old(self).wave(),
                old(bank),
                final(bank),
                *port,
                value,
                r,
            ),
    {
        self.scheduler.set(bank, port, value)
    }

    /// Schedules an action to run after its own delay and the additional
    /// delay `offset`, both in logical time.
    pub fn schedule(&mut self, action: &LogicalAction, offset: Offset) -> (r: Result<
        (),
        RuntimeError,
    >)
        ensures
            final(self).wave().is_scheduled_from(&old(self).wave(), *action, offset, r),
    {
        self.scheduler.schedule(action, offset)
    }

    /// The physical time, read from `clock`.
    pub fn get_physical_time(&self, clock: &Clock) -> u64 {
        clock.now()
    }

    /// Asks for the program to shut down. The request is acted upon when
    /// the wave has ended.
    pub fn request_shutdown(&mut self)
        ensures
            final(self).wave().is_asked_to_shut_down_from(&old(self).wave()),
    {
        self.scheduler.request_shutdown()
    }

    /// The tag at which the reaction runs.
    pub fn get_logical_time(&self) -> (tag: LogicalTag)
        ensures
            tag == self.wave().tag(),
    {
        self.scheduler.get_logical_time()
    }
}

} // verus!
