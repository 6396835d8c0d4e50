//! The queue of the tags at which events are due, kept in a
//! `priority_queue::PriorityQueue`.
//!
//! Verus does not look inside the queue. What it holds is described by
//! the set `queue_keys`, and the functions of this file state what the
//! methods of the queue do to that set.

use priority_queue::PriorityQueue;
use std::cmp::Reverse;
use vstd::prelude::*;

verus! {

#[verifier::external_type_specification]
#[verifier::external_body]
#[verifier::reject_recursive_types(I)]
#[verifier::reject_recursive_types(P)]
#[verifier::reject_recursive_types(H)]
pub struct ExPriorityQueue<I, P, H>(PriorityQueue<I, P, H>);

#[verifier::external_type_specification]
#[verifier::external_body]
#[verifier::reject_recursive_types(T)]
pub struct ExReverse<T>(Reverse<T>);

/// A queue of tags, each written as the pair of its instant and its
/// microstep. The priority of a pair is the pair itself in reversed
/// order, so that the earliest tag has the greatest priority.
pub type TagQueue = PriorityQueue<(u64, u32), Reverse<(u64, u32)>>;

/// The pairs that a queue holds.
pub uninterp spec fn queue_keys(q: TagQueue) -> Set<(u64, u32)>;

/// The order of pairs: by the first part, then by the second.
pub open spec fn key_before(a: (u64, u32), b: (u64, u32)) -> bool {
    a.0 < b.0 || (a.0 == b.0 && a.1 < b.1)
}

/// `key` is in `keys`, and no pair of `keys` is before it.
pub open spec fn is_earliest(keys: Set<(u64, u32)>, key: (u64, u32)) -> bool {
    keys.contains(key) && forall|other: (u64, u32)| #[trigger]
        keys.contains(other) ==> !key_before(other, key)
}

/// `PriorityQueue::new`: an empty queue.
#[verifier::external_body]
pub(crate) fn queue_new() -> (q: TagQueue)
    ensures
        queue_keys(q) == Set::<(u64, u32)>::empty(),
{
    PriorityQueue::new()
}

/// `PriorityQueue::push`: inserts the pair, with the pair in reversed
/// order as its priority. A pair that the queue holds already stays in it
/// once.
#[verifier::external_body]
pub(crate) fn queue_push(q: &mut TagQueue, key: (u64, u32))
    ensures
        queue_keys(*final(q)) == queue_keys(*old(q)).insert(key),
{
    q.push(key, Reverse(key));
}

/// `PriorityQueue::pop`: removes and returns the pair of greatest
/// priority, which is the earliest pair; `None` when the queue is empty.
#[verifier::external_body]
pub(crate) fn queue_pop(q: &mut TagQueue) -> (r: Option<(u64, u32)>)
    ensures
        match r {
            Some(key) => is_earliest(queue_keys(*old(q)), key) && queue_keys(*final(q))
                == queue_keys(*old(q)).remove(key),
            None => queue_keys(*old(q)) == Set::<(u64, u32)>::empty() && queue_keys(*final(q))
                == queue_keys(*old(q)),
        },
{
    q.pop().map(|entry| entry.0)
}

/// `PriorityQueue::peek`: the pair of greatest priority, which is the
/// earliest pair; `None` when the queue is empty.
#[verifier::external_body]
pub(crate) fn queue_peek(q: &TagQueue) -> (r: Option<(u64, u32)>)
    ensures
        match r {
            Some(key) => is_earliest(queue_keys(*q), key),
            None => queue_keys(*q) == Set::<(u64, u32)>::empty(),
        },
{
    q.peek().map(|entry| *entry.0)
}

/// `PriorityQueue::is_empty`: whether the queue holds no pair.
#[verifier::external_body]
pub(crate) fn queue_is_empty(q: &TagQueue) -> (b: bool)
    ensures
        b == (queue_keys(*q) == Set::<(u64, u32)>::empty()),
{
    q.is_empty()
}

/// A set has at most one earliest pair.
pub proof fn lemma_earliest_unique(keys: Set<(u64, u32)>, a: (u64, u32), b: (u64, u32))
    requires
        is_earliest(keys, a),
        is_earliest(keys, b),
    ensures
        a == b,
{
}

} // verus!
