//! A set of small numbers of fixed capacity, kept in a
//! `bitset_fixed::BitSet`.
//!
//! Verus does not look inside the bit set. What it holds is described by
//! the sequence `bitset_bits`, and the functions of this file state what
//! the methods of the bit set do to that sequence.

use bitset_fixed::BitSet;
use vstd::prelude::*;

verus! {

#[verifier::external_type_specification]
#[verifier::external_body]
pub struct ExBitSet(BitSet);

/// The bits of a bit set, by index.
pub uninterp spec fn bitset_bits(b: BitSet) -> Seq<bool>;

/// Largest size with which a bit set can be made.
pub const BITSET_LIMIT: usize = usize::MAX - 63;

/// `BitSet::new`: a bit set of `size` bits, all of them off.
#[verifier::external_body]
pub(crate) fn bitset_new(size: usize) -> (b: BitSet)
    requires
        size <= BITSET_LIMIT,
    ensures
        bitset_bits(b) == Seq::new(size as nat, |i: int| false),
{
    BitSet::new(size)
}

/// `BitSet::size`: the number of bits.
#[verifier::external_body]
pub(crate) fn bitset_size(b: &BitSet) -> (n: usize)
    ensures
        n == bitset_bits(*b).len(),
{
    b.size()
}

/// `BitSet::set`: gives bit `i` the value `v`; the other bits stay.
/// `bitset_fixed` panics when `i` is not below the size, which the
/// precondition excludes.
#[verifier::external_body]
pub(crate) fn bitset_set(b: &mut BitSet, i: usize, v: bool)
    requires
        i < bitset_bits(*old(b)).len(),
    ensures
        bitset_bits(*final(b)) == bitset_bits(*old(b)).update(i as int, v),
{
    b.set(i, v);
}

/// Indexing of a `BitSet`: the value of bit `i`. `bitset_fixed` panics
/// when `i` is not below the size, which the precondition excludes.
#[verifier::external_body]
pub(crate) fn bitset_get(b: &BitSet, i: usize) -> (v: bool)
    requires
        i < bitset_bits(*b).len(),
    ensures
        v == bitset_bits(*b)[i as int],
{
    b[i]
}

} // verus!
