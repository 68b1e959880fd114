//! Trusted boundary around `fixedbitset::FixedBitSet`, the bit-level set the
//! word model uses for its 26-letter universe.
//!
//! A `FixedBitSet` is opaque to the verifier; `bits_of` names the set of
//! enabled bit indices it holds and `nbits_of` the number of bits it was
//! created with. Every method the core calls goes through one of the wrappers
//! below, whose contracts state what the crate's source shows.

use vstd::prelude::*;

use fixedbitset::FixedBitSet;

verus! {

#[verifier::external_type_specification]
#[verifier::external_body]
pub struct ExFixedBitSet(FixedBitSet);

/// The set of bit indices that are enabled in `b`.
pub uninterp spec fn bits_of(b: FixedBitSet) -> Set<usize>;

/// The number of bits `b` was created with; enabled bits all lie below it.
pub uninterp spec fn nbits_of(b: FixedBitSet) -> nat;

/// Relies on `FixedBitSet::with_capacity`: a set with `bits` bits, all
/// initially clear.
#[verifier::external_body]
pub(crate) fn bitset_with_capacity(bits: usize) -> (r: FixedBitSet)
    ensures
        bits_of(r) == Set::<usize>::empty(),
        nbits_of(r) == bits,
{
    FixedBitSet::with_capacity(bits)
}

/// Relies on `FixedBitSet::insert`: enables one bit and changes nothing
/// else; it panics when the bit is out of bounds, so that case is excluded.
#[verifier::external_body]
pub(crate) fn bitset_insert(b: &mut FixedBitSet, bit: usize)
    requires
        bit < nbits_of(*old(b)),
    ensures
        bits_of(*final(b)) == bits_of(*old(b)).insert(bit),
        nbits_of(*final(b)) == nbits_of(*old(b)),
{
    b.insert(bit)
}

/// Relies on `FixedBitSet::contains`: true exactly when the bit is enabled;
/// bits outside the capacity are always disabled.
#[verifier::external_body]
pub(crate) fn bitset_contains(b: &FixedBitSet, bit: usize) -> (r: bool)
    ensures
        r == bits_of(*b).contains(bit),
{
    b.contains(bit)
}

/// Relies on `FixedBitSet::is_subset`: true exactly when every enabled bit of
/// `a` is enabled in `b`.
#[verifier::external_body]
pub(crate) fn bitset_is_subset(a: &FixedBitSet, b: &FixedBitSet) -> (r: bool)
    ensures
        r == bits_of(*a).subset_of(bits_of(*b)),
{
    a.is_subset(b)
}

/// Relies on `FixedBitSet::is_disjoint`: true exactly when `a` and `b` share
/// no enabled bit.
#[verifier::external_body]
pub(crate) fn bitset_is_disjoint(a: &FixedBitSet, b: &FixedBitSet) -> (r: bool)
    ensures
        r == bits_of(*a).disjoint(bits_of(*b)),
{
    a.is_disjoint(b)
}

/// Relies on `<FixedBitSet as Clone>::clone`: the copy holds the same bits
/// over the same capacity.
#[verifier::external_body]
pub(crate) fn bitset_clone(b: &FixedBitSet) -> (r: FixedBitSet)
    ensures
        bits_of(r) == bits_of(*b),
        nbits_of(r) == nbits_of(*b),
{
    b.clone()
}

} // verus!
