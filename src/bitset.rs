use hibitset::BitSet;
use vstd::prelude::*;

verus! {

#[verifier::external_type_specification]
#[verifier::external_body]
pub struct ExBitSet(BitSet);

/// The ids present in a `hibitset::BitSet`.
pub uninterp spec fn bits_of(b: BitSet) -> Set<u32>;

/// Relies on `BitSet::new`: an empty set.
#[verifier::external_body]
pub(crate) fn bits_new() -> (r: BitSet)
    ensures
        bits_of(r) == Set::<u32>::empty(),
{
    BitSet::new()
}

/// Relies on `BitSet::contains`: whether `id` is in the set.
#[verifier::external_body]
pub(crate) fn bits_contains(b: &BitSet, id: u32) -> (r: bool)
    ensures
        r == bits_of(*b).contains(id),
{
    b.contains(id)
}

/// Relies on `BitSet::add`: inserts `id` (which must stay within the set's
/// index bound, else it panics) and returns whether it was present.
#[verifier::external_body]
pub(crate) fn bits_add(b: &mut BitSet, id: u32) -> (r: bool)
    requires
        id < crate::handle::MAX_ID,
    ensures
        r == bits_of(*old(b)).contains(id),
        bits_of(*final(b)) == bits_of(*old(b)).insert(id),
{
    b.add(id)
}

/// Relies on `BitSet::remove`: takes `id` out and returns whether it was present.
#[verifier::external_body]
pub(crate) fn bits_remove(b: &mut BitSet, id: u32) -> (r: bool)
    ensures
        r == bits_of(*old(b)).contains(id),
        bits_of(*final(b)) == bits_of(*old(b)).remove(id),
{
    b.remove(id)
}

/// Relies on `BitSet::clear`: the set becomes empty.
#[verifier::external_body]
pub(crate) fn bits_clear(b: &mut BitSet)
    ensures
        bits_of(*final(b)) == Set::<u32>::empty(),
{
    b.clear()
}

} // verus!
