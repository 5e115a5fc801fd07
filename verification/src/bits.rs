use vstd::prelude::*;

use hibitset::{AtomicBitSet, BitSet, BitSetLike};

use crate::entity::Index;

verus! {

/// The hierarchical bit sets hold four layers of machine words, which caps
/// the indices they accept; adding beyond the cap panics, so every wrapper
/// requires its index to stay below it.
pub const MAX_INDEX: u32 = 0x100_0000;

#[verifier::external_type_specification]
#[verifier::external_body]
pub struct ExBitSet(BitSet);

#[verifier::external_type_specification]
#[verifier::external_body]
pub struct ExAtomicBitSet(AtomicBitSet);

/// The set of indices a `hibitset::BitSet` holds.
pub uninterp spec fn bit_set_elems(s: BitSet) -> Set<Index>;

/// The set of indices a `hibitset::AtomicBitSet` holds.
pub uninterp spec fn atomic_bit_set_elems(s: AtomicBitSet) -> Set<Index>;

/// Relies on `hibitset::BitSet::new`: the new set is empty.
#[verifier::external_body]
pub(crate) fn bit_set_new() -> (r: BitSet)
    ensures
        bit_set_elems(r) == Set::<Index>::empty(),
{
    BitSet::new()
}

/// Relies on `hibitset::BitSet::add`: sets the bit for `id` and reports
/// whether it was already set.
#[verifier::external_body]
pub(crate) fn bit_set_add(s: &mut BitSet, id: Index) -> (r: bool)
    requires
        id < MAX_INDEX,
    ensures
        bit_set_elems(*final(s)) == bit_set_elems(*old(s)).insert(id),
        r == bit_set_elems(*old(s)).contains(id),
{
    s.add(id)
}

/// Relies on `hibitset::BitSet::remove`: clears the bit for `id` and reports
/// whether it was set.
#[verifier::external_body]
pub(crate) fn bit_set_remove(s: &mut BitSet, id: Index) -> (r: bool)
    requires
        id < MAX_INDEX,
    ensures
        bit_set_elems(*final(s)) == bit_set_elems(*old(s)).remove(id),
        r == bit_set_elems(*old(s)).contains(id),
{
    s.remove(id)
}

/// Relies on `hibitset::AtomicBitSet::new`: the new set is empty and sized
/// for the full index range.
#[verifier::external_body]
pub(crate) fn atomic_bit_set_new() -> (r: AtomicBitSet)
    ensures
        atomic_bit_set_elems(r) == Set::<Index>::empty(),
{
    AtomicBitSet::new()
}

/// Relies on `hibitset::AtomicBitSet::add_atomic`: sets the bit for `id`
/// through a shared borrow and reports whether it was already set.
#[verifier::external_body]
pub(crate) fn atomic_bit_set_add_atomic(s: &mut AtomicBitSet, id: Index) -> (r: bool)
    requires
        id < MAX_INDEX,
    ensures
        atomic_bit_set_elems(*final(s)) == atomic_bit_set_elems(*old(s)).insert(id),
        r == atomic_bit_set_elems(*old(s)).contains(id),
{
    s.add_atomic(id)
}

/// Relies on `hibitset::AtomicBitSet::remove`: clears the bit for `id` and
/// reports whether it was set.
#[verifier::external_body]
pub(crate) fn atomic_bit_set_remove(s: &mut AtomicBitSet, id: Index) -> (r: bool)
    requires
        id < MAX_INDEX,
    ensures
        atomic_bit_set_elems(*final(s)) == atomic_bit_set_elems(*old(s)).remove(id),
        r == atomic_bit_set_elems(*old(s)).contains(id),
{
    s.remove(id)
}

/// Relies on `hibitset::AtomicBitSet::contains`.
#[verifier::external_body]
pub(crate) fn atomic_bit_set_contains(s: &AtomicBitSet, id: Index) -> (r: bool)
    requires
        id < MAX_INDEX,
    ensures
        r == atomic_bit_set_elems(*s).contains(id),
{
    s.contains(id)
}

/// Relies on `hibitset::AtomicBitSet::clear`: wipes the whole set.
#[verifier::external_body]
pub(crate) fn atomic_bit_set_clear(s: &mut AtomicBitSet)
    ensures
        atomic_bit_set_elems(*final(s)) == Set::<Index>::empty(),
{
    s.clear()
}

/// Relies on hibitset's `BitSetLike` iterator: it yields each contained
/// index exactly once, in ascending order.
#[verifier::external_body]
pub(crate) fn atomic_bit_set_collect(s: &AtomicBitSet) -> (r: Vec<Index>)
    ensures
        forall|j: int, k: int| 0 <= j < k < r@.len() ==> r@[j] < r@[k],
        forall|k: int| 0 <= k < r@.len() ==> atomic_bit_set_elems(*s).contains(#[trigger] r@[k]),
        forall|i: Index| #[trigger] atomic_bit_set_elems(*s).contains(i) ==> r@.contains(i),
{
    s.iter().collect()
}

} // verus!
