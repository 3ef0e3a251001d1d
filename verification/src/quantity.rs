//! Handles by which quantities are known.
use vstd::prelude::*;

verus! {

/// The stable handle of one quantity: the index of its slot and the generation of that
/// slot at the time the quantity was created.
///
/// A handle stays valid until its quantity is removed and is never valid again after
/// that, even when the slot is given to a new quantity.
#[derive(Clone, Copy, Debug, PartialEq, Eq, Hash, Structural)]
pub struct QuantityId {
    pub index: usize,
    pub generation: u64,
}

/// Whether the handles are listed in the order of their slots, each slot once.
pub open spec fn ascending(ids: Seq<QuantityId>) -> bool {
    forall|i: int, j: int| 0 <= i < j < ids.len() ==> ids[i].index < ids[j].index
}

} // verus!
