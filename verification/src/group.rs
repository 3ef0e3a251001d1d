//! Used to mark subspaces of data.
use vstd::prelude::*;

verus! {

/// A namespace tag shared by the quantities of one instance of an equation template.
///
/// Groups do not nest and play no part in evaluation; they only tell apart quantities
/// that carry the same name.
#[derive(Clone, Copy, Debug, PartialEq, Eq, Hash, Structural)]
pub struct Group(pub usize);

} // verus!
