//! The ways in which a request to the variable store can fail.
use vstd::prelude::*;
use crate::quantity::QuantityId;

verus! {

/// Why a request could not be served.
#[derive(Debug, PartialEq, Eq)]
pub enum VariableError {
    /// The handle names no quantity of the store: it was never issued by it, or its
    /// quantity has been removed since.
    UnknownQuantity(QuantityId),
    /// A value was written from outside to a quantity that is computed from others.
    DependentQuantity(QuantityId),
    /// A group holds no quantity of the name asked for, or more than one.
    AmbiguousOrMissingRoleMatch,
    /// Some dependent quantities could not be evaluated: each of them reads a quantity
    /// that the store does not hold or that could not be evaluated itself, as on a
    /// cycle.
    UnresolvedDependencies {
        /// The number of waves that were run before giving up.
        waves: usize,
        /// The quantities that never became ready.
        stuck: Vec<QuantityId>,
    },
}

} // verus!
