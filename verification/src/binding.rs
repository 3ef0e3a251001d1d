//! Bindings: the cached values through which consumers read quantities.
use vstd::prelude::*;
use crate::error::VariableError;
use crate::quantity::QuantityId;
use crate::list::{Quantity, VariableList};

verus! {

/// A consumer's snapshot of one quantity: its handle, and the value that the quantity
/// had when the binding was last refreshed.
#[derive(Debug, PartialEq)]
pub struct VarBinding<V> {
    pub variable: QuantityId,
    pub value: V,
}

impl<V: Copy> Clone for VarBinding<V> {
    fn clone(&self) -> (copy: Self)
        ensures
            copy == *self,
    {
        VarBinding { variable: self.variable, value: self.value }
    }
}

impl<V: Copy> Copy for VarBinding<V> {

}

/// What a refresh from `store` makes of a binding: it takes the current value of its
/// quantity, or stays as it is where the store does not hold that quantity.
pub open spec fn refreshed<V: Copy>(
    binding: VarBinding<V>,
    store: Map<QuantityId, Quantity<V>>,
) -> VarBinding<V> {
    if store.contains_key(binding.variable) {
        VarBinding { variable: binding.variable, value: store[binding.variable].variable.value() }
    } else {
        binding
    }
}

/// Whether `id` is the target of the first of `bindings` whose quantity `store` does
/// not hold.
pub open spec fn first_stale<V: Copy>(
    bindings: Seq<VarBinding<V>>,
    store: Map<QuantityId, Quantity<V>>,
    id: QuantityId,
) -> bool {
    exists|at: int|
        {
            &&& 0 <= at < bindings.len()
            &&& (#[trigger] bindings[at]).variable == id
            &&& !store.contains_key(id)
            &&& forall|earlier: int|
                0 <= earlier < at ==> store.contains_key(bindings[earlier].variable)
        }
}

impl<V: Copy> VarBinding<V> {
    /// A binding to `master` that holds `value` until it is refreshed.
    pub fn new(master: QuantityId, value: V) -> (binding: Self)
        ensures
            binding == (VarBinding { variable: master, value }),
    {
        Self { variable: master, value }
    }

    /// The value that the quantity had at the latest refresh.
    pub fn value(&self) -> (cached: V)
        ensures
            cached == self.value,
    {
        self.value
    }

    /// Takes over the current value of the bound quantity.
    ///
    /// Where the store no longer holds the quantity, the binding keeps what it has.
    pub fn refresh(&mut self, store: &VariableList<V>) -> (done: Result<(), VariableError>)
        ensures
            *final(self) == refreshed(*old(self), store@),
            match done {
                Ok(_) => store@.contains_key(old(self).variable),
                Err(error) => !store@.contains_key(old(self).variable) && error
                    == VariableError::UnknownQuantity(old(self).variable),
            },
    {
        match store.get_value(&self.variable) {
            Ok(value) => {
                self.value = value;
                Ok(())
            },
            Err(error) => Err(error),
        }
    }
}

/// Creates a binding to a quantity, holding the quantity's current value whether or
/// not that has been evaluated in this cycle.
pub fn bind<V: Copy>(store: &VariableList<V>, master: QuantityId) -> (bound: Result<
    VarBinding<V>,
    VariableError,
>)
    ensures
        match bound {
            Ok(binding) => {
                &&& store@.contains_key(master)
                &&& binding == (VarBinding {
                    variable: master,
                    value: store@[master].variable.value(),
                })
            },
            Err(error) => !store@.contains_key(master) && error == VariableError::UnknownQuantity(
                master,
            ),
        },
{
    match store.get_value(&master) {
        Ok(value) => Ok(VarBinding::new(master, value)),
        Err(error) => Err(error),
    }
}

/// Refreshes every binding from the store.
///
/// A binding whose quantity the store no longer holds keeps its value; the others are
/// refreshed all the same, and the first such binding is reported.
pub fn update_bindings<V: Copy>(bindings: &mut Vec<VarBinding<V>>, store: &VariableList<V>) -> (done:
    Result<(), VariableError>)
    ensures
        final(bindings)@.len() == old(bindings)@.len(),
        forall|at: int|
            0 <= at < old(bindings)@.len() ==> #[trigger] final(bindings)@[at] == refreshed(
                old(bindings)@[at],
                store@,
            ),
        match done {
            Ok(_) => forall|at: int|
                0 <= at < old(bindings)@.len() ==> store@.contains_key(
                    (#[trigger] old(bindings)@[at]).variable,
                ),
            Err(error) => exists|id: QuantityId|
                first_stale(old(bindings)@, store@, id) && error == VariableError::UnknownQuantity(
                    id,
                ),
        },
{
    let mut first: Option<VariableError> = None;
    let mut at: usize = 0;
    while at < bindings.len()
        invariant
            at <= bindings@.len(),
            bindings@.len() == old(bindings)@.len(),
            forall|k: int|
                0 <= k < at ==> #[trigger] bindings@[k] == refreshed(old(bindings)@[k], store@),
            forall|k: int| at <= k < bindings@.len() ==> #[trigger] bindings@[k] == old(bindings)@[k],
            match first {
                None => forall|k: int|
                    0 <= k < at ==> store@.contains_key((#[trigger] old(bindings)@[k]).variable),
                Some(error) => exists|id: QuantityId|
                    first_stale(old(bindings)@, store@, id) && error
                        == VariableError::UnknownQuantity(id),
            },
        decreases bindings@.len() - at,
    {
        let mut binding = bindings[at];
        match binding.refresh(store) {
            Ok(_) => {},
            Err(error) => {
                if first.is_none() {
                    assert(first_stale(old(bindings)@, store@, old(bindings)@[at as int].variable));
                    first = Some(error);
                }
            },
        }
        bindings.set(at, binding);
        at += 1;
    }
    match first {
        None => Ok(()),
        Some(error) => Err(error),
    }
}

} // verus!
