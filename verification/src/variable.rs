//! The core of calculations. Holds equations and values.
use vstd::prelude::*;
use crate::error::VariableError;
use crate::group::Group;
use crate::lambda::{answers, first_unknown, total, Lam, Operation};
use crate::quantity::QuantityId;
use crate::list::{Quantity, VariableList};

verus! {

/// A quantity: either supplied from outside, or computed from an equation over other
/// quantities.
#[derive(Debug, PartialEq)]
pub enum Variable<V> {
    Independent { value: V },
    Dependent {
        /// The value found by the latest evaluation, or the store's sentinel before
        /// the first one.
        value: V,
        /// Whether the value has been computed in the current cycle.
        recalculated: bool,
        equation: Lam<V>,
    },
}

impl<V: Copy> Variable<V> {
    /// Whether the quantity has a value for the current cycle: always for an
    /// independent one, and for a dependent one once it has been evaluated.
    pub open spec fn spec_recalculated(&self) -> bool {
        match *self {
            Variable::Independent { .. } => true,
            Variable::Dependent { recalculated, .. } => recalculated,
        }
    }

    /// The value that the quantity currently holds.
    pub open spec fn spec_value(&self) -> V {
        match *self {
            Variable::Independent { value } => value,
            Variable::Dependent { value, .. } => value,
        }
    }

    /// The equation that yields the quantity: its own for a dependent quantity, and
    /// the constant of its value for an independent one.
    pub open spec fn spec_equation(&self) -> Lam<V> {
        match *self {
            Variable::Independent { value } => Lam::Num(value),
            Variable::Dependent { equation, .. } => equation,
        }
    }

    /// The quantities that this one reads directly, as its equation lists them: none
    /// for an independent quantity.
    pub open spec fn reads(&self) -> Seq<QuantityId> {
        match *self {
            Variable::Independent { .. } => Seq::empty(),
            Variable::Dependent { equation, .. } => equation.reads(),
        }
    }

    /// The same quantity with its evaluation mark set as given; an independent
    /// quantity has no mark and stays as it is.
    pub open spec fn with_recalculated(self, is_recalculated: bool) -> Self {
        match self {
            Variable::Independent { value } => Variable::Independent { value },
            Variable::Dependent { value, recalculated, equation } => Variable::Dependent {
                value,
                recalculated: is_recalculated,
                equation,
            },
        }
    }

    /// The same quantity holding another value.
    pub open spec fn with_value(self, new_value: V) -> Self {
        match self {
            Variable::Independent { value } => Variable::Independent { value: new_value },
            Variable::Dependent { value, recalculated, equation } => Variable::Dependent {
                value: new_value,
                recalculated,
                equation,
            },
        }
    }

    /// A quantity whose value is supplied from outside.
    pub fn independent(value: V) -> (variable: Self)
        ensures
            variable == (Variable::Independent { value }),
    {
        Variable::Independent { value }
    }

    /// A quantity that is computed from `equation`, not evaluated yet and holding
    /// `value` in the meantime.
    pub fn dependent(equation: Lam<V>, value: V) -> (variable: Self)
        ensures
            variable == (Variable::Dependent { value, recalculated: false, equation }),
    {
        Variable::Dependent { value, recalculated: false, equation }
    }

    #[verifier::when_used_as_spec(spec_recalculated)]
    pub fn recalculated(&self) -> (ready: bool)
        ensures
            ready == self.spec_recalculated(),
    {
        match self {
            Variable::Independent { .. } => true,
            Variable::Dependent { recalculated, .. } => *recalculated,
        }
    }

    /// Marks a dependent quantity as evaluated or not; an independent one is left as
    /// it is.
    pub fn set_recalculated(&mut self, is_recalculated: bool)
        ensures
            *final(self) == old(self).with_recalculated(is_recalculated),
    {
        match self {
            Variable::Independent { .. } => {},
            Variable::Dependent { recalculated, .. } => {
                *recalculated = is_recalculated;
            },
        }
    }

    #[verifier::when_used_as_spec(spec_value)]
    pub fn value(&self) -> (current: V)
        ensures
            current == self.spec_value(),
    {
        match self {
            Variable::Independent { value } => *value,
            Variable::Dependent { value, .. } => *value,
        }
    }

    /// Overwrites the value, whatever the kind of the quantity.
    pub fn set_value(&mut self, new_value: V)
        ensures
            *final(self) == old(self).with_value(new_value),
    {
        match self {
            Variable::Independent { value } => {
                *value = new_value;
            },
            Variable::Dependent { value, .. } => {
                *value = new_value;
            },
        }
    }

    #[verifier::when_used_as_spec(spec_equation)]
    pub fn equation(&self) -> (equation: Lam<V>)
        ensures
            equation == self.spec_equation(),
    {
        match self {
            Variable::Independent { value } => Lam::Num(*value),
            Variable::Dependent { equation, .. } => equation.clone(),
        }
    }

    /// The quantities that this one reads directly.
    pub fn children(&self) -> (needed: Vec<QuantityId>)
        ensures
            needed@ == self.reads(),
    {
        match self {
            Variable::Independent { .. } => Vec::new(),
            Variable::Dependent { equation, .. } => equation.children(),
        }
    }

    /// Evaluates the quantity's equation over the store and takes the result as the
    /// value for the current cycle.
    ///
    /// Where the equation reads a quantity that the store does not hold, nothing is
    /// changed.
    pub fn calculate<F: Fn(Operation<V>) -> V>(
        &mut self,
        context: &VariableList<V>,
        compute: &F,
    ) -> (done: Result<(), VariableError>)
        requires
            total(*compute),
        ensures
            match done {
                Ok(_) => exists|value: V|
                    {
                        &&& #[trigger] old(self).equation().evaluates_to(
                            context@,
                            answers(*compute),
                            value,
                        )
                        &&& *final(self) == old(self).with_recalculated(true).with_value(value)
                    },
                Err(error) => {
                    &&& *final(self) == *old(self)
                    &&& exists|id: QuantityId|
                        first_unknown(old(self).reads(), context@, id) && error
                            == VariableError::UnknownQuantity(id)
                },
            },
    {
        let outcome = match &*self {
            Variable::Independent { .. } => None,
            Variable::Dependent { equation, .. } => Some(equation.get(context, compute)),
        };
        match outcome {
            None => {
                assert(old(self).equation().evaluates_to(context@, answers(*compute), old(self).value()));
                Ok(())
            },
            Some(Ok(result)) => {
                self.set_recalculated(true);
                self.set_value(result);
                assert(old(self).equation().evaluates_to(context@, answers(*compute), result));
                Ok(())
            },
            Some(Err(error)) => {
                assert(old(self).reads() == old(self)->equation.reads());
                Err(error)
            },
        }
    }
}

/// Creates a quantity whose value is supplied from outside, and returns its handle.
///
/// The handle is one that no quantity has had before. While no quantity has been
/// removed from the store, the handles are numbered in the order of creation.
pub fn independent<V: Copy>(
    store: &mut VariableList<V>,
    group: &Group,
    name: &str,
    value: V,
) -> (id: QuantityId)
    requires
        old(store).wf(),
    ensures
        final(store).extends(
            old(store),
            id,
            Quantity { variable: Variable::Independent { value }, group: *group, name: name@ },
        ),
{
    store.insert(group, name, Variable::independent(value))
}

/// Creates a quantity that is computed from `equation`, and returns its handle.
///
/// Until its first evaluation the quantity is not ready and holds the store's
/// sentinel. The equation may read quantities that the store does not hold, or does
/// not hold yet: the quantity cannot be evaluated while it does.
pub fn dependent<V: Copy>(
    store: &mut VariableList<V>,
    group: &Group,
    name: &str,
    equation: Lam<V>,
) -> (id: QuantityId)
    requires
        old(store).wf(),
    ensures
        final(store).extends(
            old(store),
            id,
            Quantity {
                variable: Variable::Dependent {
                    value: old(store).sentinel(),
                    recalculated: false,
                    equation,
                },
                group: *group,
                name: name@,
            },
        ),
{
    let value = store.sentinel();
    store.insert(group, name, Variable::dependent(equation, value))
}

} // verus!
