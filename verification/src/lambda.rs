//! The package handling data-oriented declaration of dynamic equations.
use vstd::prelude::*;
use crate::error::VariableError;
use crate::quantity::QuantityId;
use crate::list::{Quantity, VariableList};

verus! {

/// The operators that combine two operands.
#[derive(Clone, Copy, Debug, PartialEq, Eq, Structural)]
pub enum BinaryOp {
    Add,
    Sub,
    Mul,
    Div,
    Mod,
}

/// The operators that transform one operand.
#[derive(Clone, Copy, Debug, PartialEq, Eq, Structural)]
pub enum UnaryOp {
    Sin,
    Cos,
    Tan,
}

/// One arithmetic step on values, handed to the caller's arithmetic to be carried out.
#[derive(Debug, PartialEq)]
pub enum Operation<V> {
    Binary(BinaryOp, V, V),
    Unary(UnaryOp, V),
}

/// An expression over quantities: a tree of operators whose leaves are constants and
/// references to quantities.
#[derive(Debug, PartialEq)]
pub enum Lam<V> {
    /// A constant.
    Num(V),
    /// The current value of a quantity.
    Var(QuantityId),
    /// An operator applied to the values of two subexpressions.
    Binary(BinaryOp, Box<Lam<V>>, Box<Lam<V>>),
    /// An operator applied to the value of one subexpression.
    Unary(UnaryOp, Box<Lam<V>>),
}

/// Whether `id` is the first of `needed` that `context` does not hold.
pub open spec fn first_unknown<V>(
    needed: Seq<QuantityId>,
    context: Map<QuantityId, Quantity<V>>,
    id: QuantityId,
) -> bool {
    exists|at: int|
        {
            &&& 0 <= at < needed.len()
            &&& #[trigger] needed[at] == id
            &&& !context.contains_key(id)
            &&& forall|earlier: int| 0 <= earlier < at ==> context.contains_key(needed[earlier])
        }
}

/// Whether `context` holds every quantity of `needed`.
pub open spec fn all_known<V>(needed: Seq<QuantityId>, context: Map<QuantityId, Quantity<V>>) -> bool {
    forall|at: int| 0 <= at < needed.len() ==> context.contains_key(#[trigger] needed[at])
}

proof fn lemma_first_unknown_on_the_left<V>(
    left: Seq<QuantityId>,
    right: Seq<QuantityId>,
    context: Map<QuantityId, Quantity<V>>,
    id: QuantityId,
)
    requires
        first_unknown(left, context, id),
    ensures
        first_unknown(left + right, context, id),
{
    let at = choose|at: int|
        {
            &&& 0 <= at < left.len()
            &&& #[trigger] left[at] == id
            &&& !context.contains_key(id)
            &&& forall|earlier: int| 0 <= earlier < at ==> context.contains_key(left[earlier])
        };
    assert((left + right)[at] == id);
    assert forall|earlier: int| 0 <= earlier < at implies context.contains_key(
        (left + right)[earlier],
    ) by {
        assert((left + right)[earlier] == left[earlier]);
    }
}

proof fn lemma_first_unknown_on_the_right<V>(
    left: Seq<QuantityId>,
    right: Seq<QuantityId>,
    context: Map<QuantityId, Quantity<V>>,
    id: QuantityId,
)
    requires
        all_known(left, context),
        first_unknown(right, context, id),
    ensures
        first_unknown(left + right, context, id),
{
    let at = choose|at: int|
        {
            &&& 0 <= at < right.len()
            &&& #[trigger] right[at] == id
            &&& !context.contains_key(id)
            &&& forall|earlier: int| 0 <= earlier < at ==> context.contains_key(right[earlier])
        };
    let shifted = left.len() + at;
    assert((left + right)[shifted] == id);
    assert forall|earlier: int| 0 <= earlier < shifted implies context.contains_key(
        (left + right)[earlier],
    ) by {
        if earlier < left.len() {
            assert((left + right)[earlier] == left[earlier]);
        } else {
            assert((left + right)[earlier] == right[earlier - left.len()]);
        }
    }
}

proof fn lemma_all_known_together<V>(
    left: Seq<QuantityId>,
    right: Seq<QuantityId>,
    context: Map<QuantityId, Quantity<V>>,
)
    requires
        all_known(left, context),
        all_known(right, context),
    ensures
        all_known(left + right, context),
{
    assert forall|at: int| 0 <= at < (left + right).len() implies context.contains_key(
        #[trigger] (left + right)[at],
    ) by {
        if at < left.len() {
            assert((left + right)[at] == left[at]);
        } else {
            assert((left + right)[at] == right[at - left.len()]);
        }
    }
}

/// What the caller's arithmetic may answer: whether `result` is a value that it may
/// return for `operation`.
pub open spec fn answers<V, F: Fn(Operation<V>) -> V>(compute: F) -> spec_fn(
    Operation<V>,
    V,
) -> bool {
    |operation: Operation<V>, result: V| compute.ensures((operation,), result)
}

/// Whether the arithmetic can be asked for every operation.
pub open spec fn total<V, F: Fn(Operation<V>) -> V>(compute: F) -> bool {
    forall|operation: Operation<V>| #[trigger] compute.requires((operation,))
}

impl<V: Copy> Lam<V> {
    /// The quantities that the expression reads directly, in the order in which they
    /// occur from left to right, each as often as it occurs.
    pub open spec fn reads(self) -> Seq<QuantityId>
        decreases self,
    {
        match self {
            Lam::Num(_) => Seq::empty(),
            Lam::Var(id) => seq![id],
            Lam::Binary(_, lhs, rhs) => lhs.reads() + rhs.reads(),
            Lam::Unary(_, arg) => arg.reads(),
        }
    }

    /// The expression that applies `op` to the values of `lhs` and `rhs`.
    pub fn binary(op: BinaryOp, lhs: Lam<V>, rhs: Lam<V>) -> (node: Self)
        ensures
            node == Lam::Binary(op, Box::new(lhs), Box::new(rhs)),
    {
        Lam::Binary(op, Box::new(lhs), Box::new(rhs))
    }

    /// The expression that applies `op` to the value of `arg`.
    pub fn unary(op: UnaryOp, arg: Lam<V>) -> (node: Self)
        ensures
            node == Lam::Unary(op, Box::new(arg)),
    {
        Lam::Unary(op, Box::new(arg))
    }

    /// The quantities that the expression reads directly.
    pub fn children(&self) -> (needed: Vec<QuantityId>)
        ensures
            needed@ == self.reads(),
        decreases self,
    {
        match self {
            Lam::Num(_) => Vec::new(),
            Lam::Var(id) => {
                let mut needed = Vec::new();
                needed.push(*id);
                needed
            },
            Lam::Binary(_, lhs, rhs) => {
                let mut needed = lhs.children();
                let mut more = rhs.children();
                needed.append(&mut more);
                needed
            },
            Lam::Unary(_, arg) => arg.children(),
        }
    }

    /// Whether `result` is a value of the expression over the quantities of `context`,
    /// with `arithmetic` telling which results each operation may have.
    ///
    /// A constant has its own value, a reference the current value of its quantity,
    /// and an operator node any value that `arithmetic` allows for the operator on
    /// values of the subexpressions. An expression that reads a quantity which
    /// `context` does not hold has no value.
    pub open spec fn evaluates_to(
        self,
        context: Map<QuantityId, Quantity<V>>,
        arithmetic: spec_fn(Operation<V>, V) -> bool,
        result: V,
    ) -> bool
        decreases self,
    {
        match self {
            Lam::Num(value) => result == value,
            Lam::Var(id) => context.contains_key(id) && result == context[id].variable.value(),
            Lam::Binary(op, lhs, rhs) => exists|left: V, right: V|
                {
                    &&& lhs.evaluates_to(context, arithmetic, left)
                    &&& rhs.evaluates_to(context, arithmetic, right)
                    &&& #[trigger] arithmetic(Operation::Binary(op, left, right), result)
                },
            Lam::Unary(op, arg) => exists|inner: V|
                {
                    &&& arg.evaluates_to(context, arithmetic, inner)
                    &&& #[trigger] arithmetic(Operation::Unary(op, inner), result)
                },
        }
    }

    /// Evaluates the expression over the current values of the store, from left to
    /// right.
    ///
    /// Fails at the first reference to a quantity that the store does not hold.
    pub fn get<F: Fn(Operation<V>) -> V>(&self, context: &VariableList<V>, compute: &F) -> (result:
        Result<V, VariableError>)
        requires
            total(*compute),
        ensures
            match result {
                Ok(value) => {
                    &&& all_known(self.reads(), context@)
                    &&& self.evaluates_to(context@, answers(*compute), value)
                },
                Err(error) => exists|id: QuantityId|
                    first_unknown(self.reads(), context@, id) && error
                        == VariableError::UnknownQuantity(id),
            },
        decreases self,
    {
        match self {
            Lam::Num(value) => {
                assert(self.reads().len() == 0);
                Ok(*value)
            },
            Lam::Var(id) => {
                let found = context.get_value(id);
                proof {
                    assert(self.reads().len() == 1 && self.reads()[0] == *id);
                    if found is Err {
                        assert(first_unknown(self.reads(), context@, *id));
                    }
                }
                found
            },
            Lam::Binary(op, lhs, rhs) => {
                let left = match lhs.get(context, compute) {
                    Ok(left) => left,
                    Err(error) => {
                        proof {
                            let id = choose|id: QuantityId|
                                first_unknown(lhs.reads(), context@, id) && error
                                    == VariableError::UnknownQuantity(id);
                            lemma_first_unknown_on_the_left(lhs.reads(), rhs.reads(), context@, id);
                            assert(self.reads() == lhs.reads() + rhs.reads());
                        }
                        return Err(error);
                    },
                };
                let right = match rhs.get(context, compute) {
                    Ok(right) => right,
                    Err(error) => {
                        proof {
                            let id = choose|id: QuantityId|
                                first_unknown(rhs.reads(), context@, id) && error
                                    == VariableError::UnknownQuantity(id);
                            lemma_first_unknown_on_the_right(lhs.reads(), rhs.reads(), context@, id);
                            assert(self.reads() == lhs.reads() + rhs.reads());
                        }
                        return Err(error);
                    },
                };
                let value = compute(Operation::Binary(*op, left, right));
                proof {
                    lemma_all_known_together(lhs.reads(), rhs.reads(), context@);
                    assert(answers(*compute)(Operation::Binary(*op, left, right), value));
                }
                Ok(value)
            },
            Lam::Unary(op, arg) => {
                let inner = match arg.get(context, compute) {
                    Ok(inner) => inner,
                    Err(error) => {
                        assert(self.reads() == arg.reads());
                        return Err(error);
                    },
                };
                let value = compute(Operation::Unary(*op, inner));
                proof {
                    assert(self.reads() == arg.reads());
                    assert(answers(*compute)(Operation::Unary(*op, inner), value));
                }
                Ok(value)
            },
        }
    }
}

impl<V: Copy> Clone for Lam<V> {
    fn clone(&self) -> (copy: Self)
        ensures
            copy == *self,
        decreases self,
    {
        match self {
            Lam::Num(value) => Lam::Num(*value),
            Lam::Var(id) => Lam::Var(*id),
            Lam::Binary(op, lhs, rhs) => {
                let left = (&**lhs).clone();
                let right = (&**rhs).clone();
                Lam::Binary(*op, Box::new(left), Box::new(right))
            },
            Lam::Unary(op, arg) => {
                let inner = (&**arg).clone();
                Lam::Unary(*op, Box::new(inner))
            },
        }
    }
}

} // verus!
