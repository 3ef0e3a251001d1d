//! Sums over a list of quantities that can grow and shrink while it is being drawn up.
use vstd::prelude::*;
use crate::error::VariableError;
use crate::lambda::{all_known, answers, first_unknown, total, BinaryOp, Lam, Operation};
use crate::quantity::QuantityId;
use crate::list::VariableList;

verus! {

/// The quantities whose values are to be added up, in the order in which they are
/// added.
#[derive(Debug, PartialEq, Eq)]
pub struct Sum(pub Vec<QuantityId>);

/// The expression that adds the values of `entries` to `start`, one after the other
/// from the first to the last: the sum so far is the left operand of each addition.
pub open spec fn sum_of<V: Copy>(start: V, entries: Seq<QuantityId>) -> Lam<V>
    decreases entries.len(),
{
    if entries.len() == 0 {
        Lam::Num(start)
    } else {
        Lam::Binary(
            BinaryOp::Add,
            Box::new(sum_of(start, entries.drop_last())),
            Box::new(Lam::Var(entries.last())),
        )
    }
}

/// A sum reads the quantities that it adds up, and no others.
pub proof fn lemma_sum_reads<V: Copy>(start: V, entries: Seq<QuantityId>)
    ensures
        sum_of(start, entries).reads() == entries,
    decreases entries.len(),
{
    if entries.len() > 0 {
        lemma_sum_reads(start, entries.drop_last());
        assert(Lam::<V>::Var(entries.last()).reads() == seq![entries.last()]);
        assert(entries.drop_last() + seq![entries.last()] =~= entries);
    } else {
        assert(Lam::<V>::Num(start).reads() =~= entries);
    }
}

impl Sum {
    /// Adds a quantity to the end of the list.
    pub fn add(&mut self, new_entry: QuantityId)
        ensures
            final(self).0@ == old(self).0@.push(new_entry),
    {
        self.0.push(new_entry);
    }

    /// Takes a quantity out of the list, wherever it occurs.
    pub fn remove(&mut self, entity: QuantityId)
        ensures
            final(self).0@ == old(self).0@.filter(|entry: QuantityId| entry != entity),
    {
        let mut kept: Vec<QuantityId> = Vec::new();
        let mut at: usize = 0;
        while at < self.0.len()
            invariant
                at <= self.0@.len(),
                self.0@ == old(self).0@,
                kept@ == self.0@.take(at as int).filter(|entry: QuantityId| entry != entity),
            decreases self.0@.len() - at,
        {
            let entry = self.0[at];
            proof {
                assert(self.0@.take(at + 1).drop_last() =~= self.0@.take(at as int));
                assert(self.0@.take(at + 1).last() == entry);
                reveal(Seq::filter);
            }
            if entry.index != entity.index || entry.generation != entity.generation {
                kept.push(entry);
            }
            at += 1;
        }
        assert(self.0@.take(at as int) =~= self.0@);
        self.0 = kept;
    }

    /// The quantities that the sum reads.
    pub fn children(&self) -> (needed: Vec<QuantityId>)
        ensures
            needed@ == self.0@,
    {
        let mut needed: Vec<QuantityId> = Vec::new();
        let mut at: usize = 0;
        while at < self.0.len()
            invariant
                at <= self.0@.len(),
                needed@ == self.0@.take(at as int),
            decreases self.0@.len() - at,
        {
            needed.push(self.0[at]);
            assert(self.0@.take(at + 1) =~= self.0@.take(at as int).push(self.0@[at as int]));
            at += 1;
        }
        assert(self.0@.take(at as int) =~= self.0@);
        needed
    }

    /// The sum as an expression that can define a dependent quantity.
    pub fn equation<V: Copy>(&self, start: V) -> (equation: Lam<V>)
        ensures
            equation == sum_of(start, self.0@),
            equation.reads() == self.0@,
    {
        proof {
            lemma_sum_reads(start, self.0@);
        }
        let mut equation = Lam::Num(start);
        let mut at: usize = 0;
        while at < self.0.len()
            invariant
                at <= self.0@.len(),
                equation == sum_of(start, self.0@.take(at as int)),
            decreases self.0@.len() - at,
        {
            assert(self.0@.take(at + 1).drop_last() =~= self.0@.take(at as int));
            assert(self.0@.take(at + 1).last() == self.0@[at as int]);
            equation = Lam::Binary(BinaryOp::Add, Box::new(equation), Box::new(Lam::Var(self.0[at])));
            at += 1;
        }
        assert(self.0@.take(at as int) =~= self.0@);
        equation
    }

    /// Adds the current values of the quantities to `start`, from the first to the
    /// last.
    ///
    /// Fails at the first quantity that the store does not hold.
    pub fn get<V: Copy, F: Fn(Operation<V>) -> V>(
        &self,
        start: V,
        context: &VariableList<V>,
        compute: &F,
    ) -> (result: Result<V, VariableError>)
        requires
            total(*compute),
        ensures
            match result {
                Ok(value) => {
                    &&& all_known(self.0@, context@)
                    &&& sum_of(start, self.0@).evaluates_to(context@, answers(*compute), value)
                },
                Err(error) => exists|id: QuantityId|
                    first_unknown(self.0@, context@, id) && error
                        == VariableError::UnknownQuantity(id),
            },
    {
        let mut total_so_far = start;
        let mut at: usize = 0;
        while at < self.0.len()
            invariant
                at <= self.0@.len(),
                total(*compute),
                sum_of(start, self.0@.take(at as int)).evaluates_to(
                    context@,
                    answers(*compute),
                    total_so_far,
                ),
                forall|earlier: int| 0 <= earlier < at ==> context@.contains_key(self.0@[earlier]),
            decreases self.0@.len() - at,
        {
            let value = match context.get_value(&self.0[at]) {
                Ok(value) => value,
                Err(error) => {
                    assert(first_unknown(self.0@, context@, self.0@[at as int]));
                    return Err(error);
                },
            };
            let next = compute(Operation::Binary(BinaryOp::Add, total_so_far, value));
            proof {
                assert(self.0@.take(at + 1).drop_last() =~= self.0@.take(at as int));
                assert(self.0@.take(at + 1).last() == self.0@[at as int]);
                assert(Lam::<V>::Var(self.0@[at as int]).evaluates_to(
                    context@,
                    answers(*compute),
                    value,
                ));
                assert(answers(*compute)(
                    Operation::Binary(BinaryOp::Add, total_so_far, value),
                    next,
                ));
            }
            total_so_far = next;
            at += 1;
        }
        assert(self.0@.take(at as int) =~= self.0@);
        Ok(total_so_far)
    }
}

} // verus!
