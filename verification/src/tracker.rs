//! A line that tracks the last values of a variable.
use vstd::prelude::*;
use crate::binding::VarBinding;

verus! {

/// The history of one bound quantity: its latest values, the newest first, and never
/// more of them than `max_length`.
#[derive(Debug, PartialEq)]
pub struct BoundTracker<V> {
    pub target: VarBinding<V>,
    pub history: Vec<V>,
    pub max_length: usize,
}

/// The history after `value` has been put in front of it: one value longer, unless
/// that is more than `max_length`, in which case the oldest value is dropped.
pub open spec fn extended<V>(history: Seq<V>, value: V, max_length: usize) -> Seq<V> {
    let longer = seq![value] + history;
    if longer.len() > max_length {
        longer.drop_last()
    } else {
        longer
    }
}

impl<V: Copy> BoundTracker<V> {
    /// A tracker with an empty history.
    pub fn new(target: VarBinding<V>, max_length: usize) -> (tracker: Self)
        ensures
            tracker.target == target,
            tracker.history@ == Seq::<V>::empty(),
            tracker.max_length == max_length,
    {
        Self { target, history: Vec::new(), max_length }
    }

    /// Puts the value that the binding currently holds in front of the history.
    pub fn track(&mut self)
        ensures
            final(self).history@ == extended(
                old(self).history@,
                old(self).target.value,
                old(self).max_length,
            ),
            final(self).target == old(self).target,
            final(self).max_length == old(self).max_length,
    {
        let value = self.target.value;
        self.history.insert(0, value);
        assert(self.history@ =~= seq![value] + old(self).history@);
        if self.history.len() > self.max_length {
            self.history.pop();
            assert(self.history@ =~= (seq![value] + old(self).history@).drop_last());
        }
    }
}

} // verus!
