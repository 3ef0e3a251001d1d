//! The list of all variables: the store that holds every quantity, under a handle that
//! is never given out twice.
use vstd::prelude::*;
use crate::error::VariableError;
use crate::group::Group;
use crate::quantity::{ascending, QuantityId};
use crate::variable::Variable;

verus! {

/// What the store holds of one quantity.
pub struct Quantity<V> {
    pub variable: Variable<V>,
    pub group: Group,
    pub name: Seq<char>,
}

impl<V> Quantity<V> {
    /// The same record holding another state of its quantity.
    pub open spec fn with_variable(self, variable: Variable<V>) -> Self {
        Quantity { variable, group: self.group, name: self.name }
    }
}

struct Entry<V> {
    variable: Variable<V>,
    group: Group,
    name: String,
}

struct Slot<V> {
    /// The generation of the latest handle given out for this slot.
    generation: u64,
    entry: Option<Entry<V>>,
}

/// The variable store: an arena of quantities.
///
/// Seen from outside, the store is a finite map from the handles of its quantities to
/// what it holds of each, a set of retired handles whose quantities have been removed,
/// and the sentinel value that a dependent quantity holds until it is first evaluated.
pub struct VariableList<V> {
    slots: Vec<Slot<V>>,
    /// The vacant slots that can be given out again.
    free: Vec<usize>,
    sentinel: V,
}

impl<V: Copy> View for VariableList<V> {
    type V = Map<QuantityId, Quantity<V>>;

    closed spec fn view(&self) -> Map<QuantityId, Quantity<V>> {
        Map::new(|id: QuantityId| self.holds(id), |id: QuantityId| self.record(id.index as int))
    }
}

impl<V: Copy> VariableList<V> {
    spec fn holds(&self, id: QuantityId) -> bool {
        &&& id.index < self.slots@.len()
        &&& self.slots@[id.index as int].generation == id.generation
        &&& self.slots@[id.index as int].entry is Some
    }

    spec fn record(&self, index: int) -> Quantity<V> {
        let entry = self.slots@[index].entry->0;
        Quantity { variable: entry.variable, group: entry.group, name: entry.name@ }
    }

    spec fn reusable(&self, index: usize) -> bool {
        &&& index < self.slots@.len()
        &&& self.slots@[index as int].entry is None
        &&& self.slots@[index as int].generation < u64::MAX
    }

    /// The handles that were valid once and whose quantities have been removed. None
    /// of them is ever valid again.
    pub closed spec fn retired(&self) -> Set<QuantityId> {
        Set::new(
            |id: QuantityId|
                {
                    &&& id.index < self.slots@.len()
                    &&& id.generation <= self.slots@[id.index as int].generation
                    &&& !self.holds(id)
                },
        )
    }

    /// Whether this store is `before` with one quantity more, under a handle that no
    /// quantity has had before. While no quantity has been removed, the handles are
    /// numbered in the order of creation, from 0, and are of generation 0.
    pub open spec fn extends(&self, before: &Self, id: QuantityId, quantity: Quantity<V>) -> bool {
        &&& self.wf()
        &&& !before@.contains_key(id)
        &&& !before.retired().contains(id)
        &&& before.retired() == Set::<QuantityId>::empty() ==> id.index == before@.len()
            && id.generation == 0
        &&& self@ == before@.insert(id, quantity)
        &&& self.retired() == before.retired()
        &&& self.sentinel() == before.sentinel()
    }

    /// The quantities of one group.
    pub open spec fn members(&self, group: Group) -> Set<QuantityId> {
        Set::new(|id: QuantityId| self@.contains_key(id) && self@[id].group == group)
    }

    /// Whether the handle names a quantity of the given group and name.
    pub open spec fn is_named(&self, id: QuantityId, group: Group, name: Seq<char>) -> bool {
        &&& self@.contains_key(id)
        &&& self@[id].group == group
        &&& self@[id].name == name
    }

    /// Whether `id` is the one quantity of the given group and name.
    pub open spec fn is_only(&self, id: QuantityId, group: Group, name: Seq<char>) -> bool {
        &&& self.is_named(id, group, name)
        &&& forall|other: QuantityId| self.is_named(other, group, name) ==> other == id
    }

    /// Whether the group holds no quantity of the given name, or more than one.
    pub open spec fn none_or_several(&self, group: Group, name: Seq<char>) -> bool {
        ||| forall|id: QuantityId| !self.is_named(id, group, name)
        ||| exists|a: QuantityId, b: QuantityId|
            a != b && self.is_named(a, group, name) && self.is_named(b, group, name)
    }

    /// Whether some quantity belongs to the group.
    pub open spec fn group_in_use(&self, group: Group) -> bool {
        exists|id: QuantityId| self@.contains_key(id) && #[trigger] self@[id].group == group
    }

    spec fn holds_below(&self, bound: int) -> Set<QuantityId> {
        Set::new(|id: QuantityId| self.holds(id) && id.index < bound)
    }

    proof fn lemma_holds_below_finite(&self, bound: int)
        requires
            0 <= bound <= self.slots@.len(),
        ensures
            self.holds_below(bound).finite(),
        decreases bound,
    {
        if bound == 0 {
            assert(self.holds_below(0) =~= Set::<QuantityId>::empty());
        } else {
            self.lemma_holds_below_finite(bound - 1);
            if exists|id: QuantityId| self.holds(id) && id.index == bound - 1 {
                let id = choose|id: QuantityId| self.holds(id) && id.index == bound - 1;
                assert(self.holds_below(bound) =~= self.holds_below(bound - 1).insert(id));
            } else {
                assert(self.holds_below(bound) =~= self.holds_below(bound - 1));
            }
        }
    }

    proof fn lemma_holds_below_full(&self, bound: usize)
        requires
            bound <= self.slots@.len(),
            self.retired() == Set::<QuantityId>::empty(),
        ensures
            self.holds_below(bound as int).finite(),
            self.holds_below(bound as int).len() == bound,
        decreases bound,
    {
        if bound == 0 {
            assert(self.holds_below(0) =~= Set::<QuantityId>::empty());
        } else {
            let last = (bound - 1) as usize;
            self.lemma_holds_below_full(last);
            let id = QuantityId { index: last, generation: self.slots@[last as int].generation };
            if !self.holds(id) {
                assert(self.retired().contains(id));
            }
            assert(self.holds_below(bound as int) =~= self.holds_below(last as int).insert(id));
        }
    }

    /// While no quantity has been removed, every slot is taken and none is kept for
    /// reuse.
    proof fn lemma_nothing_retired(&self)
        requires
            self.wf(),
            self.retired() == Set::<QuantityId>::empty(),
        ensures
            self.free@.len() == 0,
            self@.dom().finite(),
            self@.len() == self.slots@.len(),
    {
        if self.free@.len() > 0 {
            let index = self.free@[0];
            assert(self.reusable(index));
            let id = QuantityId { index, generation: self.slots@[index as int].generation };
            assert(self.retired().contains(id));
        }
        assert(self.slots@.len() == self.slots.len());
        self.lemma_holds_below_full(self.slots.len());
        assert(self@.dom() =~= self.holds_below(self.slots@.len() as int));
    }

    /// The store holds finitely many quantities.
    pub proof fn lemma_finite(&self)
        ensures
            self@.dom().finite(),
    {
        self.lemma_holds_below_finite(self.slots@.len() as int);
        assert(self@.dom() =~= self.holds_below(self.slots@.len() as int));
    }

    /// A retired handle names no quantity.
    pub proof fn law_retired_handles_are_unknown(&self)
        ensures
            forall|id: QuantityId| self.retired().contains(id) ==> !self@.contains_key(id),
    {
    }

    /// The value that a dependent quantity holds before its first evaluation.
    pub closed spec fn spec_sentinel(&self) -> V {
        self.sentinel
    }

    /// The store's internal invariant: the slots kept for reuse are vacant, can still
    /// take a new generation, and are listed once each.
    pub closed spec fn wf(&self) -> bool {
        &&& forall|k: int| 0 <= k < self.free@.len() ==> self.reusable(#[trigger] self.free@[k])
        &&& forall|j: int, k: int|
            0 <= j < k < self.free@.len() ==> self.free@[j] != self.free@[k]
    }

    /// An empty store whose dependent quantities start out with `sentinel`.
    pub fn new(sentinel: V) -> (store: Self)
        ensures
            store.wf(),
            store@ == Map::<QuantityId, Quantity<V>>::empty(),
            store.retired() == Set::<QuantityId>::empty(),
            store.sentinel() == sentinel,
    {
        let store = VariableList { slots: Vec::new(), free: Vec::new(), sentinel };
        assert(store@ =~= Map::<QuantityId, Quantity<V>>::empty());
        assert(store.retired() =~= Set::<QuantityId>::empty());
        store
    }

    /// The value that a dependent quantity holds before its first evaluation.
    #[verifier::when_used_as_spec(spec_sentinel)]
    pub fn sentinel(&self) -> (value: V)
        ensures
            value == self.spec_sentinel(),
    {
        self.sentinel
    }

    /// Takes a quantity into the store and gives it a handle that no quantity has had
    /// before.
    ///
    /// While no quantity has been removed from the store, the handles are numbered in
    /// the order of creation, from 0, and are of generation 0.
    pub fn insert(&mut self, group: &Group, name: &str, variable: Variable<V>) -> (id: QuantityId)
        requires
            old(self).wf(),
        ensures
            final(self).extends(
                old(self),
                id,
                Quantity { variable, group: *group, name: name@ },
            ),
    {
        proof {
            if self.retired() == Set::<QuantityId>::empty() {
                self.lemma_nothing_retired();
            }
        }
        let entry = Entry { variable, group: *group, name: name.to_owned() };
        if self.free.len() > 0 {
            let index = self.free.pop().unwrap();
            assert(old(self).reusable(index));
            let generation = self.slots[index].generation + 1;
            self.slots.set(index, Slot { generation, entry: Some(entry) });
            let id = QuantityId { index, generation };
            assert(self@ =~= old(self)@.insert(
                id,
                Quantity { variable, group: *group, name: name@ },
            ));
            assert(self.retired() =~= old(self).retired());
            id
        } else {
            let index = self.slots.len();
            self.slots.push(Slot { generation: 0, entry: Some(entry) });
            let id = QuantityId { index, generation: 0 };
            assert(self@ =~= old(self)@.insert(
                id,
                Quantity { variable, group: *group, name: name@ },
            ));
            assert(self.retired() =~= old(self).retired());
            id
        }
    }

    /// Whether the handle names a quantity of the store.
    pub fn contains(&self, id: &QuantityId) -> (known: bool)
        ensures
            known == self@.contains_key(*id),
    {
        id.index < self.slots.len() && self.slots[id.index].generation == id.generation
            && self.slots[id.index].entry.is_some()
    }

    /// The quantity that the handle names, if it names one.
    pub fn variable(&self, id: &QuantityId) -> (found: Option<&Variable<V>>)
        ensures
            match found {
                Some(variable) => self@.contains_key(*id) && *variable == self@[*id].variable,
                None => !self@.contains_key(*id),
            },
    {
        if id.index < self.slots.len() && self.slots[id.index].generation == id.generation {
            match &self.slots[id.index].entry {
                Some(entry) => Some(&entry.variable),
                None => None,
            }
        } else {
            None
        }
    }

    /// The group that the quantity was created in, if the handle names one.
    pub fn group_of(&self, id: &QuantityId) -> (found: Option<Group>)
        ensures
            match found {
                Some(group) => self@.contains_key(*id) && group == self@[*id].group,
                None => !self@.contains_key(*id),
            },
    {
        if id.index < self.slots.len() && self.slots[id.index].generation == id.generation {
            match &self.slots[id.index].entry {
                Some(entry) => Some(entry.group),
                None => None,
            }
        } else {
            None
        }
    }

    /// The name that the quantity was created with, if the handle names one.
    pub fn name_of(&self, id: &QuantityId) -> (found: Option<String>)
        ensures
            match found {
                Some(name) => self@.contains_key(*id) && name@ == self@[*id].name,
                None => !self@.contains_key(*id),
            },
    {
        if id.index < self.slots.len() && self.slots[id.index].generation == id.generation {
            match &self.slots[id.index].entry {
                Some(entry) => Some(entry.name.clone()),
                None => None,
            }
        } else {
            None
        }
    }

    /// The current value of a quantity, whether or not it has been evaluated in this
    /// cycle.
    pub fn get_value(&self, key: &QuantityId) -> (found: Result<V, VariableError>)
        ensures
            match found {
                Ok(value) => self@.contains_key(*key) && value == self@[*key].variable.value(),
                Err(error) => !self@.contains_key(*key) && error
                    == VariableError::UnknownQuantity(*key),
            },
    {
        match self.variable(key) {
            Some(variable) => Ok(variable.value()),
            None => Err(VariableError::UnknownQuantity(*key)),
        }
    }

    /// Whether the quantity has a value for the current cycle. A handle that names no
    /// quantity is never ready.
    pub fn is_ready(&self, id: &QuantityId) -> (ready: bool)
        ensures
            ready == (self@.contains_key(*id) && self@[*id].variable.recalculated()),
    {
        match self.variable(id) {
            Some(variable) => variable.recalculated(),
            None => false,
        }
    }

    /// Overwrites the value of a quantity, whatever its kind.
    pub(crate) fn write_value(&mut self, id: &QuantityId, value: V)
        requires
            old(self).wf(),
            old(self)@.contains_key(*id),
        ensures
            final(self).wf(),
            final(self)@ == old(self)@.insert(
                *id,
                old(self)@[*id].with_variable(old(self)@[*id].variable.with_value(value)),
            ),
            final(self).retired() == old(self).retired(),
            final(self).sentinel() == old(self).sentinel(),
    {
        match &mut self.slots[id.index].entry {
            Some(entry) => {
                entry.variable.set_value(value);
            },
            None => {},
        }
        assert(self@ =~= old(self)@.insert(
            *id,
            old(self)@[*id].with_variable(old(self)@[*id].variable.with_value(value)),
        ));
        assert(self.retired() =~= old(self).retired());
    }

    /// Marks a dependent quantity as evaluated in this cycle or not.
    pub(crate) fn mark(&mut self, id: &QuantityId, is_recalculated: bool)
        requires
            old(self).wf(),
            old(self)@.contains_key(*id),
        ensures
            final(self).wf(),
            final(self)@ == old(self)@.insert(
                *id,
                old(self)@[*id].with_variable(
                    old(self)@[*id].variable.with_recalculated(is_recalculated),
                ),
            ),
            final(self).retired() == old(self).retired(),
            final(self).sentinel() == old(self).sentinel(),
    {
        match &mut self.slots[id.index].entry {
            Some(entry) => {
                entry.variable.set_recalculated(is_recalculated);
            },
            None => {},
        }
        assert(self@ =~= old(self)@.insert(
            *id,
            old(self)@[*id].with_variable(
                old(self)@[*id].variable.with_recalculated(is_recalculated),
            ),
        ));
        assert(self.retired() =~= old(self).retired());
    }

    /// Supplies a new value for an independent quantity.
    ///
    /// A dependent quantity is computed, not set: a write to one is refused and leaves
    /// the store as it was.
    pub fn set_value(&mut self, id: &QuantityId, value: V) -> (done: Result<(), VariableError>)
        requires
            old(self).wf(),
        ensures
            final(self).wf(),
            final(self).retired() == old(self).retired(),
            final(self).sentinel() == old(self).sentinel(),
            match done {
                Ok(_) => {
                    &&& old(self)@.contains_key(*id)
                    &&& old(self)@[*id].variable is Independent
                    &&& final(self)@ == old(self)@.insert(
                        *id,
                        old(self)@[*id].with_variable(Variable::Independent { value }),
                    )
                },
                Err(error) => {
                    &&& final(self)@ == old(self)@
                    &&& error == if old(self)@.contains_key(*id) {
                        VariableError::DependentQuantity(*id)
                    } else {
                        VariableError::UnknownQuantity(*id)
                    }
                    &&& old(self)@.contains_key(*id) ==> old(self)@[*id].variable is Dependent
                },
            },
    {
        match self.variable(id) {
            Some(Variable::Independent { .. }) => {},
            Some(Variable::Dependent { .. }) => {
                return Err(VariableError::DependentQuantity(*id));
            },
            None => {
                return Err(VariableError::UnknownQuantity(*id));
            },
        }
        self.write_value(id, value);
        Ok(())
    }

    /// The handles of all quantities, in the order of their slots.
    pub fn ids(&self) -> (all: Vec<QuantityId>)
        ensures
            forall|id: QuantityId| all@.contains(id) <==> self@.contains_key(id),
            ascending(all@),
    {
        let mut all: Vec<QuantityId> = Vec::new();
        let mut index: usize = 0;
        while index < self.slots.len()
            invariant
                index <= self.slots@.len(),
                forall|id: QuantityId|
                    all@.contains(id) <==> (self@.contains_key(id) && id.index < index),
                forall|i: int, j: int| 0 <= i < j < all@.len() ==> all@[i].index < all@[j].index,
                forall|i: int| 0 <= i < all@.len() ==> (#[trigger] all@[i]).index < index,
            decreases self.slots@.len() - index,
        {
            let ghost before = all@;
            if self.slots[index].entry.is_some() {
                let id = QuantityId { index, generation: self.slots[index].generation };
                all.push(id);
                assert(all@[all@.len() - 1] == id);
                assert forall|other: QuantityId| all@.contains(other) implies self@.contains_key(
                    other,
                ) && other.index < index + 1 by {
                    let i = choose|i: int| 0 <= i < all@.len() && all@[i] == other;
                    if i < before.len() {
                        assert(before[i] == other);
                        assert(before.contains(other));
                    }
                }
                assert forall|other: QuantityId|
                    self@.contains_key(other) && other.index < index + 1 implies all@.contains(
                    other,
                ) by {
                    if other.index < index {
                        assert(before.contains(other));
                        let i = choose|i: int| 0 <= i < before.len() && before[i] == other;
                        assert(all@[i] == other);
                    } else {
                        assert(other == id);
                    }
                }
            } else {
                assert forall|other: QuantityId|
                    self@.contains_key(other) && other.index < index + 1 implies all@.contains(
                    other,
                ) by {
                    assert(other.index != index);
                }
            }
            index += 1;
        }
        all
    }

    /// Removes every quantity of a group. Their handles are retired; quantities of
    /// other groups that read them can no longer be evaluated.
    pub fn remove_group(&mut self, group: &Group)
        requires
            old(self).wf(),
        ensures
            final(self).wf(),
            final(self)@ == old(self)@.remove_keys(old(self).members(*group)),
            final(self).retired() == old(self).retired().union(old(self).members(*group)),
            final(self).sentinel() == old(self).sentinel(),
    {
        let mut index: usize = 0;
        while index < self.slots.len()
            invariant
                index <= self.slots@.len(),
                self.slots@.len() == old(self).slots@.len(),
                self.sentinel == old(self).sentinel,
                forall|i: int|
                    index <= i < self.slots@.len() ==> self.slots@[i] == old(self).slots@[i],
                forall|i: int|
                    0 <= i < index ==> (#[trigger] self.slots@[i]).generation == old(
                        self,
                    ).slots@[i].generation,
                forall|i: int|
                    0 <= i < index ==> (#[trigger] self.slots@[i]).entry == if old(
                        self,
                    ).slots@[i].entry is Some && old(self).slots@[i].entry->0.group == *group {
                        None
                    } else {
                        old(self).slots@[i].entry
                    },
                forall|k: int|
                    0 <= k < self.free@.len() ==> self.reusable(#[trigger] self.free@[k]) && (old(
                        self,
                    ).reusable(self.free@[k]) || self.free@[k] < index),
                forall|j: int, k: int|
                    0 <= j < k < self.free@.len() ==> self.free@[j] != self.free@[k],
            decreases self.slots@.len() - index,
        {
            let matched = match &self.slots[index].entry {
                Some(entry) => entry.group.0 == group.0,
                None => false,
            };
            if matched {
                let generation = self.slots[index].generation;
                let ghost free_before = self.free@;
                let ghost before = *self;
                self.slots.set(index, Slot { generation, entry: None });
                assert forall|k: int| 0 <= k < self.free@.len() implies self.reusable(
                    #[trigger] self.free@[k],
                ) by {
                    assert(before.reusable(self.free@[k]));
                }
                if generation < u64::MAX {
                    self.free.push(index);
                    assert forall|k: int| 0 <= k < self.free@.len() implies self.reusable(
                        #[trigger] self.free@[k],
                    ) && (old(self).reusable(self.free@[k]) || self.free@[k] < index + 1) by {
                        if k < free_before.len() {
                            assert(self.free@[k] == free_before[k]);
                            assert(before.reusable(free_before[k]));
                        }
                    }
                    assert forall|j: int, k: int| 0 <= j < k < self.free@.len() implies self.free@[j]
                        != self.free@[k] by {
                        if k == free_before.len() {
                            assert(before.reusable(free_before[j]));
                        }
                    }
                }
            }
            index += 1;
        }
        assert(self@ =~= old(self)@.remove_keys(old(self).members(*group)));
        assert(self.retired() =~= old(self).retired().union(old(self).members(*group)));
    }

    /// Finds the one quantity of a group that carries the given name, by which the
    /// application knows the part that the quantity plays in its group.
    ///
    /// It is the caller's business to keep names unique within a group: with no
    /// quantity of that name in the group, or with several, the search fails.
    pub fn get_entity(&self, group: &Group, name: &str) -> (found: Result<QuantityId, VariableError>)
        ensures
            match found {
                Ok(id) => self.is_only(id, *group, name@),
                Err(error) => error == VariableError::AmbiguousOrMissingRoleMatch
                    && self.none_or_several(*group, name@),
            },
    {
        let wanted = name.to_owned();
        let mut only: Option<QuantityId> = None;
        let mut index: usize = 0;
        while index < self.slots.len()
            invariant
                index <= self.slots@.len(),
                wanted@ == name@,
                match only {
                    Some(id) => {
                        &&& id.index < index
                        &&& self.is_named(id, *group, name@)
                        &&& forall|other: QuantityId|
                            self.is_named(other, *group, name@) && other.index < index ==> other
                                == id
                    },
                    None => forall|other: QuantityId|
                        self.is_named(other, *group, name@) ==> other.index >= index,
                },
            decreases self.slots@.len() - index,
        {
            let matched = match &self.slots[index].entry {
                Some(entry) => entry.group.0 == group.0 && entry.name == wanted,
                None => false,
            };
            if matched {
                let id = QuantityId { index, generation: self.slots[index].generation };
                assert(self.is_named(id, *group, name@));
                match only {
                    Some(earlier) => {
                        assert(earlier != id);
                        return Err(VariableError::AmbiguousOrMissingRoleMatch);
                    },
                    None => {
                        only = Some(id);
                    },
                }
            }
            index += 1;
        }
        match only {
            Some(id) => Ok(id),
            None => Err(VariableError::AmbiguousOrMissingRoleMatch),
        }
    }

    /// The current value of the one quantity of a group that carries the given name.
    pub fn get(&self, group: &Group, name: &str) -> (found: Result<V, VariableError>)
        ensures
            match found {
                Ok(value) => exists|id: QuantityId|
                    self.is_only(id, *group, name@) && value == self@[id].variable.value(),
                Err(error) => error == VariableError::AmbiguousOrMissingRoleMatch
                    && self.none_or_several(*group, name@),
            },
    {
        match self.get_entity(group, name) {
            Ok(id) => self.get_value(&id),
            Err(error) => Err(error),
        }
    }

    /// Supplies a new value for the one quantity of a group that carries the given
    /// name, which must be an independent one.
    pub fn set(&mut self, group: &Group, name: &str, value: V) -> (done: Result<(), VariableError>)
        requires
            old(self).wf(),
        ensures
            final(self).wf(),
            final(self).retired() == old(self).retired(),
            final(self).sentinel() == old(self).sentinel(),
            match done {
                Ok(_) => exists|id: QuantityId|
                    {
                        &&& old(self).is_only(id, *group, name@)
                        &&& old(self)@[id].variable is Independent
                        &&& final(self)@ == old(self)@.insert(
                            id,
                            old(self)@[id].with_variable(Variable::Independent { value }),
                        )
                    },
                Err(error) => {
                    &&& final(self)@ == old(self)@
                    &&& match error {
                        VariableError::AmbiguousOrMissingRoleMatch => old(self).none_or_several(
                            *group,
                            name@,
                        ),
                        VariableError::DependentQuantity(id) => old(self).is_only(id, *group, name@)
                            && old(self)@[id].variable is Dependent,
                        _ => false,
                    }
                },
            },
    {
        match self.get_entity(group, name) {
            Ok(id) => self.set_value(&id, value),
            Err(error) => Err(error),
        }
    }

    /// Whether some quantity belongs to the group.
    pub fn uses_group(&self, group: &Group) -> (used: bool)
        ensures
            used == self.group_in_use(*group),
    {
        let mut index: usize = 0;
        while index < self.slots.len()
            invariant
                index <= self.slots@.len(),
                forall|id: QuantityId|
                    self@.contains_key(id) && self@[id].group == *group ==> id.index >= index,
            decreases self.slots@.len() - index,
        {
            let matched = match &self.slots[index].entry {
                Some(entry) => entry.group.0 == group.0,
                None => false,
            };
            if matched {
                let ghost id = QuantityId { index, generation: self.slots@[index as int].generation };
                assert(self@.contains_key(id) && self@[id].group == *group);
                return true;
            }
            index += 1;
        }
        false
    }

    /// The first group from number `from` upwards to which no quantity belongs, for a
    /// new instance of an equation template. There is none only if every number from
    /// `from` upwards is taken.
    pub fn unused_group(&self, from: usize) -> (found: Option<Group>)
        ensures
            match found {
                Some(group) => {
                    &&& from <= group.0
                    &&& !self.group_in_use(group)
                    &&& forall|number: usize|
                        from <= number < group.0 ==> self.group_in_use(Group(number))
                },
                None => forall|number: usize| from <= number ==> self.group_in_use(Group(number)),
            },
    {
        let mut candidate = from;
        loop
            invariant
                from <= candidate,
                forall|number: usize| from <= number < candidate ==> self.group_in_use(Group(number)),
            decreases usize::MAX - candidate,
        {
            if !self.uses_group(&Group(candidate)) {
                return Some(Group(candidate));
            }
            if candidate == usize::MAX {
                return None;
            }
            candidate += 1;
        }
    }
}

} // verus!
