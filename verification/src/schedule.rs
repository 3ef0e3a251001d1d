//! Variable recalculation: once per cycle every dependent quantity is marked as not
//! evaluated, and then the quantities are evaluated in waves until none is left or
//! none can be.
use vstd::prelude::*;
use crate::error::VariableError;
use crate::graph::{
    all_ready, all_settled_within, dependents, enabled, lemma_evaluates_to_local,
    lemma_fixpoint, lemma_next_wave, lemma_pending_are_dependents, lemma_settled_monotone,
    pending, progress, ready, same_shape, settled_within, settles, tracks,
};
use crate::lambda::{answers, total, Operation};
use crate::quantity::{ascending, QuantityId};
use crate::list::{Quantity, VariableList};
use crate::variable::Variable;

verus! {

/// The graph with every dependent quantity marked as not evaluated.
pub open spec fn devalued<V: Copy>(graph: Map<QuantityId, Quantity<V>>) -> Map<
    QuantityId,
    Quantity<V>,
> {
    Map::new(
        |id: QuantityId| graph.contains_key(id),
        |id: QuantityId| graph[id].with_variable(graph[id].variable.with_recalculated(false)),
    )
}

/// Marking the dependent quantities as not evaluated leaves the graph and the values
/// as they are, and leaves exactly the dependent quantities to be evaluated.
pub proof fn lemma_devalued<V: Copy>(graph: Map<QuantityId, Quantity<V>>)
    ensures
        same_shape(graph, devalued(graph)),
        pending(devalued(graph)) == dependents(graph),
        forall|id: QuantityId|
            graph.contains_key(id) ==> (#[trigger] devalued(graph)[id]).variable.value()
                == graph[id].variable.value(),
{
    assert(devalued(graph).dom() =~= graph.dom());
    assert(pending(devalued(graph)) =~= dependents(graph));
}

/// Whether `after` holds the quantity `before` evaluated over `context`: the same
/// dependent quantity, marked as evaluated, with a value of its equation.
pub open spec fn resolved<V: Copy>(
    context: Map<QuantityId, Quantity<V>>,
    before: Quantity<V>,
    after: Quantity<V>,
    arithmetic: spec_fn(Operation<V>, V) -> bool,
) -> bool {
    &&& before.variable is Dependent
    &&& after == before.with_variable(
        before.variable.with_recalculated(true).with_value(after.variable.value()),
    )
    &&& before.variable->equation.evaluates_to(context, arithmetic, after.variable.value())
}

/// Whether `after` is what evaluation makes of `before`.
///
/// The quantities and their equations are the same. Ready are exactly the quantities
/// that some number of waves makes ready. What was ready before, or does not become
/// ready, is as it was: so are the independent quantities. Every other quantity holds
/// a value of its equation over the values in `after`.
pub open spec fn evaluated<V: Copy>(
    before: Map<QuantityId, Quantity<V>>,
    after: Map<QuantityId, Quantity<V>>,
    arithmetic: spec_fn(Operation<V>, V) -> bool,
) -> bool {
    &&& same_shape(before, after)
    &&& forall|id: QuantityId| #[trigger]
        before.contains_key(id) ==> {
            &&& ready(after, id) <==> settles(before, id)
            &&& before[id].variable is Independent ==> after[id] == before[id]
            &&& ready(before, id) || !settles(before, id) ==> after[id] == before[id]
            &&& !ready(before, id) && settles(before, id) ==> resolved(
                after,
                before[id],
                after[id],
                arithmetic,
            )
        }
}

/// Whether `outcome` is the report of an evaluation that started from `before`.
///
/// Success is owed exactly when every quantity becomes ready, and comes with the
/// number of the last wave that made a quantity ready. A failure lists the quantities
/// that do not become ready, in the order of their slots, and counts the waves up to
/// the first that made no quantity ready. Either way there are no more waves than
/// there were quantities to evaluate, which are dependent quantities all.
pub open spec fn reports<V: Copy>(
    outcome: Result<usize, VariableError>,
    before: Map<QuantityId, Quantity<V>>,
) -> bool {
    match outcome {
        Ok(waves) => {
            &&& forall|id: QuantityId| before.contains_key(id) ==> settles(before, id)
            &&& all_settled_within(before, waves as nat)
            &&& waves == 0 || progress(before, waves as nat)
            &&& waves <= pending(before).len() <= dependents(before).len()
        },
        Err(error) => {
            &&& error matches VariableError::UnresolvedDependencies { waves, stuck }
            &&& ascending(stuck@)
            &&& stuck@.len() > 0
            &&& forall|id: QuantityId|
                stuck@.contains(id) <==> before.contains_key(id) && !settles(before, id)
            &&& waves >= 1
            &&& !progress(before, waves as nat)
            &&& waves == 1 || progress(before, (waves - 1) as nat)
            &&& waves <= pending(before).len() <= dependents(before).len()
        },
    }
}

/// Marks all variables as "not evaluated yet for the current cycle".
pub fn devaluate_variables<V: Copy>(store: &mut VariableList<V>)
    requires
        old(store).wf(),
    ensures
        final(store).wf(),
        final(store)@ == devalued(old(store)@),
        final(store).retired() == old(store).retired(),
        final(store).sentinel() == old(store).sentinel(),
{
    let ids = store.ids();
    let mut at: usize = 0;
    while at < ids.len()
        invariant
            at <= ids@.len(),
            store.wf(),
            store.retired() == old(store).retired(),
            store.sentinel() == old(store).sentinel(),
            store@.dom() == old(store)@.dom(),
            ascending(ids@),
            forall|id: QuantityId| ids@.contains(id) <==> old(store)@.contains_key(id),
            forall|k: int|
                0 <= k < at ==> store@[#[trigger] ids@[k]] == devalued(old(store)@)[ids@[k]],
            forall|k: int| at <= k < ids@.len() ==> store@[#[trigger] ids@[k]] == old(store)@[ids@[k]],
        decreases ids@.len() - at,
    {
        let id = ids[at];
        assert(ids@.contains(id));
        let ghost before = store@;
        store.mark(&id, false);
        assert(store@.dom() =~= before.dom());
        assert forall|k: int| 0 <= k < ids@.len() && k != at implies store@[#[trigger] ids@[k]]
            == before[ids@[k]] by {
            assert(ids@[k].index != ids@[at as int].index);
        }
        at += 1;
    }
    assert forall|id: QuantityId| store@.contains_key(id) implies store@[id] == devalued(
        old(store)@,
    )[id] by {
        assert(old(store)@.contains_key(id));
        assert(ids@.contains(id));
        let k = choose|k: int| 0 <= k < ids@.len() && ids@[k] == id;
        assert(store@[ids@[k]] == devalued(old(store)@)[ids@[k]]);
    }
    assert(store@ =~= devalued(old(store)@));
}

/// Whether every quantity of `needed` has a value for the current cycle.
fn all_recalculated<V: Copy>(store: &VariableList<V>, needed: &Vec<QuantityId>) -> (yes: bool)
    ensures
        yes == all_ready(store@, needed@),
{
    let mut at: usize = 0;
    while at < needed.len()
        invariant
            at <= needed@.len(),
            forall|k: int| 0 <= k < at ==> ready(store@, #[trigger] needed@[k]),
        decreases needed@.len() - at,
    {
        if !store.is_ready(&needed[at]) {
            assert(!ready(store@, needed@[at as int]));
            return false;
        }
        at += 1;
    }
    true
}

/// The quantities without a value for the current cycle: all of them, or only those
/// that can be evaluated now.
fn unfinished<V: Copy>(store: &VariableList<V>, ids: &Vec<QuantityId>, only_enabled: bool) -> (found:
    Vec<QuantityId>)
    requires
        ascending(ids@),
        forall|id: QuantityId| ids@.contains(id) <==> store@.contains_key(id),
    ensures
        ascending(found@),
        forall|id: QuantityId|
            found@.contains(id) <==> if only_enabled {
                enabled(store@, id)
            } else {
                pending(store@).contains(id)
            },
{
    let mut found: Vec<QuantityId> = Vec::new();
    let mut at: usize = 0;
    while at < ids.len()
        invariant
            at <= ids@.len(),
            ascending(ids@),
            ascending(found@),
            forall|id: QuantityId| ids@.contains(id) <==> store@.contains_key(id),
            forall|j: int, k: int|
                0 <= j < found@.len() && at <= k < ids@.len() ==> found@[j].index < ids@[k].index,
            forall|j: int|
                0 <= j < found@.len() ==> if only_enabled {
                    enabled(store@, #[trigger] found@[j])
                } else {
                    pending(store@).contains(found@[j])
                },
            forall|k: int|
                0 <= k < at && (if only_enabled {
                    enabled(store@, #[trigger] ids@[k])
                } else {
                    pending(store@).contains(ids@[k])
                }) ==> found@.contains(ids@[k]),
        decreases ids@.len() - at,
    {
        let id = ids[at];
        assert(ids@.contains(id));
        let wanted = match store.variable(&id) {
            Some(variable) => {
                if variable.recalculated() {
                    false
                } else if only_enabled {
                    let needed = variable.children();
                    all_recalculated(store, &needed)
                } else {
                    true
                }
            },
            None => false,
        };
        if wanted {
            let ghost earlier = found@;
            found.push(id);
            assert(found@[found@.len() - 1] == id);
            assert forall|k: int|
                0 <= k < at + 1 && (if only_enabled {
                    enabled(store@, #[trigger] ids@[k])
                } else {
                    pending(store@).contains(ids@[k])
                }) implies found@.contains(ids@[k]) by {
                if k < at {
                    assert(earlier.contains(ids@[k]));
                    let j = choose|j: int| 0 <= j < earlier.len() && earlier[j] == ids@[k];
                    assert(found@[j] == ids@[k]);
                }
            }
        }
        at += 1;
    }
    assert forall|id: QuantityId|
        (if only_enabled {
            enabled(store@, id)
        } else {
            pending(store@).contains(id)
        }) implies found@.contains(id) by {
        assert(ids@.contains(id));
        let k = choose|k: int| 0 <= k < ids@.len() && ids@[k] == id;
        assert(found@.contains(ids@[k]));
    }
    found
}

/// Whether `after` is `before` with one wave run on it: every quantity that could be
/// evaluated has been, over the values that `before` held, and nothing else has
/// changed.
pub open spec fn wave_run<V: Copy>(
    before: Map<QuantityId, Quantity<V>>,
    after: Map<QuantityId, Quantity<V>>,
    arithmetic: spec_fn(Operation<V>, V) -> bool,
) -> bool {
    &&& after.dom() == before.dom()
    &&& forall|id: QuantityId| #[trigger]
        before.contains_key(id) ==> if enabled(before, id) {
            resolved(before, before[id], after[id], arithmetic)
        } else {
            after[id] == before[id]
        }
}

/// Whether `now` is `start` after `waves` waves, each of which has made a quantity
/// ready: the marks are those that `waves` waves leave, what was ready at the start or
/// is not ready yet is as it was, and every other quantity holds a value of its
/// equation over the values in `now`.
pub open spec fn on_course<V: Copy>(
    start: Map<QuantityId, Quantity<V>>,
    now: Map<QuantityId, Quantity<V>>,
    waves: nat,
    arithmetic: spec_fn(Operation<V>, V) -> bool,
) -> bool {
    &&& tracks(start, now, waves)
    &&& same_shape(start, now)
    &&& forall|id: QuantityId| #[trigger]
        start.contains_key(id) ==> {
            &&& ready(start, id) || !ready(now, id) ==> now[id] == start[id]
            &&& !ready(start, id) && ready(now, id) ==> resolved(
                now,
                start[id],
                now[id],
                arithmetic,
            )
        }
    &&& waves == 0 || progress(start, waves)
}

/// An evaluation is on course when it starts.
proof fn lemma_course_starts<V: Copy>(
    start: Map<QuantityId, Quantity<V>>,
    arithmetic: spec_fn(Operation<V>, V) -> bool,
)
    ensures
        on_course(start, start, 0, arithmetic),
{
    assert forall|id: QuantityId| #[trigger] start.contains_key(id) implies (ready(start, id)
        <==> settled_within(start, id, 0)) by {}
}

/// A wave that finds something to evaluate keeps the evaluation on course, and leaves
/// fewer quantities to evaluate.
proof fn lemma_wave_keeps_course<V: Copy>(
    start: Map<QuantityId, Quantity<V>>,
    before: Map<QuantityId, Quantity<V>>,
    after: Map<QuantityId, Quantity<V>>,
    waves: nat,
    arithmetic: spec_fn(Operation<V>, V) -> bool,
    first: QuantityId,
)
    requires
        on_course(start, before, waves, arithmetic),
        wave_run(before, after, arithmetic),
        enabled(before, first),
        start.dom().finite(),
    ensures
        on_course(start, after, waves + 1, arithmetic),
        pending(after).len() < pending(before).len(),
{
    assert forall|id: QuantityId| #[trigger] start.contains_key(id) implies {
        &&& start[id].variable.reads() == after[id].variable.reads()
        &&& ready(after, id) <==> settled_within(start, id, waves + 1)
        &&& ready(start, id) || !ready(after, id) ==> after[id] == start[id]
        &&& !ready(start, id) && ready(after, id) ==> resolved(
            after,
            start[id],
            after[id],
            arithmetic,
        )
        &&& after[id].group == start[id].group
        &&& after[id].name == start[id].name
        &&& after[id].variable is Dependent <==> start[id].variable is Dependent
        &&& start[id].variable is Dependent ==> start[id].variable->equation
            == after[id].variable->equation
    } by {
        lemma_next_wave(start, before, waves, id);
        assert(before.contains_key(id));
        if !ready(start, id) && ready(after, id) {
            // Whatever the equation of a resolved quantity reads was ready before the
            // wave, and so the wave has left it alone.
            let equation = start[id].variable->equation;
            assert forall|r: int| 0 <= r < equation.reads().len() implies {
                &&& before.contains_key(#[trigger] equation.reads()[r])
                &&& after.contains_key(equation.reads()[r])
                &&& before[equation.reads()[r]].variable.value()
                    == after[equation.reads()[r]].variable.value()
            } by {
                let read = equation.reads()[r];
                if !enabled(before, id) {
                    assert(settled_within(start, read, (waves - 1) as nat));
                    lemma_settled_monotone(start, read, (waves - 1) as nat, waves);
                    assert(start.contains_key(read));
                }
                assert(ready(before, read));
                assert(before.contains_key(read));
            }
            lemma_evaluates_to_local(
                equation,
                before,
                after,
                arithmetic,
                after[id].variable.value(),
            );
        }
    }
    assert(before.contains_key(first));
    lemma_next_wave(start, before, waves, first);
    assert(!settled_within(start, first, ((waves + 1) as nat - 1) as nat));
    assert(progress(start, waves + 1));
    assert(pending(before).subset_of(start.dom()));
    vstd::set_lib::lemma_len_subset(pending(before), start.dom());
    assert(pending(before).contains(first));
    assert(pending(after).subset_of(pending(before).remove(first)));
    vstd::set_lib::lemma_len_subset(pending(after), pending(before).remove(first));
}

/// When a wave finds nothing to evaluate, the evaluation is over: ready is what ever
/// becomes ready, and a further wave would make no difference.
proof fn lemma_course_ends<V: Copy>(
    start: Map<QuantityId, Quantity<V>>,
    now: Map<QuantityId, Quantity<V>>,
    waves: nat,
    arithmetic: spec_fn(Operation<V>, V) -> bool,
)
    requires
        on_course(start, now, waves, arithmetic),
        forall|id: QuantityId| !enabled(now, id),
    ensures
        evaluated(start, now, arithmetic),
        !progress(start, waves + 1),
        forall|id: QuantityId| ready(now, id) ==> settled_within(start, id, waves),
{
    assert forall|id: QuantityId| #[trigger] start.contains_key(id) implies (ready(now, id)
        <==> settles(start, id)) by {
        if settles(start, id) {
            let later = choose|later: nat| settled_within(start, id, later);
            lemma_fixpoint(start, now, waves, id, later);
        }
    }
    let next = waves + 1;
    assert forall|id: QuantityId| settled_within(start, id, next) implies #[trigger] settled_within(
        start,
        id,
        (next - 1) as nat,
    ) by {
        lemma_fixpoint(start, now, waves, id, next);
    }
    assert forall|id: QuantityId| ready(now, id) implies settled_within(start, id, waves) by {
        assert(start.contains_key(id));
    }
}

/// Evaluates the quantities of one wave over the values that the store held before the
/// wave.
fn run_wave<V: Copy, F: Fn(Operation<V>) -> V>(
    store: &mut VariableList<V>,
    wave: &Vec<QuantityId>,
    compute: &F,
)
    requires
        old(store).wf(),
        total(*compute),
        ascending(wave@),
        forall|id: QuantityId| wave@.contains(id) <==> enabled(old(store)@, id),
    ensures
        final(store).wf(),
        final(store).retired() == old(store).retired(),
        final(store).sentinel() == old(store).sentinel(),
        wave_run(old(store)@, final(store)@, answers(*compute)),
{
    let mut at: usize = 0;
    while at < wave.len()
        invariant
            at <= wave@.len(),
            store.wf(),
            total(*compute),
            ascending(wave@),
            store.retired() == old(store).retired(),
            store.sentinel() == old(store).sentinel(),
            store@.dom() == old(store)@.dom(),
            forall|id: QuantityId| wave@.contains(id) <==> enabled(old(store)@, id),
            forall|id: QuantityId|
                old(store)@.contains_key(id) && (forall|j: int| 0 <= j < at ==> wave@[j] != id)
                    ==> store@[id] == old(store)@[id],
            forall|k: int|
                0 <= k < at ==> resolved(
                    old(store)@,
                    old(store)@[#[trigger] wave@[k]],
                    store@[wave@[k]],
                    answers(*compute),
                ),
        decreases wave@.len() - at,
    {
        let id = wave[at];
        let ghost before = store@;
        proof {
            assert(wave@.contains(id));
            assert(forall|j: int| 0 <= j < at ==> wave@[j].index != id.index);
            // What the quantity reads was ready before the wave, so it is there, and
            // is none of the quantities that the wave has evaluated so far.
            let equation = old(store)@[id].variable->equation;
            assert forall|r: int| 0 <= r < equation.reads().len() implies {
                &&& before.contains_key(#[trigger] equation.reads()[r])
                &&& old(store)@.contains_key(equation.reads()[r])
                &&& before[equation.reads()[r]].variable.value() == old(
                    store,
                )@[equation.reads()[r]].variable.value()
            } by {
                let read = equation.reads()[r];
                assert(ready(old(store)@, read));
                assert forall|j: int| 0 <= j < at implies wave@[j] != read by {
                    assert(wave@.contains(wave@[j]));
                }
            }
        }
        let outcome = match store.variable(&id) {
            Some(Variable::Dependent { equation, .. }) => Some(equation.get(store, compute)),
            _ => None,
        };
        if let Some(Ok(value)) = outcome {
            proof {
                lemma_evaluates_to_local(
                    old(store)@[id].variable->equation,
                    before,
                    old(store)@,
                    answers(*compute),
                    value,
                );
            }
            store.mark(&id, true);
            store.write_value(&id, value);
            proof {
                assert(store@.dom() =~= old(store)@.dom());
                assert forall|k: int| 0 <= k < at + 1 implies resolved(
                    old(store)@,
                    old(store)@[#[trigger] wave@[k]],
                    store@[wave@[k]],
                    answers(*compute),
                ) by {
                    if k < at {
                        assert(wave@[k].index != id.index);
                        assert(store@[wave@[k]] == before[wave@[k]]);
                    }
                }
            }
        }
        at += 1;
    }
    assert forall|id: QuantityId| #[trigger] old(store)@.contains_key(id) implies if enabled(
        old(store)@,
        id,
    ) {
        resolved(old(store)@, old(store)@[id], store@[id], answers(*compute))
    } else {
        store@[id] == old(store)@[id]
    } by {
        if enabled(old(store)@, id) {
            assert(wave@.contains(id));
            let k = choose|k: int| 0 <= k < wave@.len() && wave@[k] == id;
            assert(resolved(old(store)@, old(store)@[wave@[k]], store@[wave@[k]], answers(*compute)));
        } else {
            assert(forall|j: int| 0 <= j < wave@.len() ==> wave@[j] != id) by {
                assert forall|j: int| 0 <= j < wave@.len() implies wave@[j] != id by {
                    assert(wave@.contains(wave@[j]));
                }
            }
        }
    }
}

/// Keep evaluating variables until they all have a value for the current cycle, or
/// until none of the others can be evaluated.
///
/// Evaluation proceeds in waves. A wave evaluates every quantity that is not ready
/// and whose equation reads only quantities that were ready before the wave. The
/// waves end when all quantities are ready, which is success, or with a wave that
/// finds nothing to evaluate: the quantities left over lie on a cycle or read a
/// quantity that the store does not hold, and keep the values they had.
///
/// On success the result is the number of waves that were run. On failure the error
/// lists the quantities that are not ready, in the order of their slots, and counts the
/// waves including the last, idle one.
pub fn evaluate_variables<V: Copy, F: Fn(Operation<V>) -> V>(
    store: &mut VariableList<V>,
    compute: &F,
) -> (outcome: Result<usize, VariableError>)
    requires
        old(store).wf(),
        total(*compute),
    ensures
        final(store).wf(),
        final(store).retired() == old(store).retired(),
        final(store).sentinel() == old(store).sentinel(),
        evaluated(old(store)@, final(store)@, answers(*compute)),
        reports(outcome, old(store)@),
{
    let ghost start = store@;
    let ids = store.ids();
    let bound = ids.len();
    let mut waves: usize = 0;
    let mut wave = unfinished(store, &ids, true);
    proof {
        lemma_course_starts(start, answers(*compute));
        store.lemma_finite();
        assert(ids@.to_set() =~= start.dom());
        ids@.lemma_cardinality_of_set();
        lemma_pending_are_dependents(start);
        assert(dependents(start).subset_of(start.dom()));
        vstd::set_lib::lemma_len_subset(dependents(start), start.dom());
    }
    while wave.len() > 0
        invariant
            store.wf(),
            total(*compute),
            store.retired() == old(store).retired(),
            store.sentinel() == old(store).sentinel(),
            start == old(store)@,
            start.dom().finite(),
            ascending(ids@),
            forall|id: QuantityId| ids@.contains(id) <==> store@.contains_key(id),
            ascending(wave@),
            forall|id: QuantityId| wave@.contains(id) <==> enabled(store@, id),
            on_course(start, store@, waves as nat, answers(*compute)),
            waves + pending(store@).len() <= pending(start).len(),
            pending(start).len() <= dependents(start).len() <= bound,
        decreases pending(store@).len(),
    {
        let ghost before = store@;
        run_wave(store, &wave, compute);
        proof {
            assert(wave@.contains(wave@[0]));
            lemma_wave_keeps_course(
                start,
                before,
                store@,
                waves as nat,
                answers(*compute),
                wave@[0],
            );
        }
        waves = waves + 1;
        wave = unfinished(store, &ids, true);
    }
    let stuck = unfinished(store, &ids, false);
    proof {
        assert forall|id: QuantityId| !enabled(store@, id) by {
            assert(!wave@.contains(id));
        }
        lemma_course_ends(start, store@, waves as nat, answers(*compute));
        if stuck@.len() > 0 {
            assert(stuck@.contains(stuck@[0]));
            assert(pending(store@).contains(stuck@[0]));
            assert(pending(store@).subset_of(start.dom()));
            vstd::set_lib::lemma_len_subset(pending(store@), start.dom());
            assert(pending(store@).len() > 0);
        } else {
            assert forall|id: QuantityId| start.contains_key(id) implies settled_within(
                start,
                id,
                waves as nat,
            ) by {
                if !ready(store@, id) {
                    assert(pending(store@).contains(id));
                    assert(stuck@.contains(id));
                }
            }
        }
    }
    if stuck.len() == 0 {
        Ok(waves)
    } else {
        Err(VariableError::UnresolvedDependencies { waves: waves + 1, stuck })
    }
}

/// One cycle of the scheduler: marks every dependent quantity as not evaluated, then
/// evaluates all that can be.
///
/// Independent quantities keep their values. A dependent quantity that can be
/// evaluated gets a value of its equation over the values of this cycle; one that
/// cannot keeps the value of an earlier cycle and is left marked as not evaluated.
pub fn evaluate<V: Copy, F: Fn(Operation<V>) -> V>(store: &mut VariableList<V>, compute: &F) -> (outcome:
    Result<usize, VariableError>)
    requires
        old(store).wf(),
        total(*compute),
    ensures
        final(store).wf(),
        final(store).retired() == old(store).retired(),
        final(store).sentinel() == old(store).sentinel(),
        evaluated(devalued(old(store)@), final(store)@, answers(*compute)),
        reports(outcome, devalued(old(store)@)),
{
    devaluate_variables(store);
    evaluate_variables(store, compute)
}

} // verus!
