//! Laws of evaluation: what holds of every store and every run of the scheduler.
use vstd::prelude::*;
use crate::error::VariableError;
use crate::graph::{
    agree_on, dependents, deterministic, lemma_evaluates_to_local, lemma_evaluates_to_unique,
    lemma_settled_monotone, pending, ready, same_shape, settled_within, settles,
};
use crate::group::Group;
use crate::lambda::Operation;
use crate::quantity::QuantityId;
use crate::schedule::{devalued, evaluated, lemma_devalued, reports, resolved};
use crate::list::Quantity;

verus! {

/// Whether `rank` orders the graph: every quantity reads only quantities of the graph,
/// and only ones of lower rank.
pub open spec fn ranked<V: Copy>(
    graph: Map<QuantityId, Quantity<V>>,
    rank: spec_fn(QuantityId) -> nat,
) -> bool {
    forall|id: QuantityId, at: int|
        graph.contains_key(id) && 0 <= at < graph[id].variable.reads().len() ==> {
            &&& graph.contains_key(#[trigger] graph[id].variable.reads()[at])
            &&& rank(graph[id].variable.reads()[at]) < rank(id)
        }
}

/// Whether the graph has no cycle and no reference to a quantity outside it.
pub open spec fn acyclic<V: Copy>(graph: Map<QuantityId, Quantity<V>>) -> bool {
    exists|rank: spec_fn(QuantityId) -> nat| ranked(graph, rank)
}

/// Whether the quantities of `cycle` are not ready and read each other in a circle:
/// each reads the next, and the last reads the first.
pub open spec fn is_cycle<V: Copy>(
    graph: Map<QuantityId, Quantity<V>>,
    cycle: Seq<QuantityId>,
) -> bool {
    &&& cycle.len() > 0
    &&& forall|at: int|
        0 <= at < cycle.len() ==> {
            &&& graph.contains_key(#[trigger] cycle[at])
            &&& !graph[cycle[at]].variable.recalculated()
            &&& graph[cycle[at]].variable.reads().contains(
                if at + 1 < cycle.len() {
                    cycle[at + 1]
                } else {
                    cycle[0]
                },
            )
        }
}

/// Whether `to` is `from` itself or can be reached from it in at most `steps` steps,
/// each from a quantity to one that it reads.
pub open spec fn reaches<V: Copy>(
    graph: Map<QuantityId, Quantity<V>>,
    from: QuantityId,
    to: QuantityId,
    steps: nat,
) -> bool
    decreases steps,
{
    ||| from == to
    ||| steps > 0 && graph.contains_key(from) && exists|at: int|
        0 <= at < graph[from].variable.reads().len() && reaches(
            graph,
            #[trigger] graph[from].variable.reads()[at],
            to,
            (steps - 1) as nat,
        )
}

/// Whether the value of `id` may depend on `on`: `on` is `id` itself, or `id` reads it
/// directly or through other quantities.
pub open spec fn depends_on<V: Copy>(
    graph: Map<QuantityId, Quantity<V>>,
    id: QuantityId,
    on: QuantityId,
) -> bool {
    exists|steps: nat| reaches(graph, id, on, steps)
}

/// Whether `b` holds the quantity `id` as `a` does, as far as evaluation can tell
/// before it starts: with the same equation and the same mark, and with the same
/// value where the quantity is ready.
pub open spec fn alike_at<V: Copy>(
    a: Map<QuantityId, Quantity<V>>,
    b: Map<QuantityId, Quantity<V>>,
    id: QuantityId,
) -> bool {
    &&& a.contains_key(id)
    &&& b.contains_key(id)
    &&& a[id].variable.reads() == b[id].variable.reads()
    &&& a[id].variable.recalculated() == b[id].variable.recalculated()
    &&& a[id].variable.recalculated() ==> a[id].variable.value() == b[id].variable.value()
    &&& !a[id].variable.recalculated() ==> a[id].variable->equation == b[id].variable->equation
}

/// Whether `b` holds as `a` does every quantity of `a` that the value of `id` may
/// depend on.
pub open spec fn alike_below<V: Copy>(
    a: Map<QuantityId, Quantity<V>>,
    b: Map<QuantityId, Quantity<V>>,
    id: QuantityId,
) -> bool {
    forall|on: QuantityId| #[trigger]
        depends_on(a, id, on) && a.contains_key(on) ==> alike_at(a, b, on)
}

/// Whether the quantities of `group` read no quantity of another group.
pub open spec fn self_contained<V: Copy>(
    graph: Map<QuantityId, Quantity<V>>,
    group: Group,
) -> bool {
    forall|id: QuantityId, at: int|
        graph.contains_key(id) && graph[id].group == group && 0 <= at
            < graph[id].variable.reads().len() && graph.contains_key(
            #[trigger] graph[id].variable.reads()[at],
        ) ==> graph[graph[id].variable.reads()[at]].group == group
}

proof fn lemma_ranked_settles<V: Copy>(
    graph: Map<QuantityId, Quantity<V>>,
    rank: spec_fn(QuantityId) -> nat,
    id: QuantityId,
)
    requires
        ranked(graph, rank),
        graph.contains_key(id),
    ensures
        settled_within(graph, id, rank(id) + 1),
    decreases rank(id),
{
    let needed = graph[id].variable.reads();
    assert forall|at: int| 0 <= at < needed.len() implies settled_within(
        graph,
        #[trigger] needed[at],
        rank(id),
    ) by {
        assert(graph.contains_key(graph[id].variable.reads()[at]));
        lemma_ranked_settles(graph, rank, needed[at]);
        lemma_settled_monotone(graph, needed[at], rank(needed[at]) + 1, rank(id));
    }
}

/// Evaluation of a graph without cycles and without references to quantities outside
/// it succeeds: every quantity ends up ready, after no more waves than there are
/// dependent quantities.
pub proof fn law_acyclic_graph_is_evaluated<V: Copy>(
    before: Map<QuantityId, Quantity<V>>,
    after: Map<QuantityId, Quantity<V>>,
    arithmetic: spec_fn(Operation<V>, V) -> bool,
    outcome: Result<usize, VariableError>,
)
    requires
        acyclic(before),
        evaluated(before, after, arithmetic),
        reports(outcome, before),
    ensures
        outcome matches Ok(waves) && waves <= dependents(before).len(),
        forall|id: QuantityId| before.contains_key(id) ==> ready(after, id),
{
    let rank = choose|rank: spec_fn(QuantityId) -> nat| ranked(before, rank);
    assert forall|id: QuantityId| before.contains_key(id) implies settles(before, id) by {
        lemma_ranked_settles(before, rank, id);
    }
    if let Err(error) = outcome {
        let stuck = error->stuck;
        assert(stuck@.contains(stuck@[0]));
    }
}

proof fn lemma_cycle_never_settles<V: Copy>(
    graph: Map<QuantityId, Quantity<V>>,
    cycle: Seq<QuantityId>,
    at: int,
    waves: nat,
)
    requires
        is_cycle(graph, cycle),
        0 <= at < cycle.len(),
    ensures
        !settled_within(graph, cycle[at], waves),
    decreases waves,
{
    if waves > 0 {
        let next = if at + 1 < cycle.len() {
            at + 1
        } else {
            0
        };
        let needed = graph[cycle[at]].variable.reads();
        assert(needed.contains(cycle[next]));
        let r = choose|r: int| 0 <= r < needed.len() && needed[r] == cycle[next];
        lemma_cycle_never_settles(graph, cycle, next, (waves - 1) as nat);
        assert(!settled_within(graph, needed[r], (waves - 1) as nat));
    }
}

/// Evaluation of a graph with a cycle fails and reports every quantity of the cycle,
/// all of which stay as they were.
pub proof fn law_cycle_is_reported<V: Copy>(
    before: Map<QuantityId, Quantity<V>>,
    after: Map<QuantityId, Quantity<V>>,
    arithmetic: spec_fn(Operation<V>, V) -> bool,
    outcome: Result<usize, VariableError>,
    cycle: Seq<QuantityId>,
)
    requires
        is_cycle(before, cycle),
        evaluated(before, after, arithmetic),
        reports(outcome, before),
    ensures
        outcome matches Err(VariableError::UnresolvedDependencies { stuck, .. }) && forall|at: int|
            0 <= at < cycle.len() ==> stuck@.contains(#[trigger] cycle[at]),
        forall|at: int| 0 <= at < cycle.len() ==> after[#[trigger] cycle[at]] == before[cycle[at]],
{
    assert forall|at: int| 0 <= at < cycle.len() implies !settles(before, #[trigger] cycle[at]) by {
        if settles(before, cycle[at]) {
            let waves = choose|waves: nat| settled_within(before, cycle[at], waves);
            lemma_cycle_never_settles(before, cycle, at, waves);
        }
    }
    assert(before.contains_key(cycle[0]));
}

/// In a cycle of the scheduler, which starts by marking every dependent quantity as
/// not evaluated, dependent quantities that read each other in a circle are a cycle
/// whatever their marks were.
pub proof fn law_cycle_of_dependents<V: Copy>(
    graph: Map<QuantityId, Quantity<V>>,
    cycle: Seq<QuantityId>,
)
    requires
        cycle.len() > 0,
        forall|at: int|
            0 <= at < cycle.len() ==> {
                &&& graph.contains_key(#[trigger] cycle[at])
                &&& graph[cycle[at]].variable is Dependent
                &&& graph[cycle[at]].variable.reads().contains(
                    if at + 1 < cycle.len() {
                        cycle[at + 1]
                    } else {
                        cycle[0]
                    },
                )
            },
    ensures
        is_cycle(devalued(graph), cycle),
{
    lemma_devalued(graph);
    assert forall|at: int| 0 <= at < cycle.len() implies {
        &&& devalued(graph).contains_key(#[trigger] cycle[at])
        &&& !devalued(graph)[cycle[at]].variable.recalculated()
        &&& devalued(graph)[cycle[at]].variable.reads().contains(
            if at + 1 < cycle.len() {
                cycle[at + 1]
            } else {
                cycle[0]
            },
        )
    } by {
        assert(graph.contains_key(cycle[at]));
    }
}

/// A graph without cycles and without references to quantities outside it is still
/// one when its dependent quantities are marked as not evaluated.
pub proof fn law_acyclic_when_devalued<V: Copy>(graph: Map<QuantityId, Quantity<V>>)
    requires
        acyclic(graph),
    ensures
        acyclic(devalued(graph)),
        dependents(devalued(graph)) == dependents(graph),
{
    lemma_devalued(graph);
    let rank = choose|rank: spec_fn(QuantityId) -> nat| ranked(graph, rank);
    assert forall|id: QuantityId, at: int|
        devalued(graph).contains_key(id) && 0 <= at < devalued(graph)[id].variable.reads().len()
        implies {
        &&& devalued(graph).contains_key(#[trigger] devalued(graph)[id].variable.reads()[at])
        &&& rank(devalued(graph)[id].variable.reads()[at]) < rank(id)
    } by {
        assert(graph.contains_key(id));
        assert(graph.contains_key(graph[id].variable.reads()[at]));
    }
    assert(ranked(devalued(graph), rank));
    assert(dependents(devalued(graph)) =~= dependents(graph));
}

proof fn lemma_reaches_through<V: Copy>(
    graph: Map<QuantityId, Quantity<V>>,
    id: QuantityId,
    at: int,
    on: QuantityId,
)
    requires
        graph.contains_key(id),
        0 <= at < graph[id].variable.reads().len(),
        depends_on(graph, graph[id].variable.reads()[at], on),
    ensures
        depends_on(graph, id, on),
{
    let steps = choose|steps: nat| reaches(graph, graph[id].variable.reads()[at], on, steps);
    assert(reaches(graph, id, on, steps + 1));
}

proof fn lemma_local<V: Copy>(
    first: Map<QuantityId, Quantity<V>>,
    first_after: Map<QuantityId, Quantity<V>>,
    second: Map<QuantityId, Quantity<V>>,
    second_after: Map<QuantityId, Quantity<V>>,
    arithmetic: spec_fn(Operation<V>, V) -> bool,
    id: QuantityId,
    waves: nat,
)
    requires
        deterministic(arithmetic),
        evaluated(first, first_after, arithmetic),
        evaluated(second, second_after, arithmetic),
        alike_below(first, second, id),
        settled_within(first, id, waves),
    ensures
        settled_within(second, id, waves),
        first_after[id].variable.value() == second_after[id].variable.value(),
    decreases waves,
{
    assert(reaches(first, id, id, 0));
    assert(depends_on(first, id, id));
    assert(alike_at(first, second, id));
    if !first[id].variable.recalculated() {
        let equation = first[id].variable->equation;
        let needed = first[id].variable.reads();
        assert(needed == equation.reads());
        assert forall|at: int| 0 <= at < needed.len() implies {
            &&& settled_within(second, #[trigger] needed[at], (waves - 1) as nat)
            &&& first_after.contains_key(needed[at])
            &&& second_after.contains_key(needed[at])
            &&& first_after[needed[at]].variable.value()
                == second_after[needed[at]].variable.value()
        } by {
            let read = needed[at];
            assert(settled_within(first, read, (waves - 1) as nat));
            assert forall|on: QuantityId| #[trigger]
                depends_on(first, read, on) && first.contains_key(on) implies alike_at(
                first,
                second,
                on,
            ) by {
                lemma_reaches_through(first, id, at, on);
            }
            lemma_local(
                first,
                first_after,
                second,
                second_after,
                arithmetic,
                read,
                (waves - 1) as nat,
            );
            assert(first.contains_key(read));
            assert(second.contains_key(read));
        }
        assert(settled_within(second, id, waves));
        assert(settles(first, id));
        assert(settles(second, id));
        assert(resolved(first_after, first[id], first_after[id], arithmetic));
        assert(resolved(second_after, second[id], second_after[id], arithmetic));
        assert(agree_on(first_after, second_after, equation.reads()));
        lemma_evaluates_to_local(
            equation,
            first_after,
            second_after,
            arithmetic,
            first_after[id].variable.value(),
        );
        lemma_evaluates_to_unique(
            equation,
            second_after,
            arithmetic,
            first_after[id].variable.value(),
            second_after[id].variable.value(),
        );
    }
}

/// The value that evaluation gives a quantity depends only on the quantities that it
/// reads, directly or through others: two evaluations that start alike on those give
/// it the same value, however the rest of their stores differ.
pub proof fn law_evaluation_is_local<V: Copy>(
    first: Map<QuantityId, Quantity<V>>,
    first_after: Map<QuantityId, Quantity<V>>,
    second: Map<QuantityId, Quantity<V>>,
    second_after: Map<QuantityId, Quantity<V>>,
    arithmetic: spec_fn(Operation<V>, V) -> bool,
    id: QuantityId,
)
    requires
        deterministic(arithmetic),
        evaluated(first, first_after, arithmetic),
        evaluated(second, second_after, arithmetic),
        alike_below(first, second, id),
        settles(first, id),
    ensures
        settles(second, id),
        first_after[id].variable.value() == second_after[id].variable.value(),
{
    let waves = choose|waves: nat| settled_within(first, id, waves);
    lemma_local(first, first_after, second, second_after, arithmetic, id, waves);
}

/// Evaluation is a function of its inputs: two evaluations of the same graph that
/// start from the same marks and the same values of the ready quantities, the
/// independent ones among them, leave the same quantities ready, with the same values.
pub proof fn law_evaluation_is_deterministic<V: Copy>(
    first: Map<QuantityId, Quantity<V>>,
    first_after: Map<QuantityId, Quantity<V>>,
    second: Map<QuantityId, Quantity<V>>,
    second_after: Map<QuantityId, Quantity<V>>,
    arithmetic: spec_fn(Operation<V>, V) -> bool,
)
    requires
        deterministic(arithmetic),
        evaluated(first, first_after, arithmetic),
        evaluated(second, second_after, arithmetic),
        first.dom() == second.dom(),
        forall|id: QuantityId| first.contains_key(id) ==> alike_at(first, second, id),
    ensures
        forall|id: QuantityId|
            first.contains_key(id) ==> (ready(first_after, id) <==> ready(second_after, id)),
        forall|id: QuantityId|
            ready(first_after, id) ==> first_after[id].variable.value()
                == second_after[id].variable.value(),
{
    assert forall|id: QuantityId| first.contains_key(id) implies (settles(first, id) ==> settles(
        second,
        id,
    ) && first_after[id].variable.value() == second_after[id].variable.value()) && (settles(
        second,
        id,
    ) ==> settles(first, id)) by {
        if settles(first, id) {
            law_evaluation_is_local(first, first_after, second, second_after, arithmetic, id);
        }
        if settles(second, id) {
            assert forall|other: QuantityId| second.contains_key(other) implies alike_at(
                second,
                first,
                other,
            ) by {
                assert(alike_at(first, second, other));
            }
            law_evaluation_is_local(second, second_after, first, first_after, arithmetic, id);
        }
    }
}

proof fn lemma_group_is_closed<V: Copy>(
    graph: Map<QuantityId, Quantity<V>>,
    group: Group,
    id: QuantityId,
    on: QuantityId,
    steps: nat,
)
    requires
        self_contained(graph, group),
        graph.contains_key(id),
        graph[id].group == group,
        reaches(graph, id, on, steps),
        graph.contains_key(on),
    ensures
        graph[on].group == group,
    decreases steps,
{
    if id != on {
        let needed = graph[id].variable.reads();
        let at = choose|at: int|
            0 <= at < needed.len() && reaches(graph, #[trigger] needed[at], on, (steps - 1) as nat);
        lemma_reaches_exists(graph, needed[at], on, (steps - 1) as nat);
        lemma_group_is_closed(graph, group, needed[at], on, (steps - 1) as nat);
    }
}

proof fn lemma_reaches_exists<V: Copy>(
    graph: Map<QuantityId, Quantity<V>>,
    from: QuantityId,
    to: QuantityId,
    steps: nat,
)
    requires
        reaches(graph, from, to, steps),
        graph.contains_key(to),
    ensures
        graph.contains_key(from),
{
}

/// Groups that do not read each other do not affect each other: where the quantities
/// of a group read only quantities of that group, what evaluation gives them depends
/// on the group's own quantities alone.
pub proof fn law_groups_are_isolated<V: Copy>(
    first: Map<QuantityId, Quantity<V>>,
    first_after: Map<QuantityId, Quantity<V>>,
    second: Map<QuantityId, Quantity<V>>,
    second_after: Map<QuantityId, Quantity<V>>,
    arithmetic: spec_fn(Operation<V>, V) -> bool,
    group: Group,
    id: QuantityId,
)
    requires
        deterministic(arithmetic),
        evaluated(first, first_after, arithmetic),
        evaluated(second, second_after, arithmetic),
        self_contained(first, group),
        forall|other: QuantityId|
            first.contains_key(other) && first[other].group == group ==> alike_at(
                first,
                second,
                other,
            ),
        first.contains_key(id),
        first[id].group == group,
        settles(first, id),
    ensures
        settles(second, id),
        first_after[id].variable.value() == second_after[id].variable.value(),
{
    assert forall|on: QuantityId| #[trigger]
        depends_on(first, id, on) && first.contains_key(on) implies alike_at(first, second, on) by {
        let steps = choose|steps: nat| reaches(first, id, on, steps);
        lemma_group_is_closed(first, group, id, on, steps);
    }
    law_evaluation_is_local(first, first_after, second, second_after, arithmetic, id);
}

/// Evaluating twice in a row, with nothing changed in between, changes nothing the
/// second time: every quantity has the same value after the second cycle as after the
/// first, and the same quantities are ready.
pub proof fn law_repeated_evaluation_is_stable<V: Copy>(
    start: Map<QuantityId, Quantity<V>>,
    once: Map<QuantityId, Quantity<V>>,
    twice: Map<QuantityId, Quantity<V>>,
    arithmetic: spec_fn(Operation<V>, V) -> bool,
)
    requires
        deterministic(arithmetic),
        evaluated(devalued(start), once, arithmetic),
        evaluated(devalued(once), twice, arithmetic),
    ensures
        forall|id: QuantityId|
            start.contains_key(id) ==> {
                &&& twice.contains_key(id)
                &&& ready(twice, id) <==> ready(once, id)
                &&& twice[id].variable.value() == once[id].variable.value()
            },
{
    let first = devalued(start);
    let second = devalued(once);
    assert(first.dom() =~= second.dom());
    assert forall|id: QuantityId| first.contains_key(id) implies alike_at(first, second, id) by {
        assert(once.contains_key(id));
    }
    law_evaluation_is_deterministic(first, once, second, twice, arithmetic);
    assert forall|id: QuantityId| start.contains_key(id) implies {
        &&& twice.contains_key(id)
        &&& ready(twice, id) <==> ready(once, id)
        &&& twice[id].variable.value() == once[id].variable.value()
    } by {
        assert(first.contains_key(id));
        assert(second.contains_key(id));
        if !ready(once, id) {
            assert(!settles(first, id));
            assert(!ready(twice, id));
            assert(!settles(second, id));
        }
    }
}

proof fn lemma_all_settle_together<V: Copy>(
    graph: Map<QuantityId, Quantity<V>>,
    needed: Seq<QuantityId>,
) -> (waves: nat)
    requires
        forall|at: int| 0 <= at < needed.len() ==> settles(graph, #[trigger] needed[at]),
    ensures
        forall|at: int| 0 <= at < needed.len() ==> settled_within(graph, #[trigger] needed[at], waves),
    decreases needed.len(),
{
    if needed.len() == 0 {
        0
    } else {
        let rest = needed.drop_last();
        assert forall|at: int| 0 <= at < rest.len() implies settles(graph, #[trigger] rest[at]) by {
            assert(rest[at] == needed[at]);
        }
        let before = lemma_all_settle_together(graph, rest);
        let latest = needed[needed.len() - 1];
        assert(settles(graph, latest));
        let last = choose|waves: nat| settled_within(graph, latest, waves);
        let waves = if before < last {
            last
        } else {
            before
        };
        assert forall|at: int| 0 <= at < needed.len() implies settled_within(
            graph,
            #[trigger] needed[at],
            waves,
        ) by {
            if at < rest.len() {
                assert(rest[at] == needed[at]);
                lemma_settled_monotone(graph, needed[at], before, waves);
            } else {
                lemma_settled_monotone(graph, needed[at], last, waves);
            }
        }
        waves
    }
}

/// A quantity becomes ready exactly if it is ready already, or everything that it
/// reads becomes ready. So a quantity that stays behind is not ready and reads one
/// that the store does not hold or that stays behind itself.
pub proof fn law_unresolved_has_a_cause<V: Copy>(
    graph: Map<QuantityId, Quantity<V>>,
    id: QuantityId,
)
    requires
        graph.contains_key(id),
    ensures
        settles(graph, id) <==> {
            ||| graph[id].variable.recalculated()
            ||| forall|at: int|
                0 <= at < graph[id].variable.reads().len() ==> settles(
                    graph,
                    #[trigger] graph[id].variable.reads()[at],
                )
        },
{
    let needed = graph[id].variable.reads();
    if settles(graph, id) {
        let waves = choose|waves: nat| settled_within(graph, id, waves);
        if !graph[id].variable.recalculated() {
            assert forall|at: int| 0 <= at < needed.len() implies settles(
                graph,
                #[trigger] needed[at],
            ) by {
                assert(settled_within(graph, needed[at], (waves - 1) as nat));
            }
        }
    }
    if graph[id].variable.recalculated() {
        assert(settled_within(graph, id, 0));
    } else if forall|at: int| 0 <= at < needed.len() ==> settles(graph, #[trigger] needed[at]) {
        let waves = lemma_all_settle_together(graph, needed);
        assert(settled_within(graph, id, waves + 1));
    }
}

/// Whether `id` is ready after `waves` waves and not before.
pub open spec fn settles_in<V: Copy>(
    graph: Map<QuantityId, Quantity<V>>,
    id: QuantityId,
    waves: nat,
) -> bool {
    settled_within(graph, id, waves) && (waves == 0 || !settled_within(
        graph,
        id,
        (waves - 1) as nat,
    ))
}

/// The number of waves after which `id` is ready and not before, or 0 for a quantity
/// that never is.
pub open spec fn settling_wave<V: Copy>(graph: Map<QuantityId, Quantity<V>>, id: QuantityId) -> nat {
    if settles(graph, id) {
        choose|waves: nat| settles_in(graph, id, waves)
    } else {
        0
    }
}

/// A quantity that is ready after some number of waves is first ready after its
/// settling wave, which is no later.
proof fn lemma_settling_wave<V: Copy>(
    graph: Map<QuantityId, Quantity<V>>,
    id: QuantityId,
    waves: nat,
)
    requires
        settled_within(graph, id, waves),
    ensures
        settles_in(graph, id, settling_wave(graph, id)),
        settling_wave(graph, id) <= waves,
    decreases waves,
{
    if settles_in(graph, id, waves) {
        let first = settling_wave(graph, id);
        if first > waves {
            lemma_settled_monotone(graph, id, waves, (first - 1) as nat);
        }
    } else {
        lemma_settling_wave(graph, id, (waves - 1) as nat);
    }
}

/// Where no dependent quantity is ready and yet every quantity becomes ready, the
/// graph has no cycle and no reference to a quantity outside it: the wave in which a
/// quantity becomes ready ranks it above all that it reads.
pub proof fn law_success_means_acyclic<V: Copy>(graph: Map<QuantityId, Quantity<V>>)
    requires
        forall|id: QuantityId|
            graph.contains_key(id) && graph[id].variable is Dependent
                ==> !graph[id].variable.recalculated(),
        forall|id: QuantityId| graph.contains_key(id) ==> settles(graph, id),
    ensures
        acyclic(graph),
{
    let rank = |id: QuantityId| settling_wave(graph, id);
    assert forall|id: QuantityId, at: int|
        graph.contains_key(id) && 0 <= at < graph[id].variable.reads().len() implies {
        &&& graph.contains_key(#[trigger] graph[id].variable.reads()[at])
        &&& rank(graph[id].variable.reads()[at]) < rank(id)
    } by {
        let read = graph[id].variable.reads()[at];
        assert(settles(graph, id));
        let some = choose|waves: nat| settled_within(graph, id, waves);
        lemma_settling_wave(graph, id, some);
        let own = settling_wave(graph, id);
        // Only a dependent quantity reads anything, and none is ready at the start:
        // so what it reads was ready a wave before it.
        assert(graph[id].variable is Dependent);
        assert(settled_within(graph, read, (own - 1) as nat));
        lemma_settling_wave(graph, read, (own - 1) as nat);
    }
    assert(ranked(graph, rank));
}

} // verus!
