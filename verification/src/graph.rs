//! What evaluation means: the dependency graph that a store's quantities form, and
//! which of them can be given a value.
use vstd::prelude::*;
use crate::lambda::{Lam, Operation};
use crate::quantity::QuantityId;
use crate::list::Quantity;

verus! {

/// Whether `id` names a quantity of `graph` that has a value for the current cycle.
pub open spec fn ready<V: Copy>(graph: Map<QuantityId, Quantity<V>>, id: QuantityId) -> bool {
    graph.contains_key(id) && graph[id].variable.recalculated()
}

/// Whether every quantity of `needed` is ready.
pub open spec fn all_ready<V: Copy>(
    graph: Map<QuantityId, Quantity<V>>,
    needed: Seq<QuantityId>,
) -> bool {
    forall|at: int| 0 <= at < needed.len() ==> ready(graph, #[trigger] needed[at])
}

/// Whether `id` can be evaluated now: it is not ready, and all that it reads is.
pub open spec fn enabled<V: Copy>(graph: Map<QuantityId, Quantity<V>>, id: QuantityId) -> bool {
    &&& graph.contains_key(id)
    &&& !graph[id].variable.recalculated()
    &&& all_ready(graph, graph[id].variable.reads())
}

/// Whether `id` is ready after `waves` waves of evaluation that start from `graph`.
///
/// What is ready at the start stays so. A wave makes ready every quantity whose
/// equation reads only quantities that were ready before the wave.
pub open spec fn settled_within<V: Copy>(
    graph: Map<QuantityId, Quantity<V>>,
    id: QuantityId,
    waves: nat,
) -> bool
    decreases waves,
{
    &&& graph.contains_key(id)
    &&& {
        ||| graph[id].variable.recalculated()
        ||| waves > 0 && forall|at: int|
            0 <= at < graph[id].variable.reads().len() ==> settled_within(
                graph,
                #[trigger] graph[id].variable.reads()[at],
                (waves - 1) as nat,
            )
    }
}

/// Whether some number of waves makes `id` ready.
pub open spec fn settles<V: Copy>(graph: Map<QuantityId, Quantity<V>>, id: QuantityId) -> bool {
    exists|waves: nat| settled_within(graph, id, waves)
}

/// The quantities that have no value for the current cycle yet.
pub open spec fn pending<V: Copy>(graph: Map<QuantityId, Quantity<V>>) -> Set<QuantityId> {
    Set::new(|id: QuantityId| graph.contains_key(id) && !graph[id].variable.recalculated())
}

/// The quantities that are computed from others.
pub open spec fn dependents<V: Copy>(graph: Map<QuantityId, Quantity<V>>) -> Set<QuantityId> {
    Set::new(|id: QuantityId| graph.contains_key(id) && graph[id].variable is Dependent)
}

/// Whether two graphs hold the same quantities with the same groups, names, kinds and
/// equations, whatever their values and marks.
pub open spec fn same_shape<V: Copy>(
    a: Map<QuantityId, Quantity<V>>,
    b: Map<QuantityId, Quantity<V>>,
) -> bool {
    &&& a.dom() == b.dom()
    &&& forall|id: QuantityId| #[trigger]
        a.contains_key(id) ==> {
            &&& a[id].group == b[id].group
            &&& a[id].name == b[id].name
            &&& a[id].variable is Dependent <==> b[id].variable is Dependent
            &&& a[id].variable.reads() == b[id].variable.reads()
            &&& a[id].variable is Dependent ==> a[id].variable->equation
                == b[id].variable->equation
        }
}

/// Whether `now` is `start` after `waves` waves, as far as the marks go: both hold the
/// same quantities, which read the same ones, and what is ready in `now` is what
/// `waves` waves make ready from `start`.
pub open spec fn tracks<V: Copy>(
    start: Map<QuantityId, Quantity<V>>,
    now: Map<QuantityId, Quantity<V>>,
    waves: nat,
) -> bool {
    &&& start.dom() == now.dom()
    &&& forall|id: QuantityId| #[trigger]
        start.contains_key(id) ==> {
            &&& start[id].variable.reads() == now[id].variable.reads()
            &&& ready(now, id) <==> settled_within(start, id, waves)
        }
}

/// Whether wave number `wave` makes a quantity ready that was not ready before it.
pub open spec fn progress<V: Copy>(graph: Map<QuantityId, Quantity<V>>, wave: nat) -> bool {
    wave > 0 && exists|id: QuantityId|
        settled_within(graph, id, wave) && !#[trigger] settled_within(
            graph,
            id,
            (wave - 1) as nat,
        )
}

/// Whether every quantity is ready after `waves` waves.
pub open spec fn all_settled_within<V: Copy>(
    graph: Map<QuantityId, Quantity<V>>,
    waves: nat,
) -> bool {
    forall|id: QuantityId| graph.contains_key(id) ==> settled_within(graph, id, waves)
}

/// Whether two graphs hold every quantity of `needed` with the same value.
pub open spec fn agree_on<V: Copy>(
    a: Map<QuantityId, Quantity<V>>,
    b: Map<QuantityId, Quantity<V>>,
    needed: Seq<QuantityId>,
) -> bool {
    forall|at: int|
        0 <= at < needed.len() ==> {
            &&& a.contains_key(#[trigger] needed[at])
            &&& b.contains_key(needed[at])
            &&& a[needed[at]].variable.value() == b[needed[at]].variable.value()
        }
}

/// Whether the arithmetic has one answer to every operation.
pub open spec fn deterministic<V>(arithmetic: spec_fn(Operation<V>, V) -> bool) -> bool {
    forall|operation: Operation<V>, first: V, second: V|
        #[trigger] arithmetic(operation, first) && #[trigger] arithmetic(operation, second) ==> first == second
}

/// What is ready after some waves is ready after more.
pub proof fn lemma_settled_monotone<V: Copy>(
    graph: Map<QuantityId, Quantity<V>>,
    id: QuantityId,
    fewer: nat,
    more: nat,
)
    requires
        settled_within(graph, id, fewer),
        fewer <= more,
    ensures
        settled_within(graph, id, more),
    decreases fewer,
{
    if !graph[id].variable.recalculated() {
        let needed = graph[id].variable.reads();
        assert forall|at: int| 0 <= at < needed.len() implies settled_within(
            graph,
            #[trigger] needed[at],
            (more - 1) as nat,
        ) by {
            lemma_settled_monotone(graph, needed[at], (fewer - 1) as nat, (more - 1) as nat);
        }
    }
}

/// The value of an expression depends only on the values of the quantities that it
/// reads.
pub proof fn lemma_evaluates_to_local<V: Copy>(
    equation: Lam<V>,
    a: Map<QuantityId, Quantity<V>>,
    b: Map<QuantityId, Quantity<V>>,
    arithmetic: spec_fn(Operation<V>, V) -> bool,
    result: V,
)
    requires
        equation.evaluates_to(a, arithmetic, result),
        agree_on(a, b, equation.reads()),
    ensures
        equation.evaluates_to(b, arithmetic, result),
    decreases equation,
{
    match equation {
        Lam::Num(_) => {},
        Lam::Var(id) => {
            assert(equation.reads()[0] == id);
        },
        Lam::Binary(op, lhs, rhs) => {
            let (left, right) = choose|left: V, right: V|
                {
                    &&& lhs.evaluates_to(a, arithmetic, left)
                    &&& rhs.evaluates_to(a, arithmetic, right)
                    &&& #[trigger] arithmetic(Operation::Binary(op, left, right), result)
                };
            assert forall|at: int| 0 <= at < lhs.reads().len() implies {
                &&& a.contains_key(#[trigger] lhs.reads()[at])
                &&& b.contains_key(lhs.reads()[at])
                &&& a[lhs.reads()[at]].variable.value() == b[lhs.reads()[at]].variable.value()
            } by {
                assert(equation.reads()[at] == lhs.reads()[at]);
            }
            assert forall|at: int| 0 <= at < rhs.reads().len() implies {
                &&& a.contains_key(#[trigger] rhs.reads()[at])
                &&& b.contains_key(rhs.reads()[at])
                &&& a[rhs.reads()[at]].variable.value() == b[rhs.reads()[at]].variable.value()
            } by {
                assert(equation.reads()[lhs.reads().len() + at] == rhs.reads()[at]);
            }
            lemma_evaluates_to_local(*lhs, a, b, arithmetic, left);
            lemma_evaluates_to_local(*rhs, a, b, arithmetic, right);
        },
        Lam::Unary(op, arg) => {
            let inner = choose|inner: V|
                {
                    &&& arg.evaluates_to(a, arithmetic, inner)
                    &&& #[trigger] arithmetic(Operation::Unary(op, inner), result)
                };
            assert(equation.reads() == arg.reads());
            lemma_evaluates_to_local(*arg, a, b, arithmetic, inner);
        },
    }
}

/// With arithmetic that has one answer to every operation, an expression has at most
/// one value.
pub proof fn lemma_evaluates_to_unique<V: Copy>(
    equation: Lam<V>,
    context: Map<QuantityId, Quantity<V>>,
    arithmetic: spec_fn(Operation<V>, V) -> bool,
    first: V,
    second: V,
)
    requires
        deterministic(arithmetic),
        equation.evaluates_to(context, arithmetic, first),
        equation.evaluates_to(context, arithmetic, second),
    ensures
        first == second,
    decreases equation,
{
    match equation {
        Lam::Num(_) => {},
        Lam::Var(_) => {},
        Lam::Binary(op, lhs, rhs) => {
            let (left1, right1) = choose|left: V, right: V|
                {
                    &&& lhs.evaluates_to(context, arithmetic, left)
                    &&& rhs.evaluates_to(context, arithmetic, right)
                    &&& #[trigger] arithmetic(Operation::Binary(op, left, right), first)
                };
            let (left2, right2) = choose|left: V, right: V|
                {
                    &&& lhs.evaluates_to(context, arithmetic, left)
                    &&& rhs.evaluates_to(context, arithmetic, right)
                    &&& #[trigger] arithmetic(Operation::Binary(op, left, right), second)
                };
            lemma_evaluates_to_unique(*lhs, context, arithmetic, left1, left2);
            lemma_evaluates_to_unique(*rhs, context, arithmetic, right1, right2);
        },
        Lam::Unary(op, arg) => {
            let inner1 = choose|inner: V|
                {
                    &&& arg.evaluates_to(context, arithmetic, inner)
                    &&& #[trigger] arithmetic(Operation::Unary(op, inner), first)
                };
            let inner2 = choose|inner: V|
                {
                    &&& arg.evaluates_to(context, arithmetic, inner)
                    &&& #[trigger] arithmetic(Operation::Unary(op, inner), second)
                };
            lemma_evaluates_to_unique(*arg, context, arithmetic, inner1, inner2);
        },
    }
}

/// The next wave makes ready exactly what can be evaluated now.
pub proof fn lemma_next_wave<V: Copy>(
    start: Map<QuantityId, Quantity<V>>,
    now: Map<QuantityId, Quantity<V>>,
    waves: nat,
    id: QuantityId,
)
    requires
        tracks(start, now, waves),
        start.contains_key(id),
    ensures
        settled_within(start, id, waves + 1) <==> ready(now, id) || enabled(now, id),
{
    let needed = start[id].variable.reads();
    assert(needed == now[id].variable.reads());
    if settled_within(start, id, waves + 1) {
        if !start[id].variable.recalculated() {
            assert forall|at: int| 0 <= at < needed.len() implies ready(
                now,
                #[trigger] needed[at],
            ) by {
                assert(settled_within(start, needed[at], waves));
                assert(start.contains_key(needed[at]));
            }
        } else {
            assert(settled_within(start, id, 0));
            lemma_settled_monotone(start, id, 0, waves);
        }
    }
    if ready(now, id) {
        lemma_settled_monotone(start, id, waves, waves + 1);
    }
    if enabled(now, id) {
        assert forall|at: int| 0 <= at < needed.len() implies settled_within(
            start,
            #[trigger] needed[at],
            waves,
        ) by {
            assert(ready(now, needed[at]));
            assert(start.contains_key(needed[at]));
        }
    }
}

/// Once nothing can be evaluated, no further wave makes anything ready.
pub proof fn lemma_fixpoint<V: Copy>(
    start: Map<QuantityId, Quantity<V>>,
    now: Map<QuantityId, Quantity<V>>,
    waves: nat,
    id: QuantityId,
    later: nat,
)
    requires
        tracks(start, now, waves),
        forall|other: QuantityId| !enabled(now, other),
        settled_within(start, id, later),
    ensures
        settled_within(start, id, waves),
    decreases later,
{
    if start[id].variable.recalculated() {
        assert(settled_within(start, id, 0));
        lemma_settled_monotone(start, id, 0, waves);
    } else {
        let needed = start[id].variable.reads();
        assert(needed == now[id].variable.reads());
        assert forall|at: int| 0 <= at < needed.len() implies ready(now, #[trigger] needed[at]) by {
            lemma_fixpoint(start, now, waves, needed[at], (later - 1) as nat);
            assert(start.contains_key(needed[at]));
        }
        assert(!enabled(now, id));
    }
}

/// Only dependent quantities can be without a value for the current cycle.
pub proof fn lemma_pending_are_dependents<V: Copy>(graph: Map<QuantityId, Quantity<V>>)
    requires
        graph.dom().finite(),
    ensures
        pending(graph).subset_of(dependents(graph)),
        pending(graph).len() <= dependents(graph).len(),
{
    assert(dependents(graph).subset_of(graph.dom()));
    vstd::set_lib::lemma_len_subset(dependents(graph), graph.dom());
    assert(pending(graph).subset_of(dependents(graph)));
    vstd::set_lib::lemma_len_subset(pending(graph), dependents(graph));
}

} // verus!
