use variables::binding::{bind, update_bindings, VarBinding};
use variables::error::VariableError;
use variables::group::Group;
use variables::lambda::{BinaryOp, Lam, Operation, UnaryOp};
use variables::quantity::QuantityId;
use variables::schedule::{devaluate_variables, evaluate, evaluate_variables};
use variables::list::VariableList;
use variables::variable::{dependent, independent};

fn ieee(operation: Operation<f64>) -> f64 {
    match operation {
        Operation::Binary(BinaryOp::Add, a, b) => a + b,
        Operation::Binary(BinaryOp::Sub, a, b) => a - b,
        Operation::Binary(BinaryOp::Mul, a, b) => a * b,
        Operation::Binary(BinaryOp::Div, a, b) => a / b,
        Operation::Binary(BinaryOp::Mod, a, b) => a % b,
        Operation::Unary(UnaryOp::Sin, a) => a.sin(),
        Operation::Unary(UnaryOp::Cos, a) => a.cos(),
        Operation::Unary(UnaryOp::Tan, a) => a.tan(),
    }
}

fn binary(op: BinaryOp, lhs: Lam<f64>, rhs: Lam<f64>) -> Lam<f64> {
    Lam::binary(op, lhs, rhs)
}

fn unary(op: UnaryOp, arg: Lam<f64>) -> Lam<f64> {
    Lam::unary(op, arg)
}

fn stuck_of(outcome: Result<usize, VariableError>) -> (usize, Vec<QuantityId>) {
    match outcome {
        Err(VariableError::UnresolvedDependencies { waves, stuck }) => (waves, stuck),
        other => panic!("expected unresolved dependencies, got {:?}", other),
    }
}

#[test]
fn sine_of_time_times_frequency() {
    let mut store = VariableList::new(0.0);
    let group = Group(1);
    let time = independent(&mut store, &group, "time", 0.0);
    let freq = independent(&mut store, &group, "freq", 2.0);
    let theta = dependent(
        &mut store,
        &group,
        "theta",
        binary(
            BinaryOp::Mod,
            binary(BinaryOp::Mul, Lam::Var(time), Lam::Var(freq)),
            Lam::Num(2.0 * std::f64::consts::PI),
        ),
    );
    let sin_theta = dependent(
        &mut store,
        &group,
        "sin(theta)",
        binary(BinaryOp::Mul, Lam::Num(30.0), unary(UnaryOp::Sin, Lam::Var(theta))),
    );

    assert_eq!(evaluate(&mut store, &ieee), Ok(2));
    assert_eq!(store.get_value(&theta), Ok(0.0));
    assert_eq!(store.get_value(&sin_theta), Ok(0.0));

    assert_eq!(store.set_value(&time, 0.5), Ok(()));
    assert_eq!(evaluate(&mut store, &ieee), Ok(2));
    assert_eq!(store.get_value(&theta), Ok(1.0));
    let value = store.get_value(&sin_theta).unwrap();
    assert_eq!(value, 30.0 * 1.0f64.sin());
    assert!((value - 25.244).abs() < 0.001);
}

#[test]
fn same_name_in_two_groups_does_not_collide() {
    let mut store = VariableList::new(0.0);
    let g1 = Group(1);
    let g2 = Group(2);
    let amp1 = independent(&mut store, &g1, "amp", 30.0);
    let amp2 = independent(&mut store, &g2, "amp", 10.0);
    let out1 = dependent(&mut store, &g1, "out", binary(BinaryOp::Mul, Lam::Var(amp1), Lam::Num(2.0)));
    let out2 = dependent(&mut store, &g2, "out", binary(BinaryOp::Mul, Lam::Var(amp2), Lam::Num(2.0)));
    assert_ne!(out1, out2);

    assert_eq!(evaluate(&mut store, &ieee), Ok(1));
    assert_eq!(store.get_value(&out1), Ok(60.0));
    assert_eq!(store.get_value(&out2), Ok(20.0));
    assert_eq!(store.get_entity(&g1, "out"), Ok(out1));
    assert_eq!(store.get_entity(&g2, "out"), Ok(out2));
    assert_eq!(store.get_entity(&g1, "amp"), Ok(amp1));
    assert_eq!(store.get_entity(&g2, "amp"), Ok(amp2));
    assert_eq!(store.group_of(&out2), Some(g2));
}

#[test]
fn groups_are_isolated() {
    let mut store = VariableList::new(0.0);
    let g1 = Group(1);
    let g2 = Group(2);
    let amp1 = independent(&mut store, &g1, "amp", 30.0);
    let amp2 = independent(&mut store, &g2, "amp", 10.0);
    let out1 = dependent(&mut store, &g1, "out", binary(BinaryOp::Add, Lam::Var(amp1), Lam::Num(1.0)));
    let out2 = dependent(&mut store, &g2, "out", binary(BinaryOp::Add, Lam::Var(amp2), Lam::Num(1.0)));
    assert_eq!(evaluate(&mut store, &ieee), Ok(1));
    assert_eq!(store.get_value(&out1), Ok(31.0));
    assert_eq!(store.get_value(&out2), Ok(11.0));

    assert_eq!(store.set_value(&amp1, 50.0), Ok(()));
    assert_eq!(evaluate(&mut store, &ieee), Ok(1));
    assert_eq!(store.get_value(&out1), Ok(51.0));
    assert_eq!(store.get_value(&out2), Ok(11.0));
    assert_eq!(store.get_value(&amp2), Ok(10.0));
}

#[test]
fn binding_reads_sentinel_then_computed_value() {
    let mut store = VariableList::new(0.0);
    let group = Group(0);
    let amp = independent(&mut store, &group, "amp", 4.0);
    let twice = dependent(&mut store, &group, "twice", binary(BinaryOp::Add, Lam::Var(amp), Lam::Var(amp)));
    let binding = bind(&store, twice).unwrap();
    assert_eq!(binding.value(), 0.0);
    assert_eq!(binding.variable, twice);

    let mut bindings = vec![binding];
    assert_eq!(evaluate(&mut store, &ieee), Ok(1));
    assert_eq!(bindings[0].value(), 0.0);
    assert_eq!(update_bindings(&mut bindings, &store), Ok(()));
    assert_eq!(bindings[0].value(), 8.0);
    assert_eq!(bindings[0].variable, twice);
}

#[test]
fn sentinel_is_the_one_the_store_was_made_with() {
    let mut store = VariableList::new(-1.0);
    assert_eq!(store.sentinel(), -1.0);
    let group = Group(0);
    let orphan = dependent(&mut store, &group, "orphan", Lam::Num(5.0));
    assert_eq!(store.get_value(&orphan), Ok(-1.0));
    assert!(!store.is_ready(&orphan));
    assert_eq!(bind(&store, orphan).unwrap().value, -1.0);
}

#[test]
fn bindings_are_fresh_after_update() {
    let mut store = VariableList::new(0.0);
    let group = Group(3);
    let a = independent(&mut store, &group, "a", 1.5);
    let b = independent(&mut store, &group, "b", 2.5);
    let sum = dependent(&mut store, &group, "sum", binary(BinaryOp::Add, Lam::Var(a), Lam::Var(b)));
    let mut bindings = vec![
        bind(&store, a).unwrap(),
        bind(&store, sum).unwrap(),
        bind(&store, b).unwrap(),
        bind(&store, sum).unwrap(),
    ];
    assert_eq!(store.set_value(&a, 10.0), Ok(()));
    assert_eq!(evaluate(&mut store, &ieee), Ok(1));
    assert_eq!(update_bindings(&mut bindings, &store), Ok(()));
    for binding in &bindings {
        assert_eq!(Ok(binding.value()), store.get_value(&binding.variable));
    }
    assert_eq!(bindings[0].value, 10.0);
    assert_eq!(bindings[1].value, 12.5);
    assert_eq!(bindings[2].value, 2.5);
    assert_eq!(bindings[3].value, 12.5);
}

#[test]
fn stale_binding_keeps_its_value_and_is_reported() {
    let mut store = VariableList::new(0.0);
    let kept = Group(1);
    let dropped = Group(2);
    let a = independent(&mut store, &kept, "a", 1.0);
    let b = independent(&mut store, &dropped, "b", 2.0);
    let c = independent(&mut store, &dropped, "c", 3.0);
    let mut bindings = vec![
        bind(&store, b).unwrap(),
        bind(&store, a).unwrap(),
        bind(&store, c).unwrap(),
    ];
    store.remove_group(&dropped);
    assert_eq!(store.set_value(&a, 7.0), Ok(()));
    assert_eq!(
        update_bindings(&mut bindings, &store),
        Err(VariableError::UnknownQuantity(b))
    );
    assert_eq!(bindings[0], VarBinding::new(b, 2.0));
    assert_eq!(bindings[1], VarBinding::new(a, 7.0));
    assert_eq!(bindings[2], VarBinding::new(c, 3.0));
    assert_eq!(bind(&store, c), Err(VariableError::UnknownQuantity(c)));
    let mut alone = VarBinding::new(c, 3.0);
    assert_eq!(alone.refresh(&store), Err(VariableError::UnknownQuantity(c)));
    assert_eq!(alone.value(), 3.0);
}

#[test]
fn chain_takes_one_wave_per_dependent() {
    let mut store = VariableList::new(0.0);
    let group = Group(0);
    let root = independent(&mut store, &group, "root", 1.0);
    let mut previous = root;
    let mut chain = Vec::new();
    for _ in 0..5 {
        previous = dependent(
            &mut store,
            &group,
            "link",
            binary(BinaryOp::Add, Lam::Var(previous), Lam::Num(1.0)),
        );
        chain.push(previous);
    }
    assert_eq!(evaluate(&mut store, &ieee), Ok(5));
    for (at, id) in chain.iter().enumerate() {
        assert!(store.is_ready(id));
        assert_eq!(store.get_value(id), Ok(2.0 + at as f64));
    }
    assert!(store.is_ready(&root));
    assert_eq!(store.get_value(&root), Ok(1.0));
}

#[test]
fn chain_declared_backwards_still_resolves() {
    // Handles are given out in the order of creation: the third quantity will get the
    // index 2, so the second can name it before it exists.
    let mut store = VariableList::new(0.0);
    let group = Group(0);
    let root = independent(&mut store, &group, "root", 3.0);
    let later = QuantityId { index: 2, generation: 0 };
    let outer = dependent(&mut store, &group, "outer", binary(BinaryOp::Mul, Lam::Var(later), Lam::Num(2.0)));
    let inner = dependent(&mut store, &group, "inner", binary(BinaryOp::Add, Lam::Var(root), Lam::Num(1.0)));
    assert_eq!(inner, later);
    assert_eq!(evaluate(&mut store, &ieee), Ok(2));
    assert_eq!(store.get_value(&inner), Ok(4.0));
    assert_eq!(store.get_value(&outer), Ok(8.0));
}

#[test]
fn diamond_resolves_in_depth_many_waves() {
    let mut store = VariableList::new(0.0);
    let group = Group(0);
    let x = independent(&mut store, &group, "x", 3.0);
    let left = dependent(&mut store, &group, "left", binary(BinaryOp::Mul, Lam::Var(x), Lam::Num(2.0)));
    let right = dependent(&mut store, &group, "right", binary(BinaryOp::Sub, Lam::Var(x), Lam::Num(1.0)));
    let join = dependent(&mut store, &group, "join", binary(BinaryOp::Div, Lam::Var(left), Lam::Var(right)));
    assert_eq!(evaluate(&mut store, &ieee), Ok(2));
    assert_eq!(store.get_value(&left), Ok(6.0));
    assert_eq!(store.get_value(&right), Ok(2.0));
    assert_eq!(store.get_value(&join), Ok(3.0));
}

#[test]
fn empty_store_is_done_without_a_wave() {
    let mut store: VariableList<f64> = VariableList::new(0.0);
    assert_eq!(evaluate(&mut store, &ieee), Ok(0));
    assert_eq!(store.ids(), Vec::<QuantityId>::new());
}

#[test]
fn only_independents_need_no_wave() {
    let mut store = VariableList::new(0.0);
    let a = independent(&mut store, &Group(0), "a", 1.0);
    assert_eq!(evaluate(&mut store, &ieee), Ok(0));
    assert!(store.is_ready(&a));
    assert_eq!(store.get_value(&a), Ok(1.0));
}

#[test]
fn independents_are_never_changed_by_evaluation() {
    let mut store = VariableList::new(0.0);
    let group = Group(0);
    let a = independent(&mut store, &group, "a", 1.25);
    let b = independent(&mut store, &group, "b", -7.0);
    let _c = dependent(&mut store, &group, "c", binary(BinaryOp::Mul, Lam::Var(a), Lam::Var(b)));
    let missing = QuantityId { index: 40, generation: 0 };
    let _d = dependent(&mut store, &group, "d", Lam::Var(missing));
    let _ = evaluate(&mut store, &ieee);
    assert_eq!(store.get_value(&a), Ok(1.25));
    assert_eq!(store.get_value(&b), Ok(-7.0));
    let _ = evaluate(&mut store, &ieee);
    assert_eq!(store.get_value(&a), Ok(1.25));
    assert_eq!(store.get_value(&b), Ok(-7.0));
}

#[test]
fn two_runs_give_the_same_values() {
    let mut store = VariableList::new(0.0);
    let group = Group(0);
    let a = independent(&mut store, &group, "a", 0.75);
    let b = dependent(&mut store, &group, "b", unary(UnaryOp::Cos, Lam::Var(a)));
    let c = dependent(&mut store, &group, "c", binary(BinaryOp::Div, Lam::Var(b), Lam::Var(a)));
    let d = dependent(&mut store, &group, "d", unary(UnaryOp::Tan, Lam::Var(c)));
    assert_eq!(evaluate(&mut store, &ieee), Ok(3));
    let first = [b, c, d].map(|id| store.get_value(&id).unwrap());
    assert_eq!(evaluate(&mut store, &ieee), Ok(3));
    let second = [b, c, d].map(|id| store.get_value(&id).unwrap());
    assert_eq!(first, second);
    assert_eq!(first[0], 0.75f64.cos());
    assert_eq!(first[1], 0.75f64.cos() / 0.75);
    assert_eq!(first[2], (0.75f64.cos() / 0.75).tan());
}

#[test]
fn cycle_of_two_is_reported() {
    let mut store = VariableList::new(0.0);
    let group = Group(0);
    let second = QuantityId { index: 1, generation: 0 };
    let a = dependent(&mut store, &group, "a", binary(BinaryOp::Add, Lam::Var(second), Lam::Num(1.0)));
    let b = dependent(&mut store, &group, "b", binary(BinaryOp::Add, Lam::Var(a), Lam::Num(1.0)));
    assert_eq!(b, second);
    let (waves, stuck) = stuck_of(evaluate(&mut store, &ieee));
    assert_eq!(waves, 1);
    assert_eq!(stuck, vec![a, b]);
    assert!(!store.is_ready(&a));
    assert!(!store.is_ready(&b));
    assert_eq!(store.get_value(&a), Ok(0.0));
    assert_eq!(store.get_value(&b), Ok(0.0));
}

#[test]
fn quantity_that_reads_itself_is_stuck() {
    let mut store = VariableList::new(0.0);
    let group = Group(0);
    let own = QuantityId { index: 0, generation: 0 };
    let a = dependent(&mut store, &group, "a", Lam::Var(own));
    assert_eq!(a, own);
    let (waves, stuck) = stuck_of(evaluate(&mut store, &ieee));
    assert_eq!(waves, 1);
    assert_eq!(stuck, vec![a]);
}

#[test]
fn cycle_does_not_stop_the_rest() {
    let mut store = VariableList::new(0.0);
    let group = Group(0);
    let x = independent(&mut store, &group, "x", 2.0);
    let second = QuantityId { index: 2, generation: 0 };
    let a = dependent(&mut store, &group, "a", Lam::Var(second));
    let b = dependent(&mut store, &group, "b", Lam::Var(a));
    let fine = dependent(&mut store, &group, "fine", binary(BinaryOp::Mul, Lam::Var(x), Lam::Var(x)));
    let after = dependent(&mut store, &group, "after", binary(BinaryOp::Add, Lam::Var(fine), Lam::Var(b)));
    assert_eq!(b, second);
    let (waves, stuck) = stuck_of(evaluate(&mut store, &ieee));
    assert_eq!(waves, 2);
    assert_eq!(stuck, vec![a, b, after]);
    assert_eq!(store.get_value(&fine), Ok(4.0));
    assert!(store.is_ready(&fine));
    assert!(!store.is_ready(&after));
}

#[test]
fn dangling_reference_keeps_the_last_value() {
    let mut store = VariableList::new(0.0);
    let own = Group(1);
    let other = Group(2);
    let a = independent(&mut store, &other, "a", 5.0);
    let b = dependent(&mut store, &own, "b", binary(BinaryOp::Mul, Lam::Var(a), Lam::Num(3.0)));
    assert_eq!(evaluate(&mut store, &ieee), Ok(1));
    assert_eq!(store.get_value(&b), Ok(15.0));

    store.remove_group(&other);
    assert!(!store.contains(&a));
    assert_eq!(store.get_value(&a), Err(VariableError::UnknownQuantity(a)));
    let (waves, stuck) = stuck_of(evaluate(&mut store, &ieee));
    assert_eq!(waves, 1);
    assert_eq!(stuck, vec![b]);
    assert_eq!(store.get_value(&b), Ok(15.0));
    assert!(!store.is_ready(&b));
}

#[test]
fn removed_handles_stay_invalid_when_slots_are_reused() {
    let mut store = VariableList::new(0.0);
    let keep = Group(1);
    let drop = Group(2);
    let a = independent(&mut store, &drop, "a", 1.0);
    let b = independent(&mut store, &keep, "b", 2.0);
    let c = independent(&mut store, &drop, "c", 3.0);
    let reader = dependent(&mut store, &keep, "reader", Lam::Var(a));
    store.remove_group(&drop);
    assert_eq!(store.ids(), vec![b, reader]);

    let d = independent(&mut store, &keep, "d", 4.0);
    let e = independent(&mut store, &keep, "e", 5.0);
    let f = independent(&mut store, &keep, "f", 6.0);
    for fresh in [d, e, f] {
        assert_ne!(fresh, a);
        assert_ne!(fresh, c);
        assert!(store.contains(&fresh));
    }
    assert!(!store.contains(&a));
    assert!(!store.contains(&c));
    assert_eq!(store.ids().len(), 5);
    assert_eq!(store.get_value(&b), Ok(2.0));
    // The reader names the removed quantity, not the one that now sits in its slot.
    let (_, stuck) = stuck_of(evaluate(&mut store, &ieee));
    assert_eq!(stuck, vec![reader]);
}

#[test]
fn set_value_is_refused_on_dependents_and_unknown_handles() {
    let mut store = VariableList::new(0.0);
    let group = Group(0);
    let a = independent(&mut store, &group, "a", 1.0);
    let b = dependent(&mut store, &group, "b", Lam::Var(a));
    assert_eq!(store.set_value(&a, 2.0), Ok(()));
    assert_eq!(store.get_value(&a), Ok(2.0));
    assert_eq!(store.set_value(&b, 9.0), Err(VariableError::DependentQuantity(b)));
    assert_eq!(store.get_value(&b), Ok(0.0));
    let unknown = QuantityId { index: 7, generation: 0 };
    assert_eq!(store.set_value(&unknown, 1.0), Err(VariableError::UnknownQuantity(unknown)));
    let stale = QuantityId { index: 0, generation: 1 };
    assert_eq!(store.get_value(&stale), Err(VariableError::UnknownQuantity(stale)));
    assert!(!store.is_ready(&stale));
    assert!(store.variable(&stale).is_none());
    assert_eq!(store.group_of(&stale), None);
}

#[test]
fn get_entity_needs_exactly_one_match() {
    let mut store = VariableList::new(0.0);
    let g1 = Group(1);
    let g2 = Group(2);
    let freq = independent(&mut store, &g1, "freq", 2.0);
    let _dup1 = independent(&mut store, &g2, "amp", 1.0);
    let _dup2 = independent(&mut store, &g2, "amp", 2.0);
    assert_eq!(store.get_entity(&g1, "freq"), Ok(freq));
    assert_eq!(store.get_entity(&g1, "amp"), Err(VariableError::AmbiguousOrMissingRoleMatch));
    assert_eq!(store.get_entity(&g2, "amp"), Err(VariableError::AmbiguousOrMissingRoleMatch));
    assert_eq!(store.get_entity(&g2, "freq"), Err(VariableError::AmbiguousOrMissingRoleMatch));
    assert_eq!(store.get_entity(&Group(3), "freq"), Err(VariableError::AmbiguousOrMissingRoleMatch));
    store.remove_group(&g1);
    assert_eq!(store.get_entity(&g1, "freq"), Err(VariableError::AmbiguousOrMissingRoleMatch));
}

#[test]
fn division_and_modulo_by_zero_propagate() {
    let mut store = VariableList::new(0.0);
    let group = Group(0);
    let one = independent(&mut store, &group, "one", 1.0);
    let zero = independent(&mut store, &group, "zero", 0.0);
    let quotient = dependent(&mut store, &group, "q", binary(BinaryOp::Div, Lam::Var(one), Lam::Var(zero)));
    let remainder = dependent(&mut store, &group, "r", binary(BinaryOp::Mod, Lam::Var(one), Lam::Var(zero)));
    let onward = dependent(&mut store, &group, "o", binary(BinaryOp::Add, Lam::Var(remainder), Lam::Num(1.0)));
    assert_eq!(evaluate(&mut store, &ieee), Ok(2));
    assert_eq!(store.get_value(&quotient), Ok(f64::INFINITY));
    assert!(store.get_value(&remainder).unwrap().is_nan());
    assert!(store.get_value(&onward).unwrap().is_nan());
    assert!(store.is_ready(&onward));
}

#[test]
fn every_operator_is_handed_to_the_arithmetic() {
    let mut store = VariableList::new(0.0);
    let group = Group(0);
    let x = independent(&mut store, &group, "x", 7.5);
    let y = independent(&mut store, &group, "y", 2.0);
    let cases = [
        (BinaryOp::Add, 9.5),
        (BinaryOp::Sub, 5.5),
        (BinaryOp::Mul, 15.0),
        (BinaryOp::Div, 3.75),
        (BinaryOp::Mod, 1.5),
    ];
    for (op, expected) in cases {
        let equation = binary(op, Lam::Var(x), Lam::Var(y));
        assert_eq!(equation.get(&store, &ieee), Ok(expected));
    }
    assert_eq!(unary(UnaryOp::Sin, Lam::Var(y)).get(&store, &ieee), Ok(2.0f64.sin()));
    assert_eq!(unary(UnaryOp::Cos, Lam::Var(y)).get(&store, &ieee), Ok(2.0f64.cos()));
    assert_eq!(unary(UnaryOp::Tan, Lam::Var(y)).get(&store, &ieee), Ok(2.0f64.tan()));
    assert_eq!(Lam::Num(4.0).get(&store, &ieee), Ok(4.0));
    assert_eq!(Lam::Var(x).get(&store, &ieee), Ok(7.5));
}

#[test]
fn operands_keep_their_sides() {
    let store = VariableList::new(0.0);
    let record = |operation: Operation<f64>| match operation {
        Operation::Binary(_, a, b) => a * 10.0 + b,
        Operation::Unary(_, a) => -a,
    };
    let equation = binary(BinaryOp::Sub, Lam::Num(1.0), unary(UnaryOp::Sin, Lam::Num(2.0)));
    assert_eq!(equation.get(&store, &record), Ok(8.0));
}

#[test]
fn get_fails_at_the_first_unknown_reference() {
    let mut store = VariableList::new(0.0);
    let a = independent(&mut store, &Group(0), "a", 1.0);
    let first = QuantityId { index: 5, generation: 0 };
    let second = QuantityId { index: 6, generation: 0 };
    let equation = binary(
        BinaryOp::Add,
        binary(BinaryOp::Add, Lam::Var(a), Lam::Var(first)),
        unary(UnaryOp::Sin, Lam::Var(second)),
    );
    assert_eq!(equation.children(), vec![a, first, second]);
    assert_eq!(equation.get(&store, &ieee), Err(VariableError::UnknownQuantity(first)));
    let other = binary(BinaryOp::Add, Lam::Var(a), unary(UnaryOp::Sin, Lam::Var(second)));
    assert_eq!(other.get(&store, &ieee), Err(VariableError::UnknownQuantity(second)));
}

#[test]
fn children_lists_references_in_order_with_repeats() {
    let a = QuantityId { index: 0, generation: 0 };
    let b = QuantityId { index: 1, generation: 3 };
    let equation = binary(
        BinaryOp::Mul,
        binary(BinaryOp::Add, Lam::Var(b), Lam::Num(1.0)),
        unary(UnaryOp::Cos, binary(BinaryOp::Sub, Lam::Var(a), Lam::Var(b))),
    );
    assert_eq!(equation.children(), vec![b, a, b]);
    assert_eq!(Lam::<f64>::Num(1.0).children(), Vec::<QuantityId>::new());
}

#[test]
fn evaluation_without_devaluation_keeps_ready_values() {
    let mut store = VariableList::new(0.0);
    let group = Group(0);
    let a = independent(&mut store, &group, "a", 1.0);
    let b = dependent(&mut store, &group, "b", binary(BinaryOp::Add, Lam::Var(a), Lam::Num(1.0)));
    assert_eq!(evaluate_variables(&mut store, &ieee), Ok(1));
    assert_eq!(store.get_value(&b), Ok(2.0));
    assert_eq!(store.set_value(&a, 10.0), Ok(()));
    // Nothing is marked as not evaluated, so nothing is evaluated again.
    assert_eq!(evaluate_variables(&mut store, &ieee), Ok(0));
    assert_eq!(store.get_value(&b), Ok(2.0));
    devaluate_variables(&mut store);
    assert!(!store.is_ready(&b));
    assert!(store.is_ready(&a));
    assert_eq!(store.get_value(&b), Ok(2.0));
    assert_eq!(evaluate_variables(&mut store, &ieee), Ok(1));
    assert_eq!(store.get_value(&b), Ok(11.0));
}

#[test]
fn a_wave_sees_only_what_was_ready_before_it() {
    // `late` is stored before the quantity it reads. Were a wave to use the values it
    // has just computed, both would be done in one wave.
    let mut store = VariableList::new(0.0);
    let group = Group(0);
    let x = independent(&mut store, &group, "x", 1.0);
    let early = dependent(&mut store, &group, "early", binary(BinaryOp::Add, Lam::Var(x), Lam::Num(1.0)));
    let late = dependent(&mut store, &group, "late", binary(BinaryOp::Add, Lam::Var(early), Lam::Num(1.0)));
    assert_eq!(evaluate(&mut store, &ieee), Ok(2));
    assert_eq!(store.get_value(&late), Ok(3.0));
}
