use variables::binding::VarBinding;
use variables::error::VariableError;
use variables::group::Group;
use variables::lambda::{BinaryOp, Lam, Operation, UnaryOp};
use variables::pages::{movement, Page};
use variables::quantity::QuantityId;
use variables::schedule::evaluate;
use variables::list::VariableList;
use variables::sum::Sum;
use variables::tracker::BoundTracker;
use variables::variable::{dependent, independent, Variable};

fn arithmetic(operation: Operation<f64>) -> f64 {
    match operation {
        Operation::Binary(BinaryOp::Add, a, b) => a + b,
        Operation::Binary(BinaryOp::Sub, a, b) => a - b,
        Operation::Binary(BinaryOp::Mul, a, b) => a * b,
        Operation::Binary(BinaryOp::Div, a, b) => a / b,
        Operation::Binary(BinaryOp::Mod, a, b) => a % b,
        Operation::Unary(UnaryOp::Sin, a) => a.sin(),
        Operation::Unary(UnaryOp::Cos, a) => a.cos(),
        Operation::Unary(UnaryOp::Tan, a) => a.tan(),
    }
}

fn plus(lhs: Lam<f64>, rhs: Lam<f64>) -> Lam<f64> {
    Lam::Binary(BinaryOp::Add, Box::new(lhs), Box::new(rhs))
}

#[test]
fn variable_reports_its_state() {
    let independent = Variable::Independent { value: 2.5 };
    assert!(independent.recalculated());
    assert_eq!(independent.value(), 2.5);
    assert_eq!(independent.equation(), Lam::Num(2.5));
    assert_eq!(independent.children(), Vec::<QuantityId>::new());

    let id = QuantityId { index: 3, generation: 1 };
    let dependent = Variable::Dependent {
        value: 1.0,
        recalculated: false,
        equation: plus(Lam::Var(id), Lam::Num(1.0)),
    };
    assert!(!dependent.recalculated());
    assert_eq!(dependent.value(), 1.0);
    assert_eq!(dependent.equation(), plus(Lam::Var(id), Lam::Num(1.0)));
    assert_eq!(dependent.children(), vec![id]);
}

#[test]
fn variable_setters_change_one_thing() {
    let id = QuantityId { index: 0, generation: 0 };
    let mut dependent = Variable::Dependent { value: 1.0, recalculated: false, equation: Lam::Var(id) };
    dependent.set_recalculated(true);
    assert_eq!(
        dependent,
        Variable::Dependent { value: 1.0, recalculated: true, equation: Lam::Var(id) }
    );
    dependent.set_value(4.0);
    assert_eq!(
        dependent,
        Variable::Dependent { value: 4.0, recalculated: true, equation: Lam::Var(id) }
    );
    dependent.set_recalculated(false);
    assert!(!dependent.recalculated());

    let mut independent = Variable::Independent { value: 1.0 };
    independent.set_recalculated(false);
    assert!(independent.recalculated());
    assert_eq!(independent, Variable::Independent { value: 1.0 });
    independent.set_value(-3.0);
    assert_eq!(independent, Variable::Independent { value: -3.0 });
}

#[test]
fn calculate_takes_the_value_of_the_equation() {
    let mut store = VariableList::new(0.0);
    let a = independent(&mut store, &Group(0), "a", 20.0);
    let mut variable = Variable::Dependent {
        value: 0.0,
        recalculated: false,
        equation: plus(Lam::Var(a), Lam::Num(2.0)),
    };
    assert_eq!(variable.calculate(&store, &arithmetic), Ok(()));
    assert_eq!(
        variable,
        Variable::Dependent {
            value: 22.0,
            recalculated: true,
            equation: plus(Lam::Var(a), Lam::Num(2.0)),
        }
    );

    let missing = QuantityId { index: 9, generation: 0 };
    let mut broken = Variable::Dependent { value: 5.0, recalculated: false, equation: Lam::Var(missing) };
    assert_eq!(
        broken.calculate(&store, &arithmetic),
        Err(VariableError::UnknownQuantity(missing))
    );
    assert_eq!(
        broken,
        Variable::Dependent { value: 5.0, recalculated: false, equation: Lam::Var(missing) }
    );

    let mut plain = Variable::Independent { value: 1.0 };
    assert_eq!(plain.calculate(&store, &arithmetic), Ok(()));
    assert_eq!(plain, Variable::Independent { value: 1.0 });
}

#[test]
fn constructors_box_their_operands() {
    let id = QuantityId { index: 1, generation: 2 };
    assert_eq!(
        Lam::binary(BinaryOp::Div, Lam::Var(id), Lam::Num(2.0)),
        Lam::Binary(BinaryOp::Div, Box::new(Lam::Var(id)), Box::new(Lam::Num(2.0)))
    );
    assert_eq!(
        Lam::unary(UnaryOp::Cos, Lam::Num(2.0)),
        Lam::Unary(UnaryOp::Cos, Box::new(Lam::Num(2.0)))
    );
    assert_eq!(Variable::independent(1.5), Variable::Independent { value: 1.5 });
    assert_eq!(
        Variable::dependent(Lam::Var(id), -1.0),
        Variable::Dependent { value: -1.0, recalculated: false, equation: Lam::Var(id) }
    );
}

#[test]
fn clone_of_an_expression_is_equal() {
    let id = QuantityId { index: 1, generation: 2 };
    let equation = Lam::Binary(
        BinaryOp::Mod,
        Box::new(plus(Lam::Var(id), Lam::Num(1.0))),
        Box::new(Lam::Unary(UnaryOp::Tan, Box::new(Lam::Num(0.5)))),
    );
    assert_eq!(equation.clone(), equation);
}

#[test]
fn store_hands_out_what_was_inserted() {
    let mut store = VariableList::new(0.0);
    let id = store.insert(&Group(4), "given", Variable::Independent { value: 6.0 });
    assert!(store.contains(&id));
    assert_eq!(store.variable(&id), Some(&Variable::Independent { value: 6.0 }));
    assert_eq!(store.group_of(&id), Some(Group(4)));
    assert_eq!(store.name_of(&id), Some(String::from("given")));
    assert_eq!(store.name_of(&QuantityId { index: 1, generation: 0 }), None);
    assert_eq!(store.ids(), vec![id]);
    assert_eq!(store.get(&Group(4), "given"), Ok(6.0));
    assert_eq!(store.get(&Group(4), "other"), Err(VariableError::AmbiguousOrMissingRoleMatch));
    assert_eq!(store.get(&Group(5), "given"), Err(VariableError::AmbiguousOrMissingRoleMatch));
}

#[test]
fn ids_come_in_slot_order() {
    let mut store = VariableList::new(0.0);
    let a = independent(&mut store, &Group(1), "a", 1.0);
    let b = independent(&mut store, &Group(2), "b", 2.0);
    let c = independent(&mut store, &Group(1), "c", 3.0);
    assert_eq!(store.ids(), vec![a, b, c]);
    assert_eq!((a.index, b.index, c.index), (0, 1, 2));
    store.remove_group(&Group(2));
    assert_eq!(store.ids(), vec![a, c]);
    let d = independent(&mut store, &Group(3), "d", 4.0);
    assert_eq!(d, QuantityId { index: 1, generation: 1 });
    assert_eq!(store.ids(), vec![a, d, c]);
}

#[test]
fn removing_a_group_removes_only_that_group() {
    let mut store = VariableList::new(0.0);
    let a = independent(&mut store, &Group(1), "a", 1.0);
    let b = independent(&mut store, &Group(2), "b", 2.0);
    store.remove_group(&Group(7));
    assert_eq!(store.ids(), vec![a, b]);
    store.remove_group(&Group(1));
    assert_eq!(store.ids(), vec![b]);
    assert_eq!(store.get_value(&b), Ok(2.0));
    store.remove_group(&Group(1));
    assert_eq!(store.ids(), vec![b]);
}

#[test]
fn unused_group_is_the_first_free_number() {
    let mut store = VariableList::new(0.0);
    assert_eq!(store.unused_group(8), Some(Group(8)));
    independent(&mut store, &Group(8), "a", 1.0);
    independent(&mut store, &Group(9), "b", 1.0);
    independent(&mut store, &Group(11), "c", 1.0);
    independent(&mut store, &Group(2), "d", 1.0);
    assert!(store.uses_group(&Group(9)));
    assert!(!store.uses_group(&Group(10)));
    assert_eq!(store.unused_group(8), Some(Group(10)));
    assert_eq!(store.unused_group(11), Some(Group(12)));
    assert_eq!(store.unused_group(0), Some(Group(0)));
    assert_eq!(store.unused_group(2), Some(Group(3)));
    store.remove_group(&Group(8));
    assert_eq!(store.unused_group(8), Some(Group(8)));
    independent(&mut store, &Group(usize::MAX), "last", 1.0);
    assert_eq!(store.unused_group(usize::MAX), None);
    assert_eq!(store.unused_group(usize::MAX - 1), Some(Group(usize::MAX - 1)));
}

#[test]
fn sum_list_grows_and_shrinks() {
    let a = QuantityId { index: 0, generation: 0 };
    let b = QuantityId { index: 1, generation: 0 };
    let b_again = QuantityId { index: 1, generation: 1 };
    let mut sum = Sum(Vec::new());
    sum.add(a);
    sum.add(b);
    sum.add(a);
    sum.add(b_again);
    assert_eq!(sum.children(), vec![a, b, a, b_again]);
    sum.remove(a);
    assert_eq!(sum, Sum(vec![b, b_again]));
    sum.remove(a);
    assert_eq!(sum, Sum(vec![b, b_again]));
    sum.remove(b);
    assert_eq!(sum.children(), vec![b_again]);
}

#[test]
fn sum_adds_from_the_left() {
    let mut store = VariableList::new(0.0);
    let group = Group(0);
    let a = independent(&mut store, &group, "a", 1e16);
    let b = independent(&mut store, &group, "b", 1.0);
    let c = independent(&mut store, &group, "c", 1.0);
    let sum = Sum(vec![a, b, c]);
    // Each 1.0 is lost against 1e16 when it is added alone.
    assert_eq!(sum.get(0.0, &store, &arithmetic), Ok(1e16));
    assert_eq!(Sum(vec![b, c, a]).get(0.0, &store, &arithmetic), Ok(1e16 + 2.0));
    assert_eq!(Sum(vec![b, c]).get(10.0, &store, &arithmetic), Ok(12.0));
    assert_eq!(Sum(Vec::new()).get(0.0, &store, &arithmetic), Ok(0.0));

    let equation = sum.equation(0.0);
    assert_eq!(
        equation,
        plus(plus(plus(Lam::Num(0.0), Lam::Var(a)), Lam::Var(b)), Lam::Var(c))
    );
    assert_eq!(equation.children(), vec![a, b, c]);
    assert_eq!(equation.get(&store, &arithmetic), Ok(1e16));
    assert_eq!(Sum(Vec::new()).equation(3.0), Lam::Num(3.0));
}

#[test]
fn sum_fails_at_the_first_unknown_quantity() {
    let mut store = VariableList::new(0.0);
    let a = independent(&mut store, &Group(0), "a", 1.0);
    let first = QuantityId { index: 5, generation: 0 };
    let second = QuantityId { index: 6, generation: 0 };
    assert_eq!(
        Sum(vec![a, first, second]).get(0.0, &store, &arithmetic),
        Err(VariableError::UnknownQuantity(first))
    );
}

#[test]
fn sum_as_a_dependent_quantity() {
    let mut store = VariableList::new(0.0);
    let group = Group(0);
    let a = independent(&mut store, &group, "a", 1.5);
    let b = dependent(&mut store, &group, "b", plus(Lam::Var(a), Lam::Num(1.0)));
    let total = dependent(&mut store, &group, "total", Sum(vec![a, b, b]).equation(0.0));
    assert_eq!(evaluate(&mut store, &arithmetic), Ok(2));
    assert_eq!(store.get_value(&total), Ok(6.5));
}

#[test]
fn tracker_keeps_the_newest_values_first() {
    let id = QuantityId { index: 0, generation: 0 };
    let mut tracker = BoundTracker::new(VarBinding::new(id, 1.0), 3);
    assert_eq!(tracker.history, Vec::<f64>::new());
    assert_eq!(tracker.max_length, 3);
    assert_eq!(tracker.target, VarBinding::new(id, 1.0));
    tracker.track();
    assert_eq!(tracker.history, vec![1.0]);
    tracker.target.value = 2.0;
    tracker.track();
    tracker.target.value = 3.0;
    tracker.track();
    assert_eq!(tracker.history, vec![3.0, 2.0, 1.0]);
    tracker.target.value = 4.0;
    tracker.track();
    assert_eq!(tracker.history, vec![4.0, 3.0, 2.0]);
}

#[test]
fn tracker_without_room_keeps_nothing() {
    let id = QuantityId { index: 0, generation: 0 };
    let mut tracker = BoundTracker::new(VarBinding::new(id, 1.0), 0);
    tracker.track();
    assert_eq!(tracker.history, Vec::<f64>::new());
}

#[test]
fn tracker_that_is_too_long_loses_one_value_at_a_time() {
    let id = QuantityId { index: 0, generation: 0 };
    let mut tracker = BoundTracker {
        target: VarBinding::new(id, 9.0),
        history: vec![1.0, 2.0, 3.0, 4.0],
        max_length: 2,
    };
    tracker.track();
    assert_eq!(tracker.history, vec![9.0, 1.0, 2.0, 3.0]);
}

#[test]
fn pages_stop_at_both_ends() {
    let mut page = Page { current_page: 1, num_pages: 4 };
    page.turn(1);
    assert_eq!(page, Page { current_page: 2, num_pages: 4 });
    page.turn(-1);
    page.turn(-1);
    assert_eq!(page.current_page, 1);
    page.turn(7);
    assert_eq!(page.current_page, 4);
    page.turn(0);
    assert_eq!(page.current_page, 4);
    page.turn(isize::MAX);
    assert_eq!(page.current_page, 4);
    page.turn(isize::MIN);
    assert_eq!(page.current_page, 1);

    let mut none = Page { current_page: 1, num_pages: 0 };
    none.turn(1);
    assert_eq!(none.current_page, 0);

    let mut far = Page { current_page: isize::MAX, num_pages: 3 };
    far.turn(1);
    assert_eq!(far.current_page, 3);
}

#[test]
fn keys_give_the_movement() {
    assert_eq!(movement(false, false), 0);
    assert_eq!(movement(true, false), 1);
    assert_eq!(movement(false, true), -1);
    assert_eq!(movement(true, true), 0);
}

#[test]
fn set_by_name_reaches_the_one_independent_quantity() {
    let mut store = VariableList::new(0.0);
    let a = independent(&mut store, &Group(1), "freq", 2.0);
    let b = dependent(&mut store, &Group(1), "theta", Lam::Var(a));
    let other = independent(&mut store, &Group(2), "freq", 3.0);
    assert_eq!(store.set(&Group(1), "freq", 5.0), Ok(()));
    assert_eq!(store.get_value(&a), Ok(5.0));
    assert_eq!(store.get_value(&other), Ok(3.0));
    assert_eq!(store.set(&Group(1), "theta", 5.0), Err(VariableError::DependentQuantity(b)));
    assert_eq!(store.get_value(&b), Ok(0.0));
    assert_eq!(
        store.set(&Group(3), "freq", 5.0),
        Err(VariableError::AmbiguousOrMissingRoleMatch)
    );
    independent(&mut store, &Group(2), "freq", 4.0);
    assert_eq!(
        store.set(&Group(2), "freq", 5.0),
        Err(VariableError::AmbiguousOrMissingRoleMatch)
    );
    assert_eq!(store.get_value(&other), Ok(3.0));
}
