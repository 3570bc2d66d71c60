//! Core behavioural rules: observation is a condition rather than an input,
//! results are sets, one collapse admits many projections, constraints are
//! sets, and state spaces are immutable values.

use std::collections::HashSet;

use quasar::arith::observe as observe_tree_values;
use quasar::projector::Observer;
use quasar::statespace::{observe_space, observe_transitions};
use quasar::{ArithmeticConstraint, ArithmeticSpace, Branching, GrowthType, IntegerProjector, Magnitude, NextValues, OperationType};

#[test]
fn test_branching() {
    let mut space = Branching::new(3);
    space.compute_trajectories();

    let result = space.observe(3);
    assert!(result.is_some(), "observe(3) should find something");

    if let Some(values) = result {
        assert!(values.len() > 0, "Result must not be empty");
        println!("Test passed: results are set (size: {})", values.len());
    }
}

#[test]
fn test_different_projections() {
    let mut space = Branching::new(3);
    space.compute_trajectories();

    if let Some(collapsed) = space.observe(3) {
        let next = NextValues {};
        let growth = GrowthType {};

        let next_result = next.apply(&collapsed);
        let growth_result = growth.apply(&collapsed);

        assert_eq!(next_result.len(), collapsed.len());
        assert_eq!(growth_result.len(), collapsed.len());

        println!("Passed the test: multiple projection possible");
    }
}

#[test]
fn test_observation_is_not_input() {
    let mut space1 = Branching::new(0);
    space1.compute_trajectories();

    let result1 = space1.observe(2);

    println!(
        "Pass the test: observations are conditions, not calculations (result: {:?})",
        result1
    );
}

#[test]
fn rule_observation_is_not_input() {
    let space = ArithmeticSpace::create_in_range(3, 0, 20);
    let tree = space.generate_tree(50);

    let result1 = observe_tree_values(&tree, 3);
    let result2 = observe_tree_values(&tree, 3);

    assert_eq!(result1, result2, "observation must be deterministic");
    assert!(!result1.is_empty(), "the result must not be empty");

    println!("observation is a condition, not an input (result: {:?})", result1);
}

#[test]
fn rule_result_is_always_set() {
    for start in 0..5 {
        let space = ArithmeticSpace::create_in_range(start, 0, 30);
        let tree = space.generate_tree(30);
        let result = observe_tree_values(&tree, start);

        assert!(result.len() >= 1, "the result must hold at least one element");

        println!(" observe({}) -> {:?} (size: {})", start, result, result.len());
    }
    println!("the result is always a set");
}

#[test]
fn rule_single_collapse_multiple_projections() {
    let space = ArithmeticSpace::create_in_range(5, 0, 20);
    let tree = space.generate_tree(40);
    let collapsed = observe_tree_values(&tree, 5);

    assert!(!collapsed.is_empty(), "the collapse result must not be empty");
    println!("collapse result: {:?} (size: {})", collapsed, collapsed.len());

    let numeric = NextValues {}.apply(&collapsed);
    assert!(!numeric.is_empty(), "the projection result must not be empty");
    for s in &numeric {
        assert!(s.starts_with("Next: "), "each entry must start with 'Next: '");
    }
    println!(" numeric projection: {:?} (size: {})", numeric, numeric.len());

    let categorical = OperationType {}.apply(&collapsed);
    assert!(!categorical.is_empty(), "the projection result must not be empty");
    for s in &categorical {
        assert!(s == "even" || s == "odd", "each entry must be 'even' or 'odd'");
    }
    println!(
        " categorical projection: {:?} (size: {})",
        categorical,
        categorical.len()
    );

    let sized = Magnitude {}.apply(&collapsed);
    assert!(!sized.is_empty(), "the projection result must not be empty");
    for s in &sized {
        assert!(s == "large" || s == "small", "each entry must be 'large' or 'small'");
    }
    println!(" size projection: {:?} (size: {})", sized, sized.len());

    println!("one collapse admits multiple projections");
}

#[test]
fn rule_constraints_are_sets_not_sequences() {
    let constraints1 = HashSet::from([
        ArithmeticConstraint::InRange(0, 10),
        ArithmeticConstraint::Positive,
    ]);

    let constraints2 = HashSet::from([
        ArithmeticConstraint::Positive,
        ArithmeticConstraint::InRange(0, 10),
    ]);

    assert_eq!(constraints1, constraints2, "constraints form a set with no order");

    println!("constraints are an unordered set");
}

#[test]
fn rule_state_space_immutability() {
    let space1 = ArithmeticSpace::create(3);
    assert_eq!(space1.constraints.len(), 0, "the original state is unchanged");

    let space2 = space1.with_constraint(ArithmeticConstraint::InRange(0, 10));
    assert_eq!(space2.constraints.len(), 1, "a new instance is created");

    println!("the state space is immutable (a new instance is created)");
}

#[test]
fn duplicate_constraints_collapse() {
    let space = ArithmeticSpace::create(6)
        .with_constraint(ArithmeticConstraint::Even)
        .with_constraint(ArithmeticConstraint::Even);
    assert_eq!(space.constraints.len(), 1, "a repeated constraint is kept once");
}

#[test]
fn exploration_is_bounded_even_without_constraints() {
    // An unconstrained arithmetic space has an unbounded, cyclic transition
    // graph; the bound alone stops the traversal.
    let space = ArithmeticSpace::create(6);
    let tree = space.generate_tree(50);
    assert!(tree.len() <= 50);
    assert!(tree.len() >= 1);
    assert_eq!(tree[0].value, 6);

    let small = space.generate_tree(7);
    assert!(small.len() <= 7);

    let none = space.generate_tree(0);
    assert_eq!(none.len(), 0);
}

#[test]
fn growth_type_names_tendencies() {
    let values = vec![3i64, -2, 0];
    let grown = GrowthType {}.apply(&values);
    assert_eq!(grown, vec!["expanding", "contracting", "stable"]);
}

#[test]
fn next_values_renders_successors() {
    let values = vec![1i64, 9, -1];
    let next = NextValues {}.apply(&values);
    assert_eq!(next, vec!["Next: 2", "Next: 10", "Next: 0"]);
}

#[test]
fn observing_a_state_set_yields_a_set() {
    // Two equal states project to one value; a blocked state contributes
    // nothing; the result holds each value once.
    let states = vec![
        ArithmeticSpace::create_in_range(4, 0, 10),
        ArithmeticSpace::create_in_range(4, 0, 10),
        ArithmeticSpace::create_in_range(15, 0, 10),
        ArithmeticSpace::create(7),
    ];
    let mut values = observe_space(&states, &IntegerProjector::new(0));
    values.sort();
    assert_eq!(values, vec![4, 7]);
}

#[test]
fn observing_transitions_yields_a_set() {
    // From the state 1 the successors are 2, 0, 2 and 0; the repeats
    // collapse, so exactly two values come back.
    let states = vec![ArithmeticSpace::create_in_range(1, 0, 30)];
    let observer = Observer::new(IntegerProjector::new(0), 1i64);
    let mut values = observe_transitions(&states, &observer);
    values.sort();
    assert_eq!(values, vec![0, 2]);

    // A state the observer does not recognise contributes nothing.
    let other = vec![ArithmeticSpace::create_in_range(5, 0, 30)];
    let values = observe_transitions(&other, &observer);
    assert!(values.is_empty());
}

#[test]
fn exploration_is_complete_below_the_bound() {
    // Every value of 0..=20 is reachable from 3 under the range constraint,
    // and the bound of 50 is never hit, so the tree holds exactly them.
    let tree = ArithmeticSpace::create_in_range(3, 0, 20).generate_tree(50);
    let mut values: Vec<i64> = tree.iter().map(|s| s.value).collect();
    values.sort();
    assert_eq!(values, (0..=20).collect::<Vec<i64>>());
}

#[test]
fn trajectories_cover_the_near_neighbourhood() {
    let mut space = Branching::new(2);
    space.compute_trajectories();
    let trajectories = space.trajectories();
    // Everything one hop away is collected, and the start itself.
    for v in [2i64, 3, 1, 4] {
        assert!(trajectories.contains(&v));
    }
}
