//! Fields, observation and constrained exploration: the mutable overlay
//! filters what is actual, observation is pure, and traversal stays inside
//! its bounds even on cyclic transition graphs.

use quasar::constraint::Constraint;
use quasar::observe::ValueObserver;
use quasar::projector::Observer;
use quasar::statefield::{compose_fields, observe_field, observe_tree, StateField};
use quasar::{
    observe, possible_next_coordinates, ArithmeticProjector, BooleanProjector, ConstraintKind,
    ConstraintSet, CoordinateProjector, EvenConstraint, Field, IntegerProjector,
    MultiAxisProjector, ParityProjector, RangeConstraint, RangeProjector, Segment,
    SpaceCoordinates, TransitionMatrix,
};

fn range(axis: usize, min: i64, max: i64) -> ConstraintKind {
    ConstraintKind::Range(RangeConstraint::new(axis, min, max))
}

fn even(axis: usize) -> ConstraintKind {
    ConstraintKind::Even(EvenConstraint::new(axis))
}

#[test]
fn field_constraints_filter_coordinates() {
    let mut field = Field::new();
    field.add_constraint(range(0, 0, 10));
    field.add_constraint(even(0));

    assert!(field.allows(&SpaceCoordinates::new(vec![4, 3, 100])));
    assert!(!field.allows(&SpaceCoordinates::new(vec![15, 3, 0])));
    assert!(!field.allows(&SpaceCoordinates::new(vec![3, 2, 0])));
}

#[test]
fn adding_a_constraint_never_widens() {
    let mut field = Field::new();
    field.add_constraint(range(0, 0, 10));

    let probes: Vec<Vec<i64>> = vec![vec![0], vec![3], vec![4], vec![10], vec![11], vec![-2]];
    let before: Vec<bool> = probes
        .iter()
        .map(|p| field.allows(&SpaceCoordinates::new(p.clone())))
        .collect();

    field.add_constraint(even(0));

    for (p, was_allowed) in probes.iter().zip(before.iter()) {
        let now_allowed = field.allows(&SpaceCoordinates::new(p.clone()));
        if now_allowed {
            assert!(was_allowed, "a coordinate allowed after must have been allowed before");
        }
    }
}

#[test]
fn constraint_descriptions() {
    assert_eq!(RangeConstraint::new(0, 0, 10).describe(), "axis[0] in [0, 10]");
    assert_eq!(EvenConstraint::new(2).describe(), "axis[2] is even");

    let mut set = ConstraintSet::new();
    assert_eq!(set.describe(), "no constraints");
    set.add(range(0, -5, 5));
    set.add(even(1));
    assert_eq!(set.describe(), "axis[0] in [-5, 5], axis[1] is even");
}

#[test]
fn transitions_are_recorded_and_queried() {
    let mut field = Field::new();
    let from = SpaceCoordinates::new(vec![1, 2, 3]);
    let to = SpaceCoordinates::new(vec![2, 2, 3]);
    field.add_transition(from.duplicate(), to.duplicate(), 1);

    let targets = field.transition_targets(&from);
    assert_eq!(targets.len(), 1);
    assert_eq!(targets[0].raw, vec![2, 2, 3]);
    assert_eq!(field.transition_weight(&from, &to), Some(1));
    assert_eq!(field.transition_weight(&to, &from), None);

    let mut matrix = TransitionMatrix::new();
    let origin = SpaceCoordinates::new(vec![0]);
    matrix.add(origin.duplicate(), SpaceCoordinates::new(vec![1]), 8);
    matrix.add(origin.duplicate(), SpaceCoordinates::new(vec![2]), 2);
    let targets = matrix.transitions_from(&origin);
    assert_eq!(targets.len(), 2);
    assert!(targets.iter().any(|c| c.raw == vec![1]));
    assert!(targets.iter().any(|c| c.raw == vec![2]));
}

#[test]
fn observation_is_gated_by_constraints() {
    let mut field = Field::new();
    field.add_constraint(range(0, 0, 10));
    let projector = IntegerProjector::new(0);

    let seg = Segment::from_value(5);
    assert_eq!(observe(&field, &seg, &projector), Some(5));

    let outside = Segment::from_value(15);
    assert_eq!(observe(&field, &outside, &projector), None);
}

#[test]
fn observation_is_pure() {
    let mut field = Field::new();
    field.add_constraint(range(0, 0, 10));
    let projector = ParityProjector;
    let seg = Segment::from_value(4);

    let allowed_before = field.allows(seg.coordinates());
    let first = observe(&field, &seg, &projector);
    let second = observe(&field, &seg, &projector);
    assert_eq!(first, second);
    assert_eq!(first, Some(String::from("even")));
    assert_eq!(field.allows(seg.coordinates()), allowed_before);
}

#[test]
fn projected_meanings_differ_by_projector() {
    let field = Field::new();
    let seg = Segment::from_value(7);

    assert_eq!(observe(&field, &seg, &IntegerProjector::new(0)), Some(7));
    assert_eq!(observe(&field, &seg, &ParityProjector), Some(String::from("odd")));
    assert_eq!(observe(&field, &seg, &ArithmeticProjector), Some(7));
}

#[test]
fn possible_next_respects_constraints() {
    let mut field = Field::new();
    field.add_constraint(range(0, 0, 20));
    field.add_constraint(even(0));
    let seg = Segment::from_value(6);

    let next = possible_next_coordinates(&field, &seg, &ArithmeticProjector);
    let values: Vec<i64> = next.iter().map(|c| c.raw[0]).collect();
    // Of 7, 5, 12 and 3, only the doubled value is even and in range.
    assert_eq!(values, vec![12]);
}

#[test]
fn observers_compare_against_expectations() {
    let observer = Observer::new(IntegerProjector::new(0), 5i64);
    assert_eq!(observer.observe(&SpaceCoordinates::new(vec![5])), Some(true));
    assert_eq!(observer.observe(&SpaceCoordinates::new(vec![6])), Some(false));
    assert_eq!(observer.observe(&SpaceCoordinates::new(vec![])), None);

    let checker = ValueObserver::new(7i64, "expects seven");
    assert!(quasar::observe::Observer::observe(&checker, &7));
    assert!(!quasar::observe::Observer::observe(&checker, &8));
    assert_eq!(quasar::observe::Observer::describe(&checker), "expects seven");
}

#[test]
fn state_field_explores_within_depth() {
    // The worked example: start at 6 with arithmetic transitions, allow
    // only even values between 0 and 20, explore two hops. Exactly the
    // admissible values reachable within two hops come back, and the
    // cyclic transitions (6 doubles to 12, 12 halves back to 6) do not
    // loop the traversal.
    let mut matrix_rows: Vec<(i64, Vec<i64>)> = Vec::new();
    for &v in &[6i64, 12, 3, 24] {
        matrix_rows.push((v, vec![v + 1, v - 1, v * 2, v / 2]));
    }

    let mut field = StateField::new(Segment::from_value(6));
    for (from, tos) in matrix_rows {
        for to in tos {
            field = field.with_transition(
                SpaceCoordinates::new(vec![from]),
                SpaceCoordinates::new(vec![to]),
                1,
            );
        }
    }
    let field = field.with_constraint(even(0)).with_constraint(range(0, 0, 20));

    let tree = field.generate_tree(2);
    let mut values: Vec<i64> = tree.iter().map(|s| s.coordinates().raw[0]).collect();
    values.sort();
    assert_eq!(values, vec![6, 12]);

    // The same exploration, one hop deeper, still terminates and still
    // yields only admissible values.
    let deeper = field.generate_tree(5);
    for state in deeper.iter().skip(1) {
        let v = state.coordinates().raw[0];
        assert!(v % 2 == 0 && (0..=20).contains(&v));
    }
}

#[test]
fn state_field_observation() {
    let field = StateField::new(Segment::from_value(4)).with_constraint(range(0, 0, 10));
    assert_eq!(observe_field(&field, &IntegerProjector::new(0)), Some(4));

    let blocked = StateField::new(Segment::from_value(40)).with_constraint(range(0, 0, 10));
    assert_eq!(observe_field(&blocked, &IntegerProjector::new(0)), None);

    assert!(field.is_allowed());
    assert!(!blocked.is_allowed());

    let composition = compose_fields(&field, &blocked);
    assert!(composition.space1_allowed);
    assert!(!composition.space2_allowed);
    assert!(!composition.both_allowed);
    assert_eq!(composition.compatibility, "Incompatible");
}

#[test]
fn observe_tree_deduplicates_by_value() {
    // Two coordinates on the tree project to the same parity, so the
    // projected set collapses them.
    let field = StateField::new(Segment::from_value(6))
        .with_transition(
            SpaceCoordinates::new(vec![6]),
            SpaceCoordinates::new(vec![8]),
            1,
        )
        .with_transition(
            SpaceCoordinates::new(vec![6]),
            SpaceCoordinates::new(vec![10]),
            1,
        )
        .with_constraint(even(0));

    let values = observe_tree(&field, &ParityProjector, 3);
    assert_eq!(values, vec![String::from("even")]);

    let numbers = observe_tree(&field, &IntegerProjector::new(0), 3);
    let mut numbers_sorted = numbers.clone();
    numbers_sorted.sort();
    assert_eq!(numbers_sorted, vec![6, 8, 10]);
}

#[test]
fn coordinate_projectors_read_components() {
    let coords = SpaceCoordinates::new(vec![1, 2, 3]);

    let multi = MultiAxisProjector::new(vec![0, 2], "-");
    assert!(multi.can_project(&coords));
    assert_eq!(multi.project_coordinates(&coords), Some(String::from("1-3")));

    let sparse = MultiAxisProjector::new(vec![0, 9], ", ");
    assert!(!sparse.can_project(&coords));
    assert_eq!(sparse.project_coordinates(&coords), Some(String::from("1")));

    let nothing = MultiAxisProjector::new(vec![7], "-");
    assert_eq!(nothing.project_coordinates(&coords), None);

    let negatives = MultiAxisProjector::new(vec![0, 1], "|");
    let negative_coords = SpaceCoordinates::new(vec![-4, 17]);
    assert_eq!(
        negatives.project_coordinates(&negative_coords),
        Some(String::from("-4|17"))
    );

    let boolean = BooleanProjector::standard();
    assert_eq!(boolean.project_coordinates(&SpaceCoordinates::new(vec![1])), Some(true));
    assert_eq!(boolean.project_coordinates(&SpaceCoordinates::new(vec![0])), Some(false));
    assert_eq!(boolean.project_coordinates(&SpaceCoordinates::new(vec![5])), None);
    assert!(!boolean.can_project(&SpaceCoordinates::new(vec![5])));

    let ranged = RangeProjector::new(0, 0, 10);
    assert_eq!(ranged.project_coordinates(&SpaceCoordinates::new(vec![5])), Some(true));
    assert_eq!(ranged.project_coordinates(&SpaceCoordinates::new(vec![50])), Some(false));

    let unsupported = quasar::ConstraintSatisfactionProjector;
    assert_eq!(unsupported.project_coordinates(&coords), None);
    assert!(!unsupported.can_project(&coords));
}
