//! Observation: the single read path that turns possibility into a value.
//! A projection is yielded only when the field's constraints admit the
//! point's coordinate. Observation takes the field and the point by shared
//! reference, so it cannot mutate either: its result is a pure function of
//! field, point and projector, and repeating it gives the same value.

use vstd::prelude::*;
use vstd::std_specs::cmp::PartialEqSpec;
use crate::coords::SpaceCoordinates;
use crate::field::{spec_targets, Field};
use crate::identity::Segment;
use crate::projector::Projector;

verus! {

/// What `observe` returns: the projection when the field admits the
/// coordinate, and nothing otherwise.
pub open spec fn spec_observe<P: Projector>(
    projector: &P,
    field: &Field,
    coords: Seq<i64>,
) -> Option<<P::Output as DeepView>::V> {
    if field.spec_allows(coords) {
        projector.spec_project(field, coords)
    } else {
        None
    }
}

/// Observe a point through a projector, gated by the field's constraints.
/// The result is determined by the arguments alone; nothing is cached and
/// nothing is mutated, so consecutive observations agree.
pub fn observe<P: Projector>(field: &Field, segment: &Segment, projector: &P) -> (r: Option<
    P::Output,
>)
    ensures
        r.deep_view() == spec_observe(projector, field, segment@),
{
    if field.allows(segment.coordinates()) {
        projector.project(field, segment)
    } else {
        None
    }
}

/// What `possible_next_coordinates` returns: the projector's intrinsic
/// adjacency followed by the field's transition targets, keeping those the
/// field admits.
pub open spec fn spec_possible_next<P: Projector>(
    projector: &P,
    field: &Field,
    coords: Seq<i64>,
) -> Seq<Seq<i64>> {
    (projector.spec_next(coords) + spec_targets(field.spec_transitions(), coords)).filter(
        |c: Seq<i64>| field.spec_allows(c),
    )
}

/// The coordinates one step away from a point: the union of the projector's
/// intrinsic adjacency and the field's transitions, filtered through the
/// field's constraints.
pub fn possible_next_coordinates<P: Projector>(
    field: &Field,
    segment: &Segment,
    projector: &P,
) -> (r: Vec<SpaceCoordinates>)
    ensures
        r@.map_values(|c: SpaceCoordinates| c@) == spec_possible_next(projector, field, segment@),
{
    let mut candidates = projector.possible_next_coordinates(segment.coordinates());
    let mut from_field = field.transition_targets(segment.coordinates());
    let ghost a = candidates@.map_values(|c: SpaceCoordinates| c@);
    let ghost b = from_field@.map_values(|c: SpaceCoordinates| c@);
    candidates.append(&mut from_field);
    proof {
        assert(candidates@.map_values(|c: SpaceCoordinates| c@) =~= a + b);
    }
    let ghost all = a + b;
    let n = candidates.len();
    let mut out: Vec<SpaceCoordinates> = Vec::new();
    proof {
        assert(all.take(0) =~= Seq::<Seq<i64>>::empty());
        assert(out@.map_values(|c: SpaceCoordinates| c@) =~= all.take(0).filter(
            |c: Seq<i64>| field.spec_allows(c),
        ));
    }
    let mut i: usize = 0;
    while i < n
        invariant
            n == candidates@.len(),
            all == candidates@.map_values(|c: SpaceCoordinates| c@),
            i <= n,
            out@.map_values(|c: SpaceCoordinates| c@) == all.take(i as int).filter(
                |c: Seq<i64>| field.spec_allows(c),
            ),
        decreases n - i,
    {
        proof {
            assert(all[i as int] == candidates@[i as int]@);
            assert(all.take(i + 1) =~= all.take(i as int).push(all[i as int]));
            all.take(i as int).lemma_filter_push(
                all[i as int],
                |c: Seq<i64>| field.spec_allows(c),
            );
        }
        let c = &candidates[i];
        if field.allows(c) {
            let ghost prev_out = out@;
            out.push(c.duplicate());
            proof {
                prev_out.lemma_push_map_commute(|c: SpaceCoordinates| c@, out@.last());
                assert(out@.map_values(|c: SpaceCoordinates| c@) =~= all.take(i + 1).filter(
                    |c: Seq<i64>| field.spec_allows(c),
                ));
            }
        }
        i += 1;
    }
    proof {
        assert(all.take(n as int) =~= all);
    }
    out
}

/// Observation purity: a projection yielded at all is yielded exactly when
/// the field admits the coordinate, and what observation returns never
/// depends on anything but the field, the coordinate and the projector.
pub proof fn lemma_observe_gated<P: Projector>(projector: &P, field: &Field, coords: Seq<i64>)
    ensures
        spec_observe(projector, field, coords) is Some ==> field.spec_allows(coords),
        !field.spec_allows(coords) ==> spec_observe(projector, field, coords) is None,
{
}

/// Compares projected values against an expectation.
pub trait Observer {
    type Value: DeepView;

    /// Whether this observer's equality reasoning is available.
    spec fn obeys_observe(&self) -> bool;

    /// What `observe` returns.
    spec fn spec_observe(&self, value: &Self::Value) -> bool;

    /// The text `describe` returns.
    spec fn spec_description(&self) -> Seq<char>;

    /// Whether the value meets the expectation.
    fn observe(&self, value: &Self::Value) -> (r: bool)
        ensures
            self.obeys_observe() ==> r == self.spec_observe(value),
    ;

    /// A human-readable account of the expectation.
    fn describe(&self) -> (r: String)
        ensures
            r@ == self.spec_description(),
    ;
}

/// An observer that expects one exact value.
#[derive(Debug)]
pub struct ValueObserver<T> {
    expected: T,
    description: String,
}

impl<T: PartialEq + DeepView> ValueObserver<T> {
    /// The expected value.
    pub closed spec fn spec_expected(&self) -> T {
        self.expected
    }

    pub fn new(expected: T, description: &str) -> (r: Self)
        ensures
            r.spec_expected() == expected,
            r.spec_description() == description@,
    {
        Self { expected, description: String::from_str(description) }
    }
}

impl<T: PartialEq + DeepView> Observer for ValueObserver<T> {
    type Value = T;

    open spec fn obeys_observe(&self) -> bool {
        T::obeys_eq_spec()
    }

    open spec fn spec_observe(&self, value: &T) -> bool {
        value.eq_spec(&self.spec_expected())
    }

    closed spec fn spec_description(&self) -> Seq<char> {
        self.description@
    }

    fn observe(&self, value: &T) -> (r: bool) {
        *value == self.expected
    }

    fn describe(&self) -> (r: String) {
        self.description.clone()
    }
}

} // verus!
