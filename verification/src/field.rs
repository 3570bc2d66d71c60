//! The Field: the only mutable layer. It overlays a live constraint set and a
//! weighted transition relation on an immutable space of points, and owns no
//! point itself.

use vstd::prelude::*;
use crate::constraint::{
    set_allows, set_description, ConstraintKind, ConstraintSet, lemma_constraint_monotonic,
};
use crate::coords::SpaceCoordinates;

verus! {

/// One weighted, directed transition between coordinates, as (from, to,
/// weight).
pub type TransitionView = (Seq<i64>, Seq<i64>, i64);

/// The transition targets reachable from `from` in declaration order.
pub open spec fn spec_targets(ts: Seq<TransitionView>, from: Seq<i64>) -> Seq<Seq<i64>> {
    ts.filter(|t: TransitionView| t.0 == from).map_values(|t: TransitionView| t.1)
}

/// The weight of the first transition declared from `from` to `to`.
pub open spec fn spec_weight(ts: Seq<TransitionView>, from: Seq<i64>, to: Seq<i64>) -> Option<i64>
    decreases ts.len(),
{
    if ts.len() == 0 {
        None
    } else if ts[0].0 == from && ts[0].1 == to {
        Some(ts[0].2)
    } else {
        spec_weight(ts.drop_first(), from, to)
    }
}

/// Relational topology: a weighted directed graph over coordinates.
#[derive(Clone, Debug)]
pub struct TransitionMatrix {
    transitions: Vec<(SpaceCoordinates, SpaceCoordinates, i64)>,
}

impl View for TransitionMatrix {
    type V = Seq<TransitionView>;

    closed spec fn view(&self) -> Seq<TransitionView> {
        self.transitions@.map_values(|t: (SpaceCoordinates, SpaceCoordinates, i64)| (t.0@, t.1@, t.2))
    }
}

impl TransitionMatrix {
    /// The empty transition relation.
    pub fn new() -> (r: Self)
        ensures
            r@ == Seq::<TransitionView>::empty(),
    {
        let r = Self { transitions: Vec::new() };
        proof {
            assert(r@ =~= Seq::<TransitionView>::empty());
        }
        r
    }

    /// Add one transition from `from` to `to` with the given weight.
    pub fn add(&mut self, from: SpaceCoordinates, to: SpaceCoordinates, weight: i64)
        ensures
            final(self)@ == old(self)@.push((from@, to@, weight)),
    {
        let ghost fv = from@;
        let ghost tv = to@;
        self.transitions.push((from, to, weight));
        proof {
            assert(final(self)@ =~= old(self)@.push((fv, tv, weight)));
        }
    }

    /// All transition targets from a coordinate, in declaration order.
    pub fn transitions_from(&self, from: &SpaceCoordinates) -> (r: Vec<SpaceCoordinates>)
        ensures
            r@.map_values(|c: SpaceCoordinates| c@) == spec_targets(self@, from@),
    {
        let n = self.transitions.len();
        let mut out: Vec<SpaceCoordinates> = Vec::new();
        proof {
            assert(self@.take(0) =~= Seq::<TransitionView>::empty());
            assert(out@.map_values(|c: SpaceCoordinates| c@) =~= spec_targets(
                self@.take(0),
                from@,
            ));
        }
        let mut i: usize = 0;
        while i < n
            invariant
                n == self.transitions@.len(),
                self@.len() == n,
                i <= n,
                out@.map_values(|c: SpaceCoordinates| c@) == spec_targets(
                    self@.take(i as int),
                    from@,
                ),
            decreases n - i,
        {
            proof {
                assert(self@[i as int] == (
                    self.transitions@[i as int].0@,
                    self.transitions@[i as int].1@,
                    self.transitions@[i as int].2,
                ));
                assert(self@.take(i + 1) =~= self@.take(i as int).push(self@[i as int]));
                self@.take(i as int).lemma_filter_push(
                    self@[i as int],
                    |t: TransitionView| t.0 == from@,
                );
            }
            let t = &self.transitions[i];
            if t.0.same_as(from) {
                let ghost prev_out = out@;
                let c = t.1.duplicate();
                out.push(c);
                proof {
                    prev_out.lemma_push_map_commute(|c: SpaceCoordinates| c@, out@.last());
                    self@.take(i as int).filter(
                        |t: TransitionView| t.0 == from@,
                    ).lemma_push_map_commute(|t: TransitionView| t.1, self@[i as int]);
                    assert(out@.map_values(|c: SpaceCoordinates| c@) =~= spec_targets(
                        self@.take(i + 1),
                        from@,
                    ));
                }
            } else {
                proof {
                    assert(out@.map_values(|c: SpaceCoordinates| c@) =~= spec_targets(
                        self@.take(i + 1),
                        from@,
                    ));
                }
            }
            i += 1;
        }
        proof {
            assert(self@.take(n as int) =~= self@);
        }
        out
    }

    /// The weight of the first transition from `from` to `to`, if any.
    pub fn get_weight(&self, from: &SpaceCoordinates, to: &SpaceCoordinates) -> (r: Option<i64>)
        ensures
            r == spec_weight(self@, from@, to@),
    {
        let n = self.transitions.len();
        let mut i: usize = 0;
        proof {
            assert(self@.skip(0) =~= self@);
        }
        while i < n
            invariant
                n == self.transitions@.len(),
                self@.len() == n,
                i <= n,
                spec_weight(self@, from@, to@) == spec_weight(self@.skip(i as int), from@, to@),
            decreases n - i,
        {
            proof {
                assert(self@[i as int] == (
                    self.transitions@[i as int].0@,
                    self.transitions@[i as int].1@,
                    self.transitions@[i as int].2,
                ));
                assert(self@.skip(i as int)[0] == self@[i as int]);
                assert(self@.skip(i as int).drop_first() =~= self@.skip(i + 1));
            }
            let t = &self.transitions[i];
            if t.0.same_as(from) && t.1.same_as(to) {
                return Some(t.2);
            }
            i += 1;
        }
        proof {
            assert(self@.skip(n as int) =~= Seq::<TransitionView>::empty());
        }
        None
    }
}

/// The mutable substrate of a session: live constraints plus relational
/// topology. A Field never owns a point; two Fields over the same points do
/// not interfere.
#[derive(Clone, Debug)]
pub struct Field {
    constraints: ConstraintSet,
    transitions: TransitionMatrix,
}

impl Field {
    /// The constraints the field currently holds.
    pub closed spec fn spec_constraints(&self) -> Seq<ConstraintKind> {
        self.constraints@
    }

    /// The transitions the field currently holds.
    pub closed spec fn spec_transitions(&self) -> Seq<TransitionView> {
        self.transitions@
    }

    /// What the field admits: the conjunction of its constraints.
    pub open spec fn spec_allows(&self, coords: Seq<i64>) -> bool {
        set_allows(self.spec_constraints(), coords)
    }

    /// A field with no constraints and no transitions; it admits everything.
    pub fn new() -> (r: Self)
        ensures
            r.spec_constraints() == Seq::<ConstraintKind>::empty(),
            r.spec_transitions() == Seq::<TransitionView>::empty(),
    {
        Self { constraints: ConstraintSet::new(), transitions: TransitionMatrix::new() }
    }

    /// Add a live constraint. Only the constraint set changes; what the
    /// field then admits is a subset of what it admitted before.
    pub fn add_constraint(&mut self, constraint: ConstraintKind)
        ensures
            final(self).spec_constraints() == old(self).spec_constraints().push(constraint),
            final(self).spec_transitions() == old(self).spec_transitions(),
            forall|coords: Seq<i64>|
                final(self).spec_allows(coords) ==> old(self).spec_allows(coords),
    {
        self.constraints.add(constraint);
        proof {
            assert forall|coords: Seq<i64>|
                final(self).spec_allows(coords) implies old(self).spec_allows(coords) by {
                lemma_constraint_monotonic(old(self).spec_constraints(), constraint, coords);
            }
        }
    }

    /// Add a transition rule (from -> to with weight). Constraints are
    /// untouched.
    pub fn add_transition(&mut self, from: SpaceCoordinates, to: SpaceCoordinates, weight: i64)
        ensures
            final(self).spec_transitions() == old(self).spec_transitions().push((
                from@,
                to@,
                weight,
            )),
            final(self).spec_constraints() == old(self).spec_constraints(),
    {
        self.transitions.add(from, to, weight);
    }

    /// Whether a coordinate satisfies every current constraint.
    pub fn allows(&self, coords: &SpaceCoordinates) -> (r: bool)
        ensures
            r == self.spec_allows(coords@),
    {
        self.constraints.allows(coords)
    }

    /// All transition targets the field defines from a coordinate.
    pub fn transition_targets(&self, from: &SpaceCoordinates) -> (r: Vec<SpaceCoordinates>)
        ensures
            r@.map_values(|c: SpaceCoordinates| c@) == spec_targets(self.spec_transitions(), from@),
    {
        self.transitions.transitions_from(from)
    }

    /// The weight of the first transition from `from` to `to`, if any.
    pub fn transition_weight(&self, from: &SpaceCoordinates, to: &SpaceCoordinates) -> (r: Option<
        i64,
    >)
        ensures
            r == spec_weight(self.spec_transitions(), from@, to@),
    {
        self.transitions.get_weight(from, to)
    }

    /// Describe the current constraints.
    pub fn describe_constraints(&self) -> (r: String)
        ensures
            r@ == set_description(self.spec_constraints()),
    {
        self.constraints.describe()
    }
}

/// Constraint monotonicity: adding a constraint to a field never widens the
/// set of coordinates it allows. Every coordinate allowed after the addition
/// was allowed before.
pub proof fn lemma_add_constraint_narrows(cs: Seq<ConstraintKind>, c: ConstraintKind)
    ensures
        forall|coords: Seq<i64>| set_allows(cs.push(c), coords) ==> set_allows(cs, coords),
{
    assert forall|coords: Seq<i64>| set_allows(cs.push(c), coords) implies set_allows(
        cs,
        coords,
    ) by {
        lemma_constraint_monotonic(cs, c, coords);
    }
}

} // verus!
