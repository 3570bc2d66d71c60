//! State spaces: a possibility space does not hold a value; values are the
//! result of projection. This module defines the state-space capability, the
//! bounded cycle-safe exploration engine over it, and a concrete arithmetic
//! space whose transitions are +1, -1, doubling and halving.

use vstd::prelude::*;
use vstd::std_specs::cmp::PartialEqSpec;
use crate::coords::SpaceCoordinates;
use crate::projector::{contains_value, CoordinateProjector};

verus! {

/// A state space: an immutable point of a possibility space, with its own
/// constraint and its own transitions. Everything is specified against the
/// value's view, so exploration can reason about states it has built.
pub trait StateSpace: View + Sized {
    /// The coordinate of a state.
    spec fn coords_of(v: Self::V) -> Seq<i64>;

    /// Whether a state satisfies its own constraints.
    spec fn constraint_of(v: Self::V) -> bool;

    /// The transitions out of a state.
    spec fn transitions_of(v: Self::V) -> Seq<Self::V>;

    /// The opaque structural coordinate of this state.
    fn coordinates(&self) -> (r: SpaceCoordinates)
        ensures
            r@ == Self::coords_of(self@),
    ;

    /// Whether this state satisfies its constraints.
    fn constraint(&self) -> (r: bool)
        ensures
            r == Self::constraint_of(self@),
    ;

    /// The states one transition away.
    fn transitions(&self) -> (r: Vec<Self>)
        ensures
            r@.map_values(|s: Self| s@) == Self::transitions_of(self@),
            forall|i: int| 0 <= i < r@.len() ==> (#[trigger] r@[i])@ == Self::transitions_of(self@)[i],
    ;

    /// An independent copy of this state.
    fn duplicate(&self) -> (r: Self)
        ensures
            r@ == self@,
    ;
}

/// The coordinates of a sequence of states.
pub open spec fn tree_coords<S: StateSpace>(r: Seq<S>) -> Seq<Seq<i64>> {
    r.map_values(|s: S| S::coords_of(s@))
}

/// Soundness of one explored state: it is the seed, or it satisfies its
/// constraints and is a transition of some explored state.
pub open spec fn sound_element<S: StateSpace>(r: Seq<S>, i: int, start: S::V) -> bool {
    r[i]@ == start || (S::constraint_of(r[i]@) && exists|j: int|
        0 <= j < i && #[trigger] S::transitions_of(r[j]@).contains(r[i]@))
}

/// What bounded exploration returns: never more states than the bound; the
/// seed first whenever the bound admits anything; no coordinate twice; and
/// nothing unreachable - every state is the seed or an admissible transition
/// of another explored state.
pub open spec fn tree_wf<S: StateSpace>(r: Seq<S>, start: S::V, max_states: int) -> bool {
    &&& r.len() <= max_states
    &&& (max_states > 0 ==> r.len() >= 1 && r[0]@ == start)
    &&& tree_coords(r).no_duplicates()
    &&& (forall|i: int| 0 <= i < r.len() ==> sound_element(r, i, start))
}

/// Completeness of an explored tree: every admissible transition of every
/// explored state has its coordinate among the explored coordinates.
pub open spec fn tree_complete<S: StateSpace>(r: Seq<S>) -> bool {
    forall|i: int, t: S::V|
        0 <= i < r.len() && #[trigger] S::transitions_of(r[i]@).contains(t) && S::constraint_of(t)
            ==> tree_coords(r).contains(S::coords_of(t))
}

/// During traversal, every admissible transition of the first `upto`
/// explored states is either already explored (by coordinate) or still
/// waiting on the stack.
spec fn neighbours_covered_upto<S: StateSpace>(r: Seq<S>, stack: Seq<S>, upto: int) -> bool {
    forall|i: int, t: S::V|
        0 <= i < upto && #[trigger] S::transitions_of(r[i]@).contains(t) && S::constraint_of(t)
            ==> tree_coords(r).contains(S::coords_of(t)) || exists|k: int|
            0 <= k < stack.len() && (#[trigger] stack[k])@ == t
}

/// Whether a vector of coordinates holds one equal to `c`.
pub fn contains_coords(v: &Vec<SpaceCoordinates>, c: &SpaceCoordinates) -> (r: bool)
    ensures
        r == v@.map_values(|x: SpaceCoordinates| x@).contains(c@),
{
    let n = v.len();
    let mut i: usize = 0;
    while i < n
        invariant
            n == v@.len(),
            i <= n,
            forall|j: int| 0 <= j < i ==> (#[trigger] v@[j])@ != c@,
        decreases n - i,
    {
        if v[i].same_as(c) {
            proof {
                assert(v@.map_values(|x: SpaceCoordinates| x@)[i as int] == c@);
            }
            return true;
        }
        i += 1;
    }
    proof {
        let m = v@.map_values(|x: SpaceCoordinates| x@);
        assert forall|j: int| 0 <= j < m.len() implies #[trigger] m[j] != c@ by {
            assert(m[j] == v@[j]@);
        }
    }
    false
}

/// Bounded, cycle-safe exploration: an explicit-stack traversal seeded with
/// `start`. Visited states are keyed by coordinate, so cyclic transition
/// graphs terminate; the bound on the number of states makes traversal of
/// unbounded graphs finite. The result holds at most `max_states` states,
/// each with a distinct coordinate, each either the seed or an admissible
/// transition of another state in the result.
pub fn explore_states<S: StateSpace>(start: &S, max_states: usize) -> (r: Vec<S>)
    ensures
        tree_wf(r@, start@, max_states as int),
        r@.len() < max_states ==> tree_complete(r@),
{
    let mut result: Vec<S> = Vec::new();
    let mut visited: Vec<SpaceCoordinates> = Vec::new();
    let mut stack: Vec<S> = Vec::new();
    stack.push(start.duplicate());
    proof {
        assert(visited@.map_values(|x: SpaceCoordinates| x@) =~= tree_coords(result@));
        assert(neighbours_covered_upto(result@, stack@, result@.len() as int));
    }
    loop
        invariant
            result@.len() <= max_states,
            visited@.map_values(|x: SpaceCoordinates| x@) == tree_coords(result@),
            tree_coords(result@).no_duplicates(),
            forall|i: int| 0 <= i < result@.len() ==> sound_element(result@, i, start@),
            result@.len() > 0 ==> result@[0]@ == start@,
            result@.len() == 0 ==> stack@.len() == 1 && stack@[0]@ == start@,
            forall|k: int|
                0 <= k < stack@.len() ==> (#[trigger] stack@[k])@ == start@ || (
                S::constraint_of(stack@[k]@) && exists|j: int|
                    0 <= j < result@.len() && #[trigger] S::transitions_of(
                        result@[j]@,
                    ).contains(stack@[k]@)),
            neighbours_covered_upto(result@, stack@, result@.len() as int),
        ensures
            tree_wf(result@, start@, max_states as int),
            result@.len() < max_states ==> tree_complete(result@),
        decreases max_states - result@.len(), stack@.len(),
    {
        if result.len() >= max_states {
            break;
        }
        let ghost pre_stack = stack@;
        let state = match stack.pop() {
            Some(s) => s,
            None => {
                proof {
                    assert forall|i: int, t: S::V|
                        0 <= i < result@.len() && #[trigger] S::transitions_of(
                            result@[i]@,
                        ).contains(t) && S::constraint_of(t) implies tree_coords(
                        result@,
                    ).contains(S::coords_of(t)) by {
                        assert(stack@.len() == 0);
                    }
                }
                break;
            },
        };
        proof {
            assert(state == pre_stack.last());
        }
        let coords = state.coordinates();
        if contains_coords(&visited, &coords) {
            proof {
                assert forall|i: int, t: S::V|
                    0 <= i < result@.len() && #[trigger] S::transitions_of(result@[i]@).contains(
                        t,
                    ) && S::constraint_of(t) implies tree_coords(result@).contains(
                    S::coords_of(t),
                ) || exists|k: int| 0 <= k < stack@.len() && (#[trigger] stack@[k])@ == t by {
                    if !tree_coords(result@).contains(S::coords_of(t)) {
                        let k = choose|k: int|
                            0 <= k < pre_stack.len() && (#[trigger] pre_stack[k])@ == t;
                        if k < pre_stack.len() - 1 {
                            assert(stack@[k] == pre_stack[k]);
                        } else {
                            assert(pre_stack[k] == state);
                            assert(S::coords_of(t) == coords@);
                            assert(tree_coords(result@).contains(coords@));
                        }
                    }
                }
            }
            continue;
        }
        let ghost old_result = result@;
        let nexts = state.transitions();
        visited.push(coords);
        result.push(state);
        proof {
            let ghost old_visited = visited@.drop_last();
            let ghost c = visited@.last();
            old_visited.lemma_push_map_commute(|x: SpaceCoordinates| x@, c);
            old_result.lemma_push_map_commute(|s: S| s@, result@.last());
            old_result.lemma_push_map_commute(
                |s: S| S::coords_of(s@),
                result@.last(),
            );
            assert(visited@ =~= old_visited.push(c));
            assert(result@ =~= old_result.push(result@.last()));
            assert(visited@.map_values(|x: SpaceCoordinates| x@) =~= tree_coords(result@));
            assert(!tree_coords(old_result).contains(c@));
            assert forall|i: int, j: int|
                0 <= i < tree_coords(result@).len() && 0 <= j < tree_coords(result@).len() && i
                    != j implies tree_coords(result@)[i] != tree_coords(result@)[j] by {
                let tc = tree_coords(result@);
                let old_tc = tree_coords(old_result);
                assert(tc =~= old_tc.push(c@));
                if i < old_tc.len() && j < old_tc.len() {
                    assert(old_tc.no_duplicates());
                } else if i == old_tc.len() && j < old_tc.len() {
                    assert(old_tc[j] == tc[j]);
                    assert(!old_tc.contains(c@));
                } else if j == old_tc.len() && i < old_tc.len() {
                    assert(!old_tc.contains(c@));
                }
            }
            let last = old_result.len() as int;
            assert(result@[last] == pre_stack.last());
            if old_result.len() == 0 {
                assert(pre_stack.last()@ == start@);
            }
            assert forall|kk: int|
                0 <= kk < stack@.len() implies (#[trigger] stack@[kk])@ == start@ || (
            S::constraint_of(stack@[kk]@) && exists|j: int|
                0 <= j < result@.len() && #[trigger] S::transitions_of(result@[j]@).contains(
                    stack@[kk]@,
                )) by {
                assert(stack@[kk] == pre_stack[kk]);
                if !(pre_stack[kk]@ == start@) {
                    let j = choose|j: int|
                        0 <= j < old_result.len() && #[trigger] S::transitions_of(
                            old_result[j]@,
                        ).contains(pre_stack[kk]@);
                    assert(result@[j] == old_result[j]);
                    assert(S::transitions_of(result@[j]@).contains(stack@[kk]@));
                }
            }
            assert forall|i: int| 0 <= i < result@.len() implies sound_element(
                result@,
                i,
                start@,
            ) by {
                if i < old_result.len() {
                    assert(sound_element(old_result, i, start@));
                    assert(result@[i] == old_result[i]);
                    if !(old_result[i]@ == start@) {
                        let j = choose|j: int|
                            0 <= j < i && #[trigger] S::transitions_of(
                                old_result[j]@,
                            ).contains(old_result[i]@);
                        assert(S::transitions_of(result@[j]@).contains(result@[i]@));
                    }
                } else {
                    assert(pre_stack[pre_stack.len() - 1] == pre_stack.last());
                    if !(pre_stack.last()@ == start@) {
                        let j = choose|j: int|
                            0 <= j < old_result.len() && #[trigger] S::transitions_of(
                                old_result[j]@,
                            ).contains(pre_stack.last()@);
                        assert(S::transitions_of(result@[j]@).contains(result@[i]@));
                    }
                }
            }
        }
        let ghost parent = result@[result@.len() - 1]@;
        proof {
            assert(tree_coords(result@) =~= tree_coords(old_result).push(
                S::coords_of(result@.last()@),
            ));
            assert forall|i: int, t: S::V|
                0 <= i < result@.len() - 1 && #[trigger] S::transitions_of(result@[i]@).contains(
                    t,
                ) && S::constraint_of(t) implies tree_coords(result@).contains(S::coords_of(t))
                || exists|k: int| 0 <= k < stack@.len() && (#[trigger] stack@[k])@ == t by {
                assert(result@[i] == old_result[i]);
                assert(S::transitions_of(old_result[i]@).contains(t));
                if tree_coords(old_result).contains(S::coords_of(t)) {
                    let w = choose|w: int|
                        0 <= w < tree_coords(old_result).len() && #[trigger] tree_coords(
                            old_result,
                        )[w] == S::coords_of(t);
                    assert(tree_coords(result@)[w] == S::coords_of(t));
                } else {
                    let k = choose|k: int|
                        0 <= k < pre_stack.len() && (#[trigger] pre_stack[k])@ == t;
                    if k < pre_stack.len() - 1 {
                        assert(stack@[k] == pre_stack[k]);
                    } else {
                        assert(pre_stack[k] == state);
                        assert(S::coords_of(t) == S::coords_of(result@.last()@));
                        assert(tree_coords(result@)[result@.len() - 1] == S::coords_of(t));
                    }
                }
            }
        }
        let n = nexts.len();
        let mut k: usize = 0;
        while k < n
            invariant
                n == nexts@.len(),
                k <= n,
                result@.len() >= 1,
                result@.len() <= max_states,
                parent == result@[result@.len() - 1]@,
                nexts@.map_values(|s: S| s@) == S::transitions_of(parent),
                forall|i: int|
                    0 <= i < nexts@.len() ==> (#[trigger] nexts@[i])@ == S::transitions_of(
                        parent,
                    )[i],
                exists|j: int| 0 <= j < result@.len() && result@[j]@ == parent,
                visited@.map_values(|x: SpaceCoordinates| x@) == tree_coords(result@),
                tree_coords(result@).no_duplicates(),
                forall|i: int| 0 <= i < result@.len() ==> sound_element(result@, i, start@),
                result@.len() > 0 ==> result@[0]@ == start@,
                forall|kk: int|
                    0 <= kk < stack@.len() ==> (#[trigger] stack@[kk])@ == start@ || (
                    S::constraint_of(stack@[kk]@) && exists|j: int|
                        0 <= j < result@.len() && #[trigger] S::transitions_of(
                            result@[j]@,
                        ).contains(stack@[kk]@)),
                neighbours_covered_upto(result@, stack@, result@.len() - 1),
                forall|q: int|
                    0 <= q < k && S::constraint_of(#[trigger] S::transitions_of(parent)[q])
                        ==> tree_coords(result@).contains(
                        S::coords_of(S::transitions_of(parent)[q]),
                    ) || exists|k2: int|
                        0 <= k2 < stack@.len() && (#[trigger] stack@[k2])@ == S::transitions_of(
                            parent,
                        )[q],
            decreases n - k,
        {
            let ghost pre_inner_stack = stack@;
            let next = &nexts[k];
            let next_allowed = next.constraint();
            if next_allowed {
                let c = next.coordinates();
                if !contains_coords(&visited, &c) {
                    proof {
                        assert(S::transitions_of(parent).contains(nexts@[k as int]@));
                    }
                    stack.push(next.duplicate());
                    proof {
                        let j = choose|j: int|
                            0 <= j < result@.len() && result@[j]@ == parent;
                        assert(S::transitions_of(result@[j]@).contains(
                            stack@[stack@.len() - 1]@,
                        ));
                        assert(stack@[stack@.len() - 1]@ == S::transitions_of(parent)[k as int]);
                        lemma_witnesses_stable_under_push::<S>(result@, pre_inner_stack, stack@);
                    }
                } else {
                    proof {
                        assert(tree_coords(result@).contains(S::coords_of(nexts@[k as int]@)));
                    }
                }
            }
            proof {
                assert forall|q: int|
                    0 <= q < k + 1 && S::constraint_of(
                        #[trigger] S::transitions_of(parent)[q],
                    ) implies tree_coords(result@).contains(
                    S::coords_of(S::transitions_of(parent)[q]),
                ) || exists|k2: int|
                    0 <= k2 < stack@.len() && (#[trigger] stack@[k2])@ == S::transitions_of(
                        parent,
                    )[q] by {
                    if q == k {
                        assert(nexts@[k as int]@ == S::transitions_of(parent)[q]);
                        if !next_allowed {
                            assert(!S::constraint_of(S::transitions_of(parent)[q]));
                        } else if !tree_coords(result@).contains(
                            S::coords_of(S::transitions_of(parent)[q]),
                        ) {
                            assert(stack@[stack@.len() - 1]@ == S::transitions_of(parent)[q]);
                        }
                    } else {
                        if !tree_coords(result@).contains(
                            S::coords_of(S::transitions_of(parent)[q]),
                        ) {
                            let k2 = choose|k2: int|
                                0 <= k2 < pre_inner_stack.len() && (
                                #[trigger] pre_inner_stack[k2])@ == S::transitions_of(parent)[q];
                            assert(stack@[k2] == pre_inner_stack[k2]);
                        }
                    }
                }
            }
            k += 1;
        }
        proof {
            assert forall|i: int, t: S::V|
                0 <= i < result@.len() && #[trigger] S::transitions_of(result@[i]@).contains(t)
                    && S::constraint_of(t) implies tree_coords(result@).contains(S::coords_of(t))
                || exists|k2: int| 0 <= k2 < stack@.len() && (#[trigger] stack@[k2])@ == t by {
                if i == result@.len() - 1 {
                    let q = choose|q: int|
                        0 <= q < S::transitions_of(parent).len() && #[trigger] S::transitions_of(
                            parent,
                        )[q] == t;
                    assert(S::constraint_of(S::transitions_of(parent)[q]));
                }
            }
        }
    }
    result
}

/// Stack witnesses survive a push: whatever some slot held is still held at
/// the same slot.
proof fn lemma_witnesses_stable_under_push<S: StateSpace>(
    r: Seq<S>,
    before: Seq<S>,
    after: Seq<S>,
)
    requires
        before.len() + 1 == after.len(),
        forall|k: int| 0 <= k < before.len() ==> after[k] == before[k],
        neighbours_covered_upto(r, before, r.len() - 1),
    ensures
        neighbours_covered_upto(r, after, r.len() - 1),
{
    assert forall|i: int, t: S::V|
        0 <= i < r.len() - 1 && #[trigger] S::transitions_of(r[i]@).contains(t)
            && S::constraint_of(t) implies tree_coords(r).contains(S::coords_of(t)) || exists|
        k: int,
    |
        0 <= k < after.len() && (#[trigger] after[k])@ == t by {
        if !tree_coords(r).contains(S::coords_of(t)) {
            let k = choose|k: int| 0 <= k < before.len() && (#[trigger] before[k])@ == t;
            assert(after[k]@ == t);
        }
    }
}


/// Project one state space: its coordinate is interpreted only when the
/// state satisfies its constraints.
pub fn project_space<P: CoordinateProjector, S: StateSpace>(projector: &P, space: &S) -> (r:
    Option<P::Output>)
    ensures
        r.deep_view() == if S::constraint_of(space@) {
            projector.spec_project_coordinates(S::coords_of(space@))
        } else {
            None::<<P::Output as DeepView>::V>
        },
{
    if space.constraint() {
        projector.project_coordinates(&space.coordinates())
    } else {
        None
    }
}

/// Whether some state of the collection passes its constraints and
/// projects to the value `x`.
pub open spec fn projects_to<S: StateSpace, P: CoordinateProjector>(
    projector: &P,
    views: Seq<S::V>,
    x: <P::Output as DeepView>::V,
) -> bool {
    exists|i: int|
        0 <= i < views.len() && S::constraint_of(#[trigger] views[i])
            && projector.spec_project_coordinates(S::coords_of(views[i])) == Some(x)
}

proof fn lemma_projects_to_split<S: StateSpace, P: CoordinateProjector>(
    projector: &P,
    views: Seq<S::V>,
    i: int,
    x: <P::Output as DeepView>::V,
)
    requires
        0 <= i < views.len(),
    ensures
        projects_to::<S, P>(projector, views.take(i + 1), x) <==> (projects_to::<S, P>(
            projector,
            views.take(i),
            x,
        ) || (S::constraint_of(views[i]) && projector.spec_project_coordinates(
            S::coords_of(views[i]),
        ) == Some(x))),
{
    let upto = views.take(i);
    let upto1 = views.take(i + 1);
    if projects_to::<S, P>(projector, upto1, x) {
        let w = choose|w: int|
            0 <= w < upto1.len() && S::constraint_of(#[trigger] upto1[w])
                && projector.spec_project_coordinates(S::coords_of(upto1[w])) == Some(x);
        if w < i {
            assert(upto[w] == upto1[w]);
            assert(projects_to::<S, P>(projector, upto, x));
        } else {
            assert(upto1[w] == views[i]);
        }
    }
    if projects_to::<S, P>(projector, upto, x) {
        let w = choose|w: int|
            0 <= w < upto.len() && S::constraint_of(#[trigger] upto[w])
                && projector.spec_project_coordinates(S::coords_of(upto[w])) == Some(x);
        assert(upto1[w] == upto[w]);
        assert(projects_to::<S, P>(projector, upto1, x));
    }
    if S::constraint_of(views[i]) && projector.spec_project_coordinates(S::coords_of(views[i]))
        == Some(x) {
        assert(upto1[i] == views[i]);
        assert(projects_to::<S, P>(projector, upto1, x));
    }
}

/// Observe a collection of states: the set of values that the states
/// passing their constraints project to. The result is a set - no value
/// appears twice, and a value is present exactly when some admissible state
/// projects to it.
pub fn observe_space<P: CoordinateProjector, S: StateSpace>(states: &Vec<S>, projector: &P) -> (r:
    Vec<P::Output>) where P::Output: PartialEq
    ensures
        forall|k: int|
            0 <= k < r.deep_view().len() ==> projects_to::<S, P>(
                projector,
                states@.map_values(|s: S| s@),
                #[trigger] r.deep_view()[k],
            ),
        P::Output::obeys_eq_spec() && crate::projector::eq_is_view_eq::<P::Output>() ==> {
            &&& r.deep_view().no_duplicates()
            &&& forall|x: <P::Output as DeepView>::V|
                #[trigger] r.deep_view().contains(x) <==> projects_to::<S, P>(
                    projector,
                    states@.map_values(|s: S| s@),
                    x,
                )
        },
{
    let ghost ok = P::Output::obeys_eq_spec() && crate::projector::eq_is_view_eq::<P::Output>();
    let ghost views = states@.map_values(|s: S| s@);
    let n = states.len();
    let mut out: Vec<P::Output> = Vec::new();
    let mut i: usize = 0;
    while i < n
        invariant
            n == states@.len(),
            views == states@.map_values(|s: S| s@),
            i <= n,
            ok == (P::Output::obeys_eq_spec() && crate::projector::eq_is_view_eq::<P::Output>()),
            forall|k: int|
                0 <= k < out.deep_view().len() ==> projects_to::<S, P>(
                    projector,
                    views,
                    #[trigger] out.deep_view()[k],
                ),
            ok ==> out.deep_view().no_duplicates(),
            ok ==> forall|x: <P::Output as DeepView>::V|
                #[trigger] out.deep_view().contains(x) <==> projects_to::<S, P>(
                    projector,
                    views.take(i as int),
                    x,
                ),
        decreases n - i,
    {
        proof {
            assert(views[i as int] == states@[i as int]@);
        }
        match project_space(projector, &states[i]) {
            Some(value) => {
                let ghost vd = value.deep_view();
                if !contains_value(&out, &value) {
                    let ghost before = out.deep_view();
                    out.push(value);
                    proof {
                        assert(out.deep_view() =~= before.push(vd));
                        assert(projects_to::<S, P>(projector, views, vd));
                        if ok {
                            assert forall|p: int, q: int|
                                0 <= p < out.deep_view().len() && 0 <= q < out.deep_view().len()
                                    && p != q implies out.deep_view()[p] != out.deep_view()[q] by {
                                if p < before.len() && q < before.len() {
                                    assert(before.no_duplicates());
                                } else if p == before.len() && q < before.len() {
                                    assert(!before.contains(vd));
                                    assert(before[q] == out.deep_view()[q]);
                                } else if q == before.len() && p < before.len() {
                                    assert(!before.contains(vd));
                                    assert(before[p] == out.deep_view()[p]);
                                }
                            }
                            assert forall|x: <P::Output as DeepView>::V|
                                #[trigger] out.deep_view().contains(x) <==> projects_to::<S, P>(
                                    projector,
                                    views.take(i + 1),
                                    x,
                                ) by {
                                lemma_projects_to_split::<S, P>(projector, views, i as int, x);
                                if out.deep_view().contains(x) {
                                    let w = choose|w: int|
                                        0 <= w < out.deep_view().len()
                                            && #[trigger] out.deep_view()[w] == x;
                                    if w < before.len() {
                                        assert(before.contains(x));
                                    } else {
                                        assert(x == vd);
                                    }
                                }
                                if projects_to::<S, P>(projector, views.take(i + 1), x) {
                                    if projects_to::<S, P>(projector, views.take(i as int), x) {
                                        assert(before.contains(x));
                                        let w = choose|w: int|
                                            0 <= w < before.len() && #[trigger] before[w] == x;
                                        assert(out.deep_view()[w] == x);
                                    } else {
                                        assert(x == vd);
                                        assert(out.deep_view().last() == vd);
                                    }
                                }
                            }
                        }
                    }
                } else {
                    proof {
                        if ok {
                            assert(out.deep_view().contains(vd));
                            assert forall|x: <P::Output as DeepView>::V|
                                #[trigger] out.deep_view().contains(x) <==> projects_to::<S, P>(
                                    projector,
                                    views.take(i + 1),
                                    x,
                                ) by {
                                lemma_projects_to_split::<S, P>(projector, views, i as int, x);
                            }
                        }
                    }
                }
            },
            None => {
                proof {
                    if ok {
                        assert forall|x: <P::Output as DeepView>::V|
                            #[trigger] out.deep_view().contains(x) <==> projects_to::<S, P>(
                                projector,
                                views.take(i + 1),
                                x,
                            ) by {
                            lemma_projects_to_split::<S, P>(projector, views, i as int, x);
                        }
                    }
                }
            },
        }
        i += 1;
    }
    proof {
        assert(views.take(n as int) =~= views);
    }
    out
}

/// Whether the collection's states, at their given transitions, yield the
/// value `x`: restricted to admissible transitions of admissible states.
pub open spec fn prefix_contribution<S: StateSpace, P: CoordinateProjector>(
    projector: &P,
    ts: Seq<S::V>,
    x: <P::Output as DeepView>::V,
) -> bool {
    exists|q: int|
        0 <= q < ts.len() && S::constraint_of(#[trigger] ts[q])
            && projector.spec_project_coordinates(S::coords_of(ts[q])) == Some(x)
}

proof fn lemma_prefix_contribution_split<S: StateSpace, P: CoordinateProjector>(
    projector: &P,
    ts: Seq<S::V>,
    q: int,
    x: <P::Output as DeepView>::V,
)
    requires
        0 <= q < ts.len(),
    ensures
        prefix_contribution::<S, P>(projector, ts.take(q + 1), x) <==> (prefix_contribution::<
            S,
            P,
        >(projector, ts.take(q), x) || (S::constraint_of(ts[q])
            && projector.spec_project_coordinates(S::coords_of(ts[q])) == Some(x))),
{
    let upto = ts.take(q);
    let upto1 = ts.take(q + 1);
    if prefix_contribution::<S, P>(projector, upto1, x) {
        let w = choose|w: int|
            0 <= w < upto1.len() && S::constraint_of(#[trigger] upto1[w])
                && projector.spec_project_coordinates(S::coords_of(upto1[w])) == Some(x);
        if w < q {
            assert(upto[w] == upto1[w]);
            assert(prefix_contribution::<S, P>(projector, upto, x));
        } else {
            assert(upto1[w] == ts[q]);
        }
    }
    if prefix_contribution::<S, P>(projector, upto, x) {
        let w = choose|w: int|
            0 <= w < upto.len() && S::constraint_of(#[trigger] upto[w])
                && projector.spec_project_coordinates(S::coords_of(upto[w])) == Some(x);
        assert(upto1[w] == upto[w]);
        assert(prefix_contribution::<S, P>(projector, upto1, x));
    }
    if S::constraint_of(ts[q]) && projector.spec_project_coordinates(S::coords_of(ts[q])) == Some(
        x,
    ) {
        assert(upto1[q] == ts[q]);
        assert(prefix_contribution::<S, P>(projector, upto1, x));
    }
}

/// Whether some admissible transition of the state yields the value `x`.
pub open spec fn trans_value_of<S: StateSpace, P: CoordinateProjector>(
    projector: &P,
    v: S::V,
    x: <P::Output as DeepView>::V,
) -> bool {
    prefix_contribution::<S, P>(projector, S::transitions_of(v), x)
}

/// Whether the observer recognises the state: the state passes its
/// constraints and projects to the expected value.
pub open spec fn state_recognised<S: StateSpace, P: CoordinateProjector>(
    projector: &P,
    expected: <P::Output as DeepView>::V,
    v: S::V,
) -> bool {
    S::constraint_of(v) && projector.spec_project_coordinates(S::coords_of(v)) == Some(expected)
}

/// Whether some recognised state of the collection has an admissible
/// transition that yields `x`.
pub open spec fn transition_observed<S: StateSpace, P: CoordinateProjector>(
    projector: &P,
    expected: <P::Output as DeepView>::V,
    views: Seq<S::V>,
    x: <P::Output as DeepView>::V,
) -> bool {
    exists|i: int|
        0 <= i < views.len() && state_recognised::<S, P>(projector, expected, #[trigger] views[i])
            && trans_value_of::<S, P>(projector, views[i], x)
}

/// Whether some state of the collection (recognised or not) has an
/// admissible transition yielding `x`.
pub open spec fn some_state_transitions_to<S: StateSpace, P: CoordinateProjector>(
    projector: &P,
    views: Seq<S::V>,
    x: <P::Output as DeepView>::V,
) -> bool {
    exists|i: int|
        0 <= i < views.len() && trans_value_of::<S, P>(projector, #[trigger] views[i], x)
}

proof fn lemma_transition_observed_split<S: StateSpace, P: CoordinateProjector>(
    projector: &P,
    expected: <P::Output as DeepView>::V,
    views: Seq<S::V>,
    i: int,
    x: <P::Output as DeepView>::V,
)
    requires
        0 <= i < views.len(),
    ensures
        transition_observed::<S, P>(projector, expected, views.take(i + 1), x) <==> (
        transition_observed::<S, P>(projector, expected, views.take(i), x) || (state_recognised::<
            S,
            P,
        >(projector, expected, views[i]) && trans_value_of::<S, P>(projector, views[i], x))),
{
    let upto = views.take(i);
    let upto1 = views.take(i + 1);
    if transition_observed::<S, P>(projector, expected, upto1, x) {
        let w = choose|w: int|
            0 <= w < upto1.len() && state_recognised::<S, P>(
                projector,
                expected,
                #[trigger] upto1[w],
            ) && trans_value_of::<S, P>(projector, upto1[w], x);
        if w < i {
            assert(upto[w] == upto1[w]);
            assert(transition_observed::<S, P>(projector, expected, upto, x));
        } else {
            assert(upto1[w] == views[i]);
        }
    }
    if transition_observed::<S, P>(projector, expected, upto, x) {
        let w = choose|w: int|
            0 <= w < upto.len() && state_recognised::<S, P>(projector, expected, #[trigger] upto[w])
                && trans_value_of::<S, P>(projector, upto[w], x);
        assert(upto1[w] == upto[w]);
        assert(transition_observed::<S, P>(projector, expected, upto1, x));
    }
    if state_recognised::<S, P>(projector, expected, views[i]) && trans_value_of::<S, P>(
        projector,
        views[i],
        x,
    ) {
        assert(upto1[i] == views[i]);
        assert(transition_observed::<S, P>(projector, expected, upto1, x));
    }
}

/// Conditional transition observation: where a state passes its constraints
/// and the observer recognises its coordinate, the values its admissible
/// transitions project to are collected. The result is a set - no value
/// twice, and a value is present exactly when some recognised state has an
/// admissible transition projecting to it.
pub fn observe_transitions<P: CoordinateProjector, S: StateSpace>(
    states: &Vec<S>,
    observer: &crate::projector::Observer<P>,
) -> (r: Vec<P::Output>) where P::Output: PartialEq
    ensures
        forall|k: int|
            0 <= k < r.deep_view().len() ==> some_state_transitions_to::<S, P>(
                &observer.spec_projector(),
                states@.map_values(|s: S| s@),
                #[trigger] r.deep_view()[k],
            ),
        P::Output::obeys_eq_spec() && crate::projector::eq_is_view_eq::<P::Output>() ==> {
            &&& r.deep_view().no_duplicates()
            &&& forall|x: <P::Output as DeepView>::V|
                #[trigger] r.deep_view().contains(x) <==> transition_observed::<S, P>(
                    &observer.spec_projector(),
                    observer.spec_expected().deep_view(),
                    states@.map_values(|s: S| s@),
                    x,
                )
        },
{
    let ghost ok = P::Output::obeys_eq_spec() && crate::projector::eq_is_view_eq::<P::Output>();
    let ghost views = states@.map_values(|s: S| s@);
    let ghost proj = observer.spec_projector();
    let ghost exp = observer.spec_expected().deep_view();
    let n = states.len();
    let mut out: Vec<P::Output> = Vec::new();
    let mut i: usize = 0;
    while i < n
        invariant
            n == states@.len(),
            views == states@.map_values(|s: S| s@),
            proj == observer.spec_projector(),
            exp == observer.spec_expected().deep_view(),
            i <= n,
            ok == (P::Output::obeys_eq_spec() && crate::projector::eq_is_view_eq::<P::Output>()),
            forall|k: int|
                0 <= k < out.deep_view().len() ==> some_state_transitions_to::<S, P>(
                    &proj,
                    views,
                    #[trigger] out.deep_view()[k],
                ),
            ok ==> out.deep_view().no_duplicates(),
            ok ==> forall|x: <P::Output as DeepView>::V|
                #[trigger] out.deep_view().contains(x) <==> transition_observed::<S, P>(
                    &proj,
                    exp,
                    views.take(i as int),
                    x,
                ),
        decreases n - i,
    {
        proof {
            assert(views[i as int] == states@[i as int]@);
        }
        let state = &states[i];
        let recognised = if state.constraint() {
            match observer.observe(&state.coordinates()) {
                Some(true) => true,
                _ => false,
            }
        } else {
            false
        };
        proof {
            if ok {
                assert(recognised == state_recognised::<S, P>(&proj, exp, views[i as int]));
            }
        }
        if recognised {
            let nexts = state.transitions();
            let ghost trans = S::transitions_of(views[i as int]);
            let m = nexts.len();
            let mut q: usize = 0;
            while q < m
                invariant
                    m == nexts@.len(),
                    trans == S::transitions_of(views[i as int]),
                    nexts@.map_values(|s: S| s@) == trans,
                    forall|w: int| 0 <= w < nexts@.len() ==> (#[trigger] nexts@[w])@ == trans[w],
                    views == states@.map_values(|s: S| s@),
                    proj == observer.spec_projector(),
                    i < views.len(),
                    q <= m,
                    ok == (P::Output::obeys_eq_spec() && crate::projector::eq_is_view_eq::<
                        P::Output,
                    >()),
                    forall|k: int|
                        0 <= k < out.deep_view().len() ==> some_state_transitions_to::<S, P>(
                            &proj,
                            views,
                            #[trigger] out.deep_view()[k],
                        ),
                    ok ==> out.deep_view().no_duplicates(),
                    ok ==> forall|x: <P::Output as DeepView>::V|
                        #[trigger] out.deep_view().contains(x) <==> (transition_observed::<S, P>(
                            &proj,
                            exp,
                            views.take(i as int),
                            x,
                        ) || prefix_contribution::<S, P>(&proj, trans.take(q as int), x)),
                decreases m - q,
            {
                proof {
                    assert(nexts@[q as int]@ == trans[q as int]);
                }
                match project_space(observer.projector_ref(), &nexts[q]) {
                    Some(value) => {
                        let ghost vd = value.deep_view();
                        proof {
                            assert(S::constraint_of(trans[q as int]));
                            assert(proj.spec_project_coordinates(S::coords_of(trans[q as int]))
                                == Some(vd));
                            assert(trans.contains(trans[q as int]));
                            assert(trans_value_of::<S, P>(&proj, views[i as int], vd));
                            assert(some_state_transitions_to::<S, P>(&proj, views, vd));
                        }
                        if !contains_value(&out, &value) {
                            let ghost before = out.deep_view();
                            out.push(value);
                            proof {
                                assert(out.deep_view() =~= before.push(vd));
                                if ok {
                                    assert forall|p: int, pq: int|
                                        0 <= p < out.deep_view().len() && 0 <= pq
                                            < out.deep_view().len() && p != pq implies out
                                        .deep_view()[p] != out.deep_view()[pq] by {
                                        if p < before.len() && pq < before.len() {
                                            assert(before.no_duplicates());
                                        } else if p == before.len() && pq < before.len() {
                                            assert(!before.contains(vd));
                                            assert(before[pq] == out.deep_view()[pq]);
                                        } else if pq == before.len() && p < before.len() {
                                            assert(!before.contains(vd));
                                            assert(before[p] == out.deep_view()[p]);
                                        }
                                    }
                                    assert forall|x: <P::Output as DeepView>::V|
                                        #[trigger] out.deep_view().contains(x) <==> (
                                        transition_observed::<S, P>(
                                            &proj,
                                            exp,
                                            views.take(i as int),
                                            x,
                                        ) || prefix_contribution::<S, P>(
                                            &proj,
                                            trans.take(q + 1),
                                            x,
                                        )) by {
                                        lemma_prefix_contribution_split::<S, P>(
                                            &proj,
                                            trans,
                                            q as int,
                                            x,
                                        );
                                        if out.deep_view().contains(x) {
                                            let w = choose|w: int|
                                                0 <= w < out.deep_view().len()
                                                    && #[trigger] out.deep_view()[w] == x;
                                            if w < before.len() {
                                                assert(before.contains(x));
                                            } else {
                                                assert(x == vd);
                                            }
                                        }
                                        if transition_observed::<S, P>(
                                            &proj,
                                            exp,
                                            views.take(i as int),
                                            x,
                                        ) || prefix_contribution::<S, P>(
                                            &proj,
                                            trans.take(q + 1),
                                            x,
                                        ) {
                                            if before.contains(x) {
                                                let w = choose|w: int|
                                                    0 <= w < before.len() && #[trigger] before[w]
                                                        == x;
                                                assert(out.deep_view()[w] == x);
                                            } else {
                                                assert(x == vd);
                                                assert(out.deep_view().last() == vd);
                                            }
                                        }
                                    }
                                }
                            }
                        } else {
                            proof {
                                if ok {
                                    assert(out.deep_view().contains(vd));
                                    assert forall|x: <P::Output as DeepView>::V|
                                        #[trigger] out.deep_view().contains(x) <==> (
                                        transition_observed::<S, P>(
                                            &proj,
                                            exp,
                                            views.take(i as int),
                                            x,
                                        ) || prefix_contribution::<S, P>(
                                            &proj,
                                            trans.take(q + 1),
                                            x,
                                        )) by {
                                        lemma_prefix_contribution_split::<S, P>(
                                            &proj,
                                            trans,
                                            q as int,
                                            x,
                                        );
                                    }
                                }
                            }
                        }
                    },
                    None => {
                        proof {
                            if ok {
                                assert forall|x: <P::Output as DeepView>::V|
                                    #[trigger] out.deep_view().contains(x) <==> (
                                    transition_observed::<S, P>(
                                        &proj,
                                        exp,
                                        views.take(i as int),
                                        x,
                                    ) || prefix_contribution::<S, P>(
                                        &proj,
                                        trans.take(q + 1),
                                        x,
                                    )) by {
                                    lemma_prefix_contribution_split::<S, P>(
                                        &proj,
                                        trans,
                                        q as int,
                                        x,
                                    );
                                }
                            }
                        }
                    },
                }
                q += 1;
            }
            proof {
                if ok {
                    assert(trans.take(m as int) =~= trans);
                    assert forall|x: <P::Output as DeepView>::V|
                        #[trigger] out.deep_view().contains(x) <==> transition_observed::<S, P>(
                            &proj,
                            exp,
                            views.take(i + 1),
                            x,
                        ) by {
                        lemma_transition_observed_split::<S, P>(&proj, exp, views, i as int, x);
                    }
                }
            }
        } else {
            proof {
                if ok {
                    assert forall|x: <P::Output as DeepView>::V|
                        #[trigger] out.deep_view().contains(x) <==> transition_observed::<S, P>(
                            &proj,
                            exp,
                            views.take(i + 1),
                            x,
                        ) by {
                        lemma_transition_observed_split::<S, P>(&proj, exp, views, i as int, x);
                    }
                }
            }
        }
        i += 1;
    }
    proof {
        assert(views.take(n as int) =~= views);
    }
    out
}

} // verus!
