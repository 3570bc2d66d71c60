//! A StateField pairs an immutable scheme segment with the mutable overlay
//! of a session: live constraints and a transition matrix. Exploration walks
//! the union of structural adjacency and field transitions, filtered by the
//! constraints, bounded by depth and safe against cycles.

use vstd::prelude::*;
use vstd::std_specs::cmp::PartialEqSpec;
use crate::constraint::{set_allows, ConstraintKind, ConstraintSet};
use crate::coords::SpaceCoordinates;
use crate::field::{spec_targets, TransitionMatrix, TransitionView};
use crate::projector::{contains_value, CoordinateProjector};
use crate::statespace::contains_coords;

verus! {

/// An immutable point of a structured space: a coordinate plus intrinsic
/// structural adjacency, and a way to materialise a point at a coordinate.
pub trait SchemeSegment: View + Sized {
    /// The coordinate of a point.
    spec fn sseg_coords(v: Self::V) -> Seq<i64>;

    /// The intrinsic structural adjacency of a point.
    spec fn sseg_adjacency(v: Self::V) -> Seq<Seq<i64>>;

    /// The point materialised at a coordinate.
    spec fn from_coords_view(c: Seq<i64>) -> Self::V;

    /// The opaque structural coordinate of this point.
    fn coordinates(&self) -> (r: SpaceCoordinates)
        ensures
            r@ == Self::sseg_coords(self@),
    ;

    /// The coordinates structurally adjacent to this point.
    fn basic_adjacency(&self) -> (r: Vec<SpaceCoordinates>)
        ensures
            r@.map_values(|c: SpaceCoordinates| c@) == Self::sseg_adjacency(self@),
    ;

    /// Materialise the point at a coordinate.
    fn from_coordinates(coords: SpaceCoordinates) -> (r: Self)
        ensures
            r@ == Self::from_coords_view(coords@),
            Self::sseg_coords(r@) == coords@,
    ;

    /// An independent copy of this point.
    fn duplicate(&self) -> (r: Self)
        ensures
            r@ == self@,
    ;
}

/// A segment is itself a scheme segment with no intrinsic adjacency.
impl SchemeSegment for crate::identity::Segment {
    open spec fn sseg_coords(v: Seq<i64>) -> Seq<i64> {
        v
    }

    open spec fn sseg_adjacency(v: Seq<i64>) -> Seq<Seq<i64>> {
        Seq::empty()
    }

    open spec fn from_coords_view(c: Seq<i64>) -> Seq<i64> {
        c
    }

    fn coordinates(&self) -> (r: SpaceCoordinates) {
        self.coordinates().duplicate()
    }

    fn basic_adjacency(&self) -> (r: Vec<SpaceCoordinates>) {
        let r: Vec<SpaceCoordinates> = Vec::new();
        proof {
            assert(r@.map_values(|c: SpaceCoordinates| c@) =~= Seq::<Seq<i64>>::empty());
        }
        r
    }

    fn from_coordinates(coords: SpaceCoordinates) -> (r: Self) {
        crate::identity::Segment::new(coords)
    }

    fn duplicate(&self) -> (r: Self) {
        self.duplicate()
    }
}

/// The coordinates one step from a point under a field: intrinsic adjacency
/// followed by the field's transition targets, keeping those the
/// constraints admit.
#[verifier::opaque]
pub open spec fn possible_coords<S: SchemeSegment>(
    v: S::V,
    ts: Seq<TransitionView>,
    cs: Seq<ConstraintKind>,
) -> Seq<Seq<i64>> {
    (S::sseg_adjacency(v) + spec_targets(ts, S::sseg_coords(v))).filter(
        |c: Seq<i64>| set_allows(cs, c),
    )
}

/// A scheme segment together with the mutable elements of one session:
/// a transition matrix and live constraints. The segment is immutable;
/// only the field elements change.
#[derive(Debug)]
pub struct StateField<S: SchemeSegment> {
    pub space: S,
    pub transition_matrix: TransitionMatrix,
    pub constraints: ConstraintSet,
}

impl<S: SchemeSegment> StateField<S> {
    /// A field over one point, with no transitions and no constraints.
    pub fn new(space: S) -> (r: Self)
        ensures
            r.space@ == space@,
            r.transition_matrix@ == Seq::<TransitionView>::empty(),
            r.constraints@ == Seq::<ConstraintKind>::empty(),
    {
        Self { space, transition_matrix: TransitionMatrix::new(), constraints: ConstraintSet::new() }
    }

    /// A copy with one more live constraint; what the field then admits is
    /// a subset of what it admitted before.
    pub fn with_constraint(self, constraint: ConstraintKind) -> (r: Self)
        ensures
            r.space@ == self.space@,
            r.transition_matrix@ == self.transition_matrix@,
            r.constraints@ == self.constraints@.push(constraint),
    {
        let mut f = self;
        f.constraints.add(constraint);
        f
    }

    /// A copy with one more transition rule.
    pub fn with_transition(
        self,
        from: SpaceCoordinates,
        to: SpaceCoordinates,
        weight: i64,
    ) -> (r: Self)
        ensures
            r.space@ == self.space@,
            r.transition_matrix@ == self.transition_matrix@.push((from@, to@, weight)),
            r.constraints@ == self.constraints@,
    {
        let mut f = self;
        f.transition_matrix.add(from, to, weight);
        f
    }

    /// Whether this field's point satisfies all current constraints.
    pub fn is_allowed(&self) -> (r: bool)
        ensures
            r == set_allows(self.constraints@, S::sseg_coords(self.space@)),
    {
        self.constraints.allows(&self.space.coordinates())
    }

    /// The admissible next points: structural adjacency and field
    /// transitions, filtered through the constraints.
    pub fn possible_transitions(&self) -> (r: Vec<S>)
        ensures
            r@.map_values(|s: S| S::sseg_coords(s@)) == possible_coords::<S>(
                self.space@,
                self.transition_matrix@,
                self.constraints@,
            ),
    {
        next_points::<S>(&self.space, &self.transition_matrix, &self.constraints)
    }

    /// Bounded, cycle-safe exploration from this field's point, walking
    /// admissible transitions to the given depth. The result is pinned by a
    /// depth labelling: the seed comes first at depth zero; every reached
    /// point has a distinct coordinate; every other point is an admissible
    /// step from an earlier point one level shallower (so each point is
    /// reachable from the seed within its depth, at most `max_depth`); and
    /// every point short of the depth bound has all its admissible
    /// neighbours among the reached coordinates.
    pub fn generate_tree(&self, max_depth: usize) -> (r: Vec<S>)
        ensures
            r@.len() >= 1,
            r@[0]@ == self.space@,
            member_values_ok(r@),
            exists|lvl: Seq<int>|
                coords_depth_tree::<S>(
                    sseg_tree_coords::<S>(r@),
                    lvl,
                    self.space@,
                    self.transition_matrix@,
                    self.constraints@,
                    max_depth as int,
                ),
    {
        let mut visited: Vec<SpaceCoordinates> = Vec::new();
        let mut result: Vec<S> = Vec::new();
        proof {
            assert(visited@.map_values(|x: SpaceCoordinates| x@) =~= sseg_tree_coords::<S>(
                result@,
            ));
        }
        let lvl = explore_depth::<S>(
            &self.transition_matrix,
            &self.constraints,
            self.space.duplicate(),
            Ghost(self.space@),
            Ghost(max_depth as int),
            max_depth,
            &mut visited,
            &mut result,
            Ghost(Seq::empty()),
        );
        proof {
            let cs_seq = sseg_tree_coords::<S>(result@);
            assert(cs_seq.contains(S::sseg_coords(self.space@)));
            assert(result@.len() >= 1);
            assert(result@[0]@ == self.space@);
            assert(coords_depth_tree::<S>(
                cs_seq,
                lvl@,
                self.space@,
                self.transition_matrix@,
                self.constraints@,
                max_depth as int,
            ));
        }
        result
    }
}

/// The coordinates of a sequence of points.
pub open spec fn sseg_tree_coords<S: SchemeSegment>(r: Seq<S>) -> Seq<Seq<i64>> {
    r.map_values(|s: S| S::sseg_coords(s@))
}

/// The point a tree index stands for: the seed at index zero, and the
/// point materialised at the recorded coordinate otherwise.
pub open spec fn tree_value<S: SchemeSegment>(root: S::V, cs: Seq<Seq<i64>>, i: int) -> S::V {
    if i == 0 {
        root
    } else {
        S::from_coords_view(cs[i])
    }
}

/// Every non-seed member is the point materialised at its own coordinate.
pub open spec fn member_values_ok<S: SchemeSegment>(r: Seq<S>) -> bool {
    forall|i: int|
        1 <= i < r.len() ==> (#[trigger] r[i])@ == S::from_coords_view(S::sseg_coords(r[i]@))
}

/// A depth-labelled exploration tree over coordinates. The labelling pins
/// the traversal: the seed opens the tree at depth zero; coordinates never
/// repeat; every later coordinate is admissible and one admissible step
/// from an earlier, one-level-shallower member (so it is reachable from the
/// seed within its depth, which never exceeds the bound); and every member
/// short of the bound has all its admissible neighbours in the tree.
pub open spec fn coords_depth_tree<S: SchemeSegment>(
    cs: Seq<Seq<i64>>,
    lvl: Seq<int>,
    root: S::V,
    ts: Seq<TransitionView>,
    cons: Seq<ConstraintKind>,
    max_depth: int,
) -> bool {
    &&& lvl.len() == cs.len()
    &&& cs.len() >= 1
    &&& cs[0] == S::sseg_coords(root)
    &&& lvl[0] == 0
    &&& cs.no_duplicates()
    &&& forall|i: int| 0 <= i < cs.len() ==> 0 <= #[trigger] lvl[i] <= max_depth
    &&& forall|i: int|
        1 <= i < cs.len() ==> set_allows(cons, #[trigger] cs[i]) && exists|j: int|
            0 <= j < i && #[trigger] possible_coords::<S>(
                tree_value::<S>(root, cs, j),
                ts,
                cons,
            ).contains(cs[i]) && lvl[i] == lvl[j] + 1
    &&& forall|i: int, c: Seq<i64>|
        0 <= i < cs.len() && lvl[i] < max_depth && #[trigger] possible_coords::<S>(
            tree_value::<S>(root, cs, i),
            ts,
            cons,
        ).contains(c) ==> cs.contains(c)
}

/// The per-member conditions of a depth tree, without the completeness
/// clause: what holds of a traversal still in progress.
spec fn tree_partial_wf<S: SchemeSegment>(
    cs: Seq<Seq<i64>>,
    lvl: Seq<int>,
    root: S::V,
    ts: Seq<TransitionView>,
    cons: Seq<ConstraintKind>,
    max_depth: int,
) -> bool {
    &&& lvl.len() == cs.len()
    &&& forall|i: int| 0 <= i < cs.len() ==> 0 <= #[trigger] lvl[i] <= max_depth
    &&& forall|i: int|
        0 <= i < cs.len() ==> (i == 0 && #[trigger] cs[i] == S::sseg_coords(root) && lvl[0] == 0)
            || (i >= 1 && set_allows(cons, cs[i]) && exists|j: int|
            0 <= j < i && #[trigger] possible_coords::<S>(
                tree_value::<S>(root, cs, j),
                ts,
                cons,
            ).contains(cs[i]) && lvl[i] == lvl[j] + 1)
}

/// Completeness of the members in `[from, to)`: each of them short of the
/// bound has all its admissible neighbours in the tree.
spec fn members_complete<S: SchemeSegment>(
    cs: Seq<Seq<i64>>,
    lvl: Seq<int>,
    root: S::V,
    ts: Seq<TransitionView>,
    cons: Seq<ConstraintKind>,
    max_depth: int,
    from: int,
    to: int,
) -> bool {
    forall|i: int, c: Seq<i64>|
        from <= i < to && lvl[i] < max_depth && #[trigger] possible_coords::<S>(
            tree_value::<S>(root, cs, i),
            ts,
            cons,
        ).contains(c) ==> cs.contains(c)
}

/// The admissible next points of one point under a transition matrix and a
/// constraint set.
fn next_points<S: SchemeSegment>(
    space: &S,
    ts: &TransitionMatrix,
    cs: &ConstraintSet,
) -> (r: Vec<S>)
    ensures
        r@.map_values(|s: S| S::sseg_coords(s@)) == possible_coords::<S>(space@, ts@, cs@),
        forall|i: int|
            0 <= i < r@.len() ==> (#[trigger] r@[i])@ == S::from_coords_view(
                possible_coords::<S>(space@, ts@, cs@)[i],
            ),
{
    proof {
        reveal(possible_coords);
    }
    let mut candidates = space.basic_adjacency();
    let mut from_field = ts.transitions_from(&space.coordinates());
    let ghost a = candidates@.map_values(|c: SpaceCoordinates| c@);
    let ghost b = from_field@.map_values(|c: SpaceCoordinates| c@);
    candidates.append(&mut from_field);
    proof {
        assert(candidates@.map_values(|c: SpaceCoordinates| c@) =~= a + b);
    }
    let ghost all = a + b;
    let n = candidates.len();
    let mut out: Vec<S> = Vec::new();
    proof {
        assert(all.take(0) =~= Seq::<Seq<i64>>::empty());
        assert(out@.map_values(|s: S| S::sseg_coords(s@)) =~= all.take(0).filter(
            |c: Seq<i64>| set_allows(cs@, c),
        ));
    }
    let mut i: usize = 0;
    while i < n
        invariant
            n == candidates@.len(),
            all == candidates@.map_values(|c: SpaceCoordinates| c@),
            i <= n,
            out@.map_values(|s: S| S::sseg_coords(s@)) == all.take(i as int).filter(
                |c: Seq<i64>| set_allows(cs@, c),
            ),
            forall|w: int|
                0 <= w < out@.len() ==> (#[trigger] out@[w])@ == S::from_coords_view(
                    S::sseg_coords(out@[w]@),
                ),
        decreases n - i,
    {
        proof {
            reveal(possible_coords);
            assert(all[i as int] == candidates@[i as int]@);
            assert(all.take(i + 1) =~= all.take(i as int).push(all[i as int]));
            all.take(i as int).lemma_filter_push(all[i as int], |c: Seq<i64>| set_allows(cs@, c));
        }
        let c = &candidates[i];
        if cs.allows(c) {
            let ghost prev = out@;
            out.push(S::from_coordinates(c.duplicate()));
            proof {
                prev.lemma_push_map_commute(|s: S| S::sseg_coords(s@), out@.last());
                assert(out@.map_values(|s: S| S::sseg_coords(s@)) =~= all.take(i + 1).filter(
                    |c: Seq<i64>| set_allows(cs@, c),
                ));
            }
        } else {
            proof {
                assert(out@.map_values(|s: S| S::sseg_coords(s@)) =~= all.take(i + 1).filter(
                    |c: Seq<i64>| set_allows(cs@, c),
                ));
            }
        }
        i += 1;
    }
    proof {
        reveal(possible_coords);
        assert(all.take(n as int) =~= all);
    }
    out
}

/// Every coordinate a point can step to is admitted by the constraints.
pub proof fn lemma_possible_coords_allowed<S: SchemeSegment>(
    v: S::V,
    ts: Seq<TransitionView>,
    cons: Seq<ConstraintKind>,
    q: int,
)
    requires
        0 <= q < possible_coords::<S>(v, ts, cons).len(),
    ensures
        set_allows(cons, possible_coords::<S>(v, ts, cons)[q]),
{
    reveal(possible_coords);
    (S::sseg_adjacency(v) + spec_targets(ts, S::sseg_coords(v))).lemma_filter_pred(
        |c: Seq<i64>| set_allows(cons, c),
        q,
    );
}

/// After exploring one child, the bookkeeping of the parent's iteration
/// survives: the base prefix, the depth labels already fixed, the parent's
/// slot, the children already covered, and the completeness of everything
/// explored since the parent.
proof fn lemma_after_child<S: SchemeSegment>(
    pre: Seq<S>,
    pre_lvl: Seq<int>,
    cur: Seq<S>,
    cur_lvl: Seq<int>,
    base: Seq<S>,
    lvl_in: Seq<int>,
    root: S::V,
    ts: Seq<TransitionView>,
    cons: Seq<ConstraintKind>,
    max_depth: int,
    parent_idx: int,
    parent_value: S::V,
    k: int,
)
    requires
        pre.is_prefix_of(cur),
        base.is_prefix_of(pre),
        0 <= parent_idx < base.len(),
        base[parent_idx]@ == parent_value,
        lvl_in.len() < base.len(),
        pre_lvl.len() == pre.len(),
        cur_lvl.len() == cur.len(),
        forall|i: int| 0 <= i < pre_lvl.len() ==> #[trigger] cur_lvl[i] == pre_lvl[i],
        forall|i: int| 0 <= i < lvl_in.len() ==> #[trigger] pre_lvl[i] == lvl_in[i],
        0 <= k,
        forall|q: int|
            0 <= q < k ==> sseg_tree_coords::<S>(pre).contains(
                #[trigger] possible_coords::<S>(parent_value, ts, cons)[q],
            ),
        sseg_tree_coords::<S>(cur).contains(possible_coords::<S>(parent_value, ts, cons)[k]),
        members_complete::<S>(
            sseg_tree_coords::<S>(pre),
            pre_lvl,
            root,
            ts,
            cons,
            max_depth,
            parent_idx + 1,
            pre.len() as int,
        ),
        members_complete::<S>(
            sseg_tree_coords::<S>(cur),
            cur_lvl,
            root,
            ts,
            cons,
            max_depth,
            pre.len() as int,
            cur.len() as int,
        ),
    ensures
        base.is_prefix_of(cur),
        forall|i: int| 0 <= i < lvl_in.len() ==> #[trigger] cur_lvl[i] == lvl_in[i],
        cur_lvl[parent_idx] == pre_lvl[parent_idx],
        cur[parent_idx] == base[parent_idx],
        sseg_tree_coords::<S>(cur).contains(S::sseg_coords(parent_value)),
        forall|q: int|
            0 <= q < k + 1 ==> sseg_tree_coords::<S>(cur).contains(
                #[trigger] possible_coords::<S>(parent_value, ts, cons)[q],
            ),
        members_complete::<S>(
            sseg_tree_coords::<S>(cur),
            cur_lvl,
            root,
            ts,
            cons,
            max_depth,
            parent_idx + 1,
            cur.len() as int,
        ),
{
    let pre_cs = sseg_tree_coords::<S>(pre);
    let cur_cs = sseg_tree_coords::<S>(cur);
    assert forall|i: int| 0 <= i < pre.len() implies #[trigger] cur[i] == pre[i] by {
        assert(cur.take(pre.len() as int)[i] == cur[i]);
    }
    assert(base.is_prefix_of(cur)) by {
        assert(cur.take(base.len() as int) =~= base);
    }
    assert(cur[parent_idx] == base[parent_idx]) by {
        assert(pre.take(base.len() as int)[parent_idx] == pre[parent_idx]);
    }
    assert(sseg_tree_coords::<S>(cur).contains(S::sseg_coords(parent_value))) by {
        assert(cur_cs[parent_idx] == S::sseg_coords(parent_value));
    }
    assert forall|q: int|
        0 <= q < k + 1 implies sseg_tree_coords::<S>(cur).contains(
        #[trigger] possible_coords::<S>(parent_value, ts, cons)[q],
    ) by {
        if q < k {
            let w = choose|w: int|
                0 <= w < pre_cs.len() && #[trigger] pre_cs[w] == possible_coords::<S>(
                    parent_value,
                    ts,
                    cons,
                )[q];
            assert(cur[w] == pre[w]);
            assert(cur_cs[w] == pre_cs[w]);
        }
    }
    lemma_members_complete_join::<S>(
        pre_cs,
        pre_lvl,
        cur_cs,
        cur_lvl,
        root,
        ts,
        cons,
        max_depth,
        parent_idx + 1,
        pre.len() as int,
    );
}

/// Depth-first, depth-bounded exploration, with a ghost depth labelling
/// threaded through. The visited list holds exactly the coordinates of the
/// collected points; the labelling witnesses that every collected point is
/// justified by an earlier, one-level-shallower point, and that every point
/// this call collects short of the bound was fully expanded.
#[verifier::rlimit(100)]
fn explore_depth<S: SchemeSegment>(
    ts: &TransitionMatrix,
    cs: &ConstraintSet,
    state: S,
    root: Ghost<S::V>,
    max_depth: Ghost<int>,
    depth: usize,
    visited: &mut Vec<SpaceCoordinates>,
    result: &mut Vec<S>,
    lvl_in: Ghost<Seq<int>>,
) -> (lvl: Ghost<Seq<int>>)
    requires
        depth as int <= max_depth@,
        old(visited)@.map_values(|x: SpaceCoordinates| x@) == sseg_tree_coords::<S>(old(result)@),
        sseg_tree_coords::<S>(old(result)@).no_duplicates(),
        tree_partial_wf::<S>(
            sseg_tree_coords::<S>(old(result)@),
            lvl_in@,
            root@,
            ts@,
            cs@,
            max_depth@,
        ),
        member_values_ok(old(result)@),
        (old(result)@.len() == 0 && state@ == root@ && depth as int == max_depth@) || (old(
            result,
        )@.len() >= 1 && set_allows(cs@, S::sseg_coords(state@)) && state@ == S::from_coords_view(
            S::sseg_coords(state@),
        ) && exists|j: int|
            0 <= j < old(result)@.len() && #[trigger] possible_coords::<S>(
                tree_value::<S>(root@, sseg_tree_coords::<S>(old(result)@), j),
                ts@,
                cs@,
            ).contains(S::sseg_coords(state@)) && lvl_in@[j] + 1 == max_depth@ - depth),
    ensures
        final(visited)@.map_values(|x: SpaceCoordinates| x@) == sseg_tree_coords::<S>(
            final(result)@,
        ),
        sseg_tree_coords::<S>(final(result)@).no_duplicates(),
        old(result)@.is_prefix_of(final(result)@),
        lvl@.len() == final(result)@.len(),
        forall|i: int| 0 <= i < lvl_in@.len() ==> lvl@[i] == lvl_in@[i],
        tree_partial_wf::<S>(
            sseg_tree_coords::<S>(final(result)@),
            lvl@,
            root@,
            ts@,
            cs@,
            max_depth@,
        ),
        member_values_ok(final(result)@),
        sseg_tree_coords::<S>(final(result)@).contains(S::sseg_coords(state@)),
        final(result)@.len() > old(result)@.len() ==> final(result)@[old(result)@.len() as int]@
            == state@ && lvl@[old(result)@.len() as int] == max_depth@ - depth,
        members_complete::<S>(
            sseg_tree_coords::<S>(final(result)@),
            lvl@,
            root@,
            ts@,
            cs@,
            max_depth@,
            old(result)@.len() as int,
            final(result)@.len() as int,
        ),
    decreases depth,
{
    let coords = state.coordinates();
    if contains_coords(visited, &coords) {
        proof {
            assert(old(result)@.is_prefix_of(result@)) by {
                assert(result@ =~= old(result)@);
                assert(result@.take(old(result)@.len() as int) =~= old(result)@);
            }
        }
        return lvl_in;
    }
    let ghost old_result = result@;
    let ghost old_cs_seq = sseg_tree_coords::<S>(old_result);
    let ghost level: int = max_depth@ - depth;
    let nexts = next_points::<S>(&state, ts, cs);
    let ghost parent_value = state@;
    visited.push(coords);
    result.push(state);
    let ghost lvl0: Seq<int> = lvl_in@.push(level);
    proof {
        let ghost c = visited@.last();
        visited@.drop_last().lemma_push_map_commute(|x: SpaceCoordinates| x@, c);
        old_result.lemma_push_map_commute(|s: S| S::sseg_coords(s@), result@.last());
        assert(visited@ =~= visited@.drop_last().push(c));
        assert(result@ =~= old_result.push(result@.last()));
        assert(visited@.map_values(|x: SpaceCoordinates| x@) =~= sseg_tree_coords::<S>(result@));
        let tc = sseg_tree_coords::<S>(result@);
        assert(tc =~= old_cs_seq.push(c@));
        assert(!old_cs_seq.contains(c@));
        lemma_no_dup_push(old_cs_seq, c@);
        lemma_partial_wf_extends::<S>(old_cs_seq, lvl_in@, root@, ts@, cs@, max_depth@, c@, level);
        assert(tree_partial_wf::<S>(tc, lvl0, root@, ts@, cs@, max_depth@));
        assert(member_values_ok(result@));
        assert(tc[result@.len() - 1] == S::sseg_coords(parent_value));
        assert(tc.contains(S::sseg_coords(parent_value)));
    }
    let mut lvl: Ghost<Seq<int>> = Ghost(lvl0);
    if depth == 0 {
        proof {
            assert(lvl@[old_result.len() as int] == max_depth@);
        }
        return lvl;
    }
    let ghost base = result@;
    let ghost parent_idx = old_result.len() as int;
    let n = nexts.len();
    let mut k: usize = 0;
    while k < n
        invariant
            n == nexts@.len(),
            depth >= 1,
            depth as int <= max_depth@,
            level == max_depth@ - depth,
            nexts@.map_values(|s: S| S::sseg_coords(s@)) == possible_coords::<S>(
                parent_value,
                ts@,
                cs@,
            ),
            forall|w: int|
                0 <= w < nexts@.len() ==> (#[trigger] nexts@[w])@ == S::from_coords_view(
                    possible_coords::<S>(parent_value, ts@, cs@)[w],
                ),
            k <= n,
            visited@.map_values(|x: SpaceCoordinates| x@) == sseg_tree_coords::<S>(result@),
            sseg_tree_coords::<S>(result@).no_duplicates(),
            base.is_prefix_of(result@),
            base.len() == old_result.len() + 1,
            base[parent_idx]@ == parent_value,
            parent_idx == old_result.len() as int,
            lvl_in@.len() == old_result.len(),
            parent_idx == 0 ==> parent_value == root@,
            parent_idx >= 1 ==> parent_value == S::from_coords_view(
                S::sseg_coords(parent_value),
            ),
            lvl@.len() == result@.len(),
            forall|i: int| 0 <= i < lvl_in@.len() ==> lvl@[i] == lvl_in@[i],
            lvl@[parent_idx] == level,
            tree_partial_wf::<S>(
                sseg_tree_coords::<S>(result@),
                lvl@,
                root@,
                ts@,
                cs@,
                max_depth@,
            ),
            member_values_ok(result@),
            sseg_tree_coords::<S>(result@).contains(S::sseg_coords(parent_value)),
            forall|q: int|
                0 <= q < k ==> sseg_tree_coords::<S>(result@).contains(
                    #[trigger] possible_coords::<S>(parent_value, ts@, cs@)[q],
                ),
            members_complete::<S>(
                sseg_tree_coords::<S>(result@),
                lvl@,
                root@,
                ts@,
                cs@,
                max_depth@,
                parent_idx + 1,
                result@.len() as int,
            ),
        decreases n - k,
    {
        let ghost pre = result@;
        let ghost pre_cs = sseg_tree_coords::<S>(pre);
        let ghost pre_lvl = lvl@;
        let next = nexts[k].duplicate();
        proof {
            assert(nexts@[k as int]@ == next@);
            assert(S::sseg_coords(next@) == possible_coords::<S>(parent_value, ts@, cs@)[
                k as int]);
            assert(possible_coords::<S>(parent_value, ts@, cs@).contains(S::sseg_coords(next@)));
            assert(set_allows(cs@, S::sseg_coords(next@))) by {
                lemma_possible_coords_allowed::<S>(parent_value, ts@, cs@, k as int);
            }
            assert(next@ == S::from_coords_view(S::sseg_coords(next@)));
            assert(tree_value::<S>(root@, pre_cs, parent_idx) == parent_value) by {
                if parent_idx == 0 {
                    assert(pre[0]@ == parent_value);
                    assert(old_result.len() == 0);
                    assert(parent_value == root@);
                } else {
                    assert(pre[parent_idx]@ == parent_value);
                    assert(pre_cs[parent_idx] == S::sseg_coords(parent_value));
                    assert(parent_value == S::from_coords_view(S::sseg_coords(parent_value)));
                }
            }
            assert(lvl@[parent_idx] + 1 == max_depth@ - (depth - 1));
        }
        lvl = explore_depth::<S>(
            ts,
            cs,
            next,
            root,
            max_depth,
            depth - 1,
            visited,
            result,
            lvl,
        );
        proof {
            assert(sseg_tree_coords::<S>(result@).contains(
                possible_coords::<S>(parent_value, ts@, cs@)[k as int],
            )) by {
                assert(sseg_tree_coords::<S>(result@).contains(S::sseg_coords(
                    nexts@[k as int]@,
                )));
            }
            lemma_after_child::<S>(
                pre,
                pre_lvl,
                result@,
                lvl@,
                base,
                lvl_in@,
                root@,
                ts@,
                cs@,
                max_depth@,
                parent_idx,
                parent_value,
                k as int,
            );
        }
        k += 1;
    }
    proof {
        let tc = sseg_tree_coords::<S>(result@);
        assert(tree_value::<S>(root@, tc, parent_idx) == parent_value) by {
            assert(result@[parent_idx] == base[parent_idx]);
            if parent_idx == 0 {
            } else {
                assert(tc[parent_idx] == S::sseg_coords(parent_value));
            }
        }
        lemma_parent_completeness::<S>(
            tc,
            lvl@,
            root@,
            ts@,
            cs@,
            max_depth@,
            parent_idx,
            parent_value,
        );
        lemma_members_complete_extend_front::<S>(
            tc,
            lvl@,
            root@,
            ts@,
            cs@,
            max_depth@,
            parent_idx,
            result@.len() as int,
        );
    }
    lvl
}

/// Completeness over two adjacent ranges joins into one.
proof fn lemma_members_complete_extend_front<S: SchemeSegment>(
    tc: Seq<Seq<i64>>,
    lvl: Seq<int>,
    root: S::V,
    ts: Seq<TransitionView>,
    cons: Seq<ConstraintKind>,
    max_depth: int,
    from: int,
    to: int,
)
    requires
        members_complete::<S>(tc, lvl, root, ts, cons, max_depth, from, from + 1),
        members_complete::<S>(tc, lvl, root, ts, cons, max_depth, from + 1, to),
    ensures
        members_complete::<S>(tc, lvl, root, ts, cons, max_depth, from, to),
{
}

/// A list without repeats, extended by a fresh element, still has none.
proof fn lemma_no_dup_push(old_tc: Seq<Seq<i64>>, c: Seq<i64>)
    requires
        old_tc.no_duplicates(),
        !old_tc.contains(c),
    ensures
        old_tc.push(c).no_duplicates(),
{
    let tc = old_tc.push(c);
    assert forall|p: int, q: int|
        0 <= p < tc.len() && 0 <= q < tc.len() && p != q implies tc[p] != tc[q] by {
        if p < old_tc.len() && q < old_tc.len() {
            assert(tc[p] == old_tc[p]);
            assert(tc[q] == old_tc[q]);
        } else if p == old_tc.len() && q < old_tc.len() {
            assert(tc[q] == old_tc[q]);
        } else if q == old_tc.len() && p < old_tc.len() {
            assert(tc[p] == old_tc[p]);
        }
    }
}

/// A node whose admissible steps all landed in the tree is complete.
proof fn lemma_parent_completeness<S: SchemeSegment>(
    tc: Seq<Seq<i64>>,
    lvl: Seq<int>,
    root: S::V,
    ts: Seq<TransitionView>,
    cons: Seq<ConstraintKind>,
    max_depth: int,
    parent_idx: int,
    parent_value: S::V,
)
    requires
        0 <= parent_idx < tc.len(),
        tree_value::<S>(root, tc, parent_idx) == parent_value,
        forall|q: int|
            0 <= q < possible_coords::<S>(parent_value, ts, cons).len() ==> tc.contains(
                #[trigger] possible_coords::<S>(parent_value, ts, cons)[q],
            ),
    ensures
        members_complete::<S>(tc, lvl, root, ts, cons, max_depth, parent_idx, parent_idx + 1),
{
    assert forall|i: int, c: Seq<i64>|
        parent_idx <= i < parent_idx + 1 && lvl[i] < max_depth && #[trigger] possible_coords::<S>(
            tree_value::<S>(root, tc, i),
            ts,
            cons,
        ).contains(c) implies tc.contains(c) by {
        let q = choose|q: int|
            0 <= q < possible_coords::<S>(parent_value, ts, cons).len()
                && #[trigger] possible_coords::<S>(parent_value, ts, cons)[q] == c;
    }
}

/// Extending a partially built tree by one justified coordinate keeps it
/// partially well formed; old members' justifications survive because the
/// indices they cite are unchanged.
proof fn lemma_partial_wf_extends<S: SchemeSegment>(
    old_cs: Seq<Seq<i64>>,
    old_lvl: Seq<int>,
    root: S::V,
    ts: Seq<TransitionView>,
    cons: Seq<ConstraintKind>,
    max_depth: int,
    c: Seq<i64>,
    level: int,
)
    requires
        tree_partial_wf::<S>(old_cs, old_lvl, root, ts, cons, max_depth),
        0 <= level <= max_depth,
        (old_cs.len() == 0 && c == S::sseg_coords(root) && level == 0) || (old_cs.len() >= 1
            && set_allows(cons, c) && exists|j: int|
            0 <= j < old_cs.len() && #[trigger] possible_coords::<S>(
                tree_value::<S>(root, old_cs, j),
                ts,
                cons,
            ).contains(c) && old_lvl[j] + 1 == level),
    ensures
        tree_partial_wf::<S>(old_cs.push(c), old_lvl.push(level), root, ts, cons, max_depth),
{
    let new_cs = old_cs.push(c);
    let new_lvl = old_lvl.push(level);
    assert forall|i: int|
        0 <= i < new_cs.len() implies (i == 0 && #[trigger] new_cs[i] == S::sseg_coords(root)
            && new_lvl[0] == 0) || (i >= 1 && set_allows(cons, new_cs[i]) && exists|j: int|
            0 <= j < i && #[trigger] possible_coords::<S>(
                tree_value::<S>(root, new_cs, j),
                ts,
                cons,
            ).contains(new_cs[i]) && new_lvl[i] == new_lvl[j] + 1) by {
        if i < old_cs.len() {
            assert(new_cs[i] == old_cs[i]);
            if !(i == 0 && old_cs[i] == S::sseg_coords(root) && old_lvl[0] == 0) {
                let j = choose|j: int|
                    0 <= j < i && #[trigger] possible_coords::<S>(
                        tree_value::<S>(root, old_cs, j),
                        ts,
                        cons,
                    ).contains(old_cs[i]) && old_lvl[i] == old_lvl[j] + 1;
                assert(new_cs[j] == old_cs[j]);
                assert(tree_value::<S>(root, new_cs, j) == tree_value::<S>(root, old_cs, j));
                assert(possible_coords::<S>(tree_value::<S>(root, new_cs, j), ts, cons).contains(
                    new_cs[i],
                ));
            }
        } else {
            if old_cs.len() == 0 {
                assert(i == 0);
            } else {
                let j = choose|j: int|
                    0 <= j < old_cs.len() && #[trigger] possible_coords::<S>(
                        tree_value::<S>(root, old_cs, j),
                        ts,
                        cons,
                    ).contains(c) && old_lvl[j] + 1 == level;
                assert(new_cs[j] == old_cs[j]);
                assert(tree_value::<S>(root, new_cs, j) == tree_value::<S>(root, old_cs, j));
                assert(possible_coords::<S>(tree_value::<S>(root, new_cs, j), ts, cons).contains(
                    new_cs[i],
                ));
            }
        }
    }
}

/// Completed members stay completed when the tree grows by appending: the
/// member's value is unchanged and coordinate membership is monotone.
proof fn lemma_members_complete_join<S: SchemeSegment>(
    pre_cs: Seq<Seq<i64>>,
    pre_lvl: Seq<int>,
    new_cs: Seq<Seq<i64>>,
    new_lvl: Seq<int>,
    root: S::V,
    ts: Seq<TransitionView>,
    cons: Seq<ConstraintKind>,
    max_depth: int,
    from: int,
    mid: int,
)
    requires
        0 <= from,
        mid == pre_cs.len(),
        pre_cs.len() <= new_cs.len(),
        pre_lvl.len() == pre_cs.len(),
        new_lvl.len() == new_cs.len(),
        forall|i: int| 0 <= i < pre_cs.len() ==> #[trigger] new_cs[i] == pre_cs[i],
        forall|i: int| 0 <= i < pre_lvl.len() ==> #[trigger] new_lvl[i] == pre_lvl[i],
        members_complete::<S>(pre_cs, pre_lvl, root, ts, cons, max_depth, from, mid),
        members_complete::<S>(new_cs, new_lvl, root, ts, cons, max_depth, mid, new_cs.len() as int),
    ensures
        members_complete::<S>(new_cs, new_lvl, root, ts, cons, max_depth, from, new_cs.len() as int),
{
    assert forall|i: int, c: Seq<i64>|
        from <= i < new_cs.len() && new_lvl[i] < max_depth && #[trigger] possible_coords::<S>(
            tree_value::<S>(root, new_cs, i),
            ts,
            cons,
        ).contains(c) implies new_cs.contains(c) by {
        if i < mid {
            assert(new_cs[i] == pre_cs[i]);
            assert(tree_value::<S>(root, new_cs, i) == tree_value::<S>(root, pre_cs, i));
            assert(possible_coords::<S>(tree_value::<S>(root, pre_cs, i), ts, cons).contains(c));
            assert(pre_cs.contains(c));
            let w = choose|w: int| 0 <= w < pre_cs.len() && #[trigger] pre_cs[w] == c;
            assert(new_cs[w] == c);
        }
    }
}

/// The outcome of composing two fields: whether each point is admissible
/// under its own field, and whether both are.
#[derive(Debug)]
pub struct CompositionResult {
    pub space1_allowed: bool,
    pub space2_allowed: bool,
    pub both_allowed: bool,
    pub compatibility: String,
}

/// Compose two fields: both are read, neither is changed. The composition
/// is compatible exactly when both points are admissible under their own
/// constraints.
pub fn compose_fields<S1: SchemeSegment, S2: SchemeSegment>(
    field1: &StateField<S1>,
    field2: &StateField<S2>,
) -> (r: CompositionResult)
    ensures
        r.space1_allowed == set_allows(field1.constraints@, S1::sseg_coords(field1.space@)),
        r.space2_allowed == set_allows(field2.constraints@, S2::sseg_coords(field2.space@)),
        r.both_allowed == (r.space1_allowed && r.space2_allowed),
        r.compatibility@ == if r.both_allowed {
            "Compatible"@
        } else {
            "Incompatible"@
        },
{
    let space1_allowed = field1.is_allowed();
    let space2_allowed = field2.is_allowed();
    let both_allowed = space1_allowed && space2_allowed;
    let compatibility = if both_allowed {
        String::from_str("Compatible")
    } else {
        String::from_str("Incompatible")
    };
    CompositionResult { space1_allowed, space2_allowed, both_allowed, compatibility }
}

/// Observe one field through a coordinate projector: the projection is
/// yielded only when the field's constraints admit the point.
pub fn observe_field<S: SchemeSegment, P: CoordinateProjector>(
    field: &StateField<S>,
    projector: &P,
) -> (r: Option<P::Output>)
    ensures
        r.deep_view() == if set_allows(field.constraints@, S::sseg_coords(field.space@)) {
            projector.spec_project_coordinates(S::sseg_coords(field.space@))
        } else {
            None::<<P::Output as DeepView>::V>
        },
{
    if field.is_allowed() {
        projector.project_coordinates(&field.space.coordinates())
    } else {
        None
    }
}

/// Whether some coordinate of the tree is admitted by the constraints and
/// projects to the value `x`.
pub open spec fn coords_project_to<P: CoordinateProjector>(
    projector: &P,
    cons: Seq<ConstraintKind>,
    tc: Seq<Seq<i64>>,
    x: <P::Output as DeepView>::V,
) -> bool {
    exists|i: int|
        0 <= i < tc.len() && set_allows(cons, #[trigger] tc[i])
            && projector.spec_project_coordinates(tc[i]) == Some(x)
}

proof fn lemma_coords_project_to_split<P: CoordinateProjector>(
    projector: &P,
    cons: Seq<ConstraintKind>,
    tc: Seq<Seq<i64>>,
    i: int,
    x: <P::Output as DeepView>::V,
)
    requires
        0 <= i < tc.len(),
    ensures
        coords_project_to::<P>(projector, cons, tc.take(i + 1), x) <==> (coords_project_to::<P>(
            projector,
            cons,
            tc.take(i),
            x,
        ) || (set_allows(cons, tc[i]) && projector.spec_project_coordinates(tc[i]) == Some(x))),
{
    let upto = tc.take(i);
    let upto1 = tc.take(i + 1);
    if coords_project_to::<P>(projector, cons, upto1, x) {
        let w = choose|w: int|
            0 <= w < upto1.len() && set_allows(cons, #[trigger] upto1[w])
                && projector.spec_project_coordinates(upto1[w]) == Some(x);
        if w < i {
            assert(upto[w] == upto1[w]);
            assert(coords_project_to::<P>(projector, cons, upto, x));
        } else {
            assert(upto1[w] == tc[i]);
        }
    }
    if coords_project_to::<P>(projector, cons, upto, x) {
        let w = choose|w: int|
            0 <= w < upto.len() && set_allows(cons, #[trigger] upto[w])
                && projector.spec_project_coordinates(upto[w]) == Some(x);
        assert(upto1[w] == upto[w]);
        assert(coords_project_to::<P>(projector, cons, upto1, x));
    }
    if set_allows(cons, tc[i]) && projector.spec_project_coordinates(tc[i]) == Some(x) {
        assert(upto1[i] == tc[i]);
        assert(coords_project_to::<P>(projector, cons, upto1, x));
    }
}

/// Explore the transition graph from a field's point to a bounded depth and
/// observe every reached point, deduplicating by projected value: two
/// points that project to equal values collapse to one result. There is a
/// depth-labelled tree over the field (seed first, admissible justified
/// steps, complete below the bound) such that the result holds exactly the
/// projections of its admitted coordinates.
pub fn observe_tree<S: SchemeSegment, P: CoordinateProjector>(
    field: &StateField<S>,
    projector: &P,
    max_depth: usize,
) -> (r: Vec<P::Output>) where P::Output: PartialEq
    ensures
        exists|tc: Seq<Seq<i64>>, lvl: Seq<int>|
            {
                &&& #[trigger] coords_depth_tree::<S>(
                    tc,
                    lvl,
                    field.space@,
                    field.transition_matrix@,
                    field.constraints@,
                    max_depth as int,
                )
                &&& (forall|k: int|
                    0 <= k < r.deep_view().len() ==> coords_project_to::<P>(
                        projector,
                        field.constraints@,
                        tc,
                        #[trigger] r.deep_view()[k],
                    ))
                &&& (P::Output::obeys_eq_spec() && crate::projector::eq_is_view_eq::<P::Output>()
                    ==> r.deep_view().no_duplicates() && (forall|x: <P::Output as DeepView>::V|
                    #[trigger] r.deep_view().contains(x) <==> coords_project_to::<P>(
                        projector,
                        field.constraints@,
                        tc,
                        x,
                    )))
            },
{
    let ghost ok = P::Output::obeys_eq_spec() && crate::projector::eq_is_view_eq::<P::Output>();
    let tree = field.generate_tree(max_depth);
    let ghost tc = sseg_tree_coords::<S>(tree@);
    let ghost lvl = choose|lvl: Seq<int>|
        coords_depth_tree::<S>(
            tc,
            lvl,
            field.space@,
            field.transition_matrix@,
            field.constraints@,
            max_depth as int,
        );
    let n = tree.len();
    let mut out: Vec<P::Output> = Vec::new();
    let mut i: usize = 0;
    while i < n
        invariant
            n == tree@.len(),
            tc == sseg_tree_coords::<S>(tree@),
            i <= n,
            ok == (P::Output::obeys_eq_spec() && crate::projector::eq_is_view_eq::<P::Output>()),
            forall|k: int|
                0 <= k < out.deep_view().len() ==> coords_project_to::<P>(
                    projector,
                    field.constraints@,
                    tc,
                    #[trigger] out.deep_view()[k],
                ),
            ok ==> out.deep_view().no_duplicates(),
            ok ==> forall|x: <P::Output as DeepView>::V|
                #[trigger] out.deep_view().contains(x) <==> coords_project_to::<P>(
                    projector,
                    field.constraints@,
                    tc.take(i as int),
                    x,
                ),
        decreases n - i,
    {
        let coords = tree[i].coordinates();
        proof {
            assert(coords@ == tc[i as int]);
        }
        if field.constraints.allows(&coords) {
            match projector.project_coordinates(&coords) {
                Some(value) => {
                    let ghost vd = value.deep_view();
                    if !contains_value(&out, &value) {
                        let ghost before = out.deep_view();
                        out.push(value);
                        proof {
                            assert(out.deep_view() =~= before.push(vd));
                            assert(coords_project_to::<P>(projector, field.constraints@, tc, vd));
                            if ok {
                                assert forall|p: int, q: int|
                                    0 <= p < out.deep_view().len() && 0 <= q
                                        < out.deep_view().len() && p != q implies out.deep_view()[p]
                                    != out.deep_view()[q] by {
                                    if p < before.len() && q < before.len() {
                                        assert(before.no_duplicates());
                                    } else if p == before.len() && q < before.len() {
                                        assert(!before.contains(vd));
                                        assert(before[q] == out.deep_view()[q]);
                                    } else if q == before.len() && p < before.len() {
                                        assert(!before.contains(vd));
                                        assert(before[p] == out.deep_view()[p]);
                                    }
                                }
                                assert forall|x: <P::Output as DeepView>::V|
                                    #[trigger] out.deep_view().contains(x) <==> coords_project_to::<
                                    P,
                                >(projector, field.constraints@, tc.take(i + 1), x) by {
                                    lemma_coords_project_to_split::<P>(
                                        projector,
                                        field.constraints@,
                                        tc,
                                        i as int,
                                        x,
                                    );
                                    if out.deep_view().contains(x) {
                                        let w = choose|w: int|
                                            0 <= w < out.deep_view().len()
                                                && #[trigger] out.deep_view()[w] == x;
                                        if w < before.len() {
                                            assert(before.contains(x));
                                        } else {
                                            assert(x == vd);
                                        }
                                    }
                                    if coords_project_to::<P>(
                                        projector,
                                        field.constraints@,
                                        tc.take(i + 1),
                                        x,
                                    ) {
                                        if before.contains(x) {
                                            let w = choose|w: int|
                                                0 <= w < before.len() && #[trigger] before[w] == x;
                                            assert(out.deep_view()[w] == x);
                                        } else {
                                            assert(x == vd);
                                            assert(out.deep_view().last() == vd);
                                        }
                                    }
                                }
                            }
                        }
                    } else {
                        proof {
                            if ok {
                                assert(out.deep_view().contains(vd));
                                assert forall|x: <P::Output as DeepView>::V|
                                    #[trigger] out.deep_view().contains(x) <==> coords_project_to::<
                                    P,
                                >(projector, field.constraints@, tc.take(i + 1), x) by {
                                    lemma_coords_project_to_split::<P>(
                                        projector,
                                        field.constraints@,
                                        tc,
                                        i as int,
                                        x,
                                    );
                                }
                            }
                        }
                    }
                },
                None => {
                    proof {
                        if ok {
                            assert forall|x: <P::Output as DeepView>::V|
                                #[trigger] out.deep_view().contains(x) <==> coords_project_to::<P>(
                                    projector,
                                    field.constraints@,
                                    tc.take(i + 1),
                                    x,
                                ) by {
                                lemma_coords_project_to_split::<P>(
                                    projector,
                                    field.constraints@,
                                    tc,
                                    i as int,
                                    x,
                                );
                            }
                        }
                    }
                },
            }
        } else {
            proof {
                if ok {
                    assert forall|x: <P::Output as DeepView>::V|
                        #[trigger] out.deep_view().contains(x) <==> coords_project_to::<P>(
                            projector,
                            field.constraints@,
                            tc.take(i + 1),
                            x,
                        ) by {
                        lemma_coords_project_to_split::<P>(
                            projector,
                            field.constraints@,
                            tc,
                            i as int,
                            x,
                        );
                    }
                }
            }
        }
        i += 1;
    }
    proof {
        assert(tc.take(n as int) =~= tc);
    }
    out
}

/// Assembles a StateField step by step: constraints and transitions are
/// collected first and applied at build.
pub struct FieldBuilder<S: SchemeSegment> {
    space: S,
    constraints: Vec<ConstraintKind>,
    transitions: Vec<(SpaceCoordinates, SpaceCoordinates, i64)>,
}

impl<S: SchemeSegment> FieldBuilder<S> {
    /// The point the field will be built over.
    pub closed spec fn spec_space(&self) -> S::V {
        self.space@
    }

    /// The constraints collected so far.
    pub closed spec fn spec_builder_constraints(&self) -> Seq<ConstraintKind> {
        self.constraints@
    }

    /// The transitions collected so far.
    pub closed spec fn spec_builder_transitions(&self) -> Seq<TransitionView> {
        self.transitions@.map_values(
            |t: (SpaceCoordinates, SpaceCoordinates, i64)| (t.0@, t.1@, t.2),
        )
    }

    /// A builder over one point, with nothing collected yet.
    pub fn new(space: S) -> (r: Self)
        ensures
            r.spec_space() == space@,
            r.spec_builder_constraints() == Seq::<ConstraintKind>::empty(),
            r.spec_builder_transitions() == Seq::<TransitionView>::empty(),
    {
        let r = FieldBuilder { space, constraints: Vec::new(), transitions: Vec::new() };
        proof {
            assert(r.spec_builder_transitions() =~= Seq::<TransitionView>::empty());
        }
        r
    }

    /// Collect one constraint.
    pub fn add_constraint(self, constraint: ConstraintKind) -> (r: Self)
        ensures
            r.spec_space() == self.spec_space(),
            r.spec_builder_constraints() == self.spec_builder_constraints().push(constraint),
            r.spec_builder_transitions() == self.spec_builder_transitions(),
    {
        let mut b = self;
        b.constraints.push(constraint);
        proof {
            assert(b.spec_builder_transitions() =~= self.spec_builder_transitions());
        }
        b
    }

    /// Collect one transition out of the builder's point.
    pub fn add_transition(self, to: SpaceCoordinates, weight: i64) -> (r: Self)
        ensures
            r.spec_space() == self.spec_space(),
            r.spec_builder_constraints() == self.spec_builder_constraints(),
            r.spec_builder_transitions() == self.spec_builder_transitions().push(
                (S::sseg_coords(self.spec_space()), to@, weight),
            ),
    {
        let mut b = self;
        let from = b.space.coordinates();
        let ghost fv = from@;
        let ghost tv = to@;
        b.transitions.push((from, to, weight));
        proof {
            assert(b.spec_builder_transitions() =~= self.spec_builder_transitions().push(
                (fv, tv, weight),
            ));
        }
        b
    }

    /// Build the field: everything collected is applied in order.
    pub fn build(self) -> (r: StateField<S>)
        ensures
            r.space@ == self.spec_space(),
            r.constraints@ == self.spec_builder_constraints(),
            r.transition_matrix@ == self.spec_builder_transitions(),
    {
        let ghost want_cs = self.spec_builder_constraints();
        let ghost want_ts = self.spec_builder_transitions();
        let mut field = StateField::new(self.space);
        let mut cs = self.constraints;
        let ghost cs_all = cs@;
        let ncs = cs.len();
        let mut i: usize = 0;
        proof {
            assert(field.constraints@ =~= cs_all.take(0));
        }
        while i < ncs
            invariant
                ncs == cs_all.len(),
                cs@ == cs_all.skip(i as int),
                i <= ncs,
                field.constraints@ == cs_all.take(i as int),
                field.space@ == self.spec_space(),
                field.transition_matrix@ == Seq::<TransitionView>::empty(),
            decreases ncs - i,
        {
            proof {
                assert(cs@.len() == ncs - i);
                assert(cs@[0] == cs_all[i as int]);
                assert(cs_all.skip(i as int).drop_first() =~= cs_all.skip(i + 1));
                assert(cs@.remove(0) =~= cs@.drop_first());
                assert(cs_all.take(i + 1) =~= cs_all.take(i as int).push(cs_all[i as int]));
            }
            let c = cs.remove(0);
            field = field.with_constraint(c);
            i += 1;
        }
        proof {
            assert(cs_all.take(ncs as int) =~= cs_all);
        }
        let mut ts = self.transitions;
        let ghost ts_all = want_ts;
        let nts = ts.len();
        let mut k: usize = 0;
        proof {
            assert(ts@.map_values(
                |t: (SpaceCoordinates, SpaceCoordinates, i64)| (t.0@, t.1@, t.2),
            ) =~= ts_all);
            assert(field.transition_matrix@ =~= ts_all.take(0));
        }
        while k < nts
            invariant
                nts - k == ts@.len(),
                ts@.map_values(|t: (SpaceCoordinates, SpaceCoordinates, i64)| (t.0@, t.1@, t.2))
                    == ts_all.skip(k as int),
                ts_all.len() == nts,
                k <= nts,
                field.transition_matrix@ == ts_all.take(k as int),
                field.space@ == self.spec_space(),
                field.constraints@ == cs_all,
            decreases nts - k,
        {
            proof {
                let m = ts@.map_values(
                    |t: (SpaceCoordinates, SpaceCoordinates, i64)| (t.0@, t.1@, t.2),
                );
                assert(m[0] == ts_all[k as int]);
                assert((ts@[0].0@, ts@[0].1@, ts@[0].2) == ts_all[k as int]);
                assert(ts@.remove(0) =~= ts@.drop_first());
                assert(ts@.drop_first().map_values(
                    |t: (SpaceCoordinates, SpaceCoordinates, i64)| (t.0@, t.1@, t.2),
                ) =~= ts_all.skip(k as int).drop_first());
                assert(ts_all.skip(k as int).drop_first() =~= ts_all.skip(k + 1));
                assert(ts_all.take(k + 1) =~= ts_all.take(k as int).push(ts_all[k as int]));
            }
            let t = ts.remove(0);
            field = field.with_transition(t.0, t.1, t.2);
            k += 1;
        }
        proof {
            assert(ts_all.take(nts as int) =~= ts_all);
        }
        field
    }
}

} // verus!
