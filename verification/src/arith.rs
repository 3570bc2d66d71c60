//! A concrete one-dimensional state space over the integers, whose
//! transitions are +1, -1, doubling and halving, and whose constraints are
//! simple arithmetic predicates. The branching space explores its
//! trajectories to a fixed depth and answers observations from them.

use vstd::prelude::*;
use crate::coords::SpaceCoordinates;
use crate::statespace::{explore_states, tree_wf, StateSpace};

verus! {

/// A constraint on a one-dimensional integer state.
#[derive(Clone, Copy, Debug, PartialEq, Eq, Hash, Structural)]
pub enum ArithmeticConstraint {
    /// The value is even.
    Even,
    /// The value lies in the closed range.
    InRange(i64, i64),
    /// The value is a multiple of a positive modulus.
    MultipleOf(i64),
    /// The value is strictly positive.
    Positive,
}

/// What one arithmetic constraint admits.
pub open spec fn arith_allows(c: ArithmeticConstraint, v: i64) -> bool {
    match c {
        ArithmeticConstraint::Even => v % 2 == 0,
        ArithmeticConstraint::InRange(lo, hi) => lo <= v && v <= hi,
        ArithmeticConstraint::MultipleOf(k) => k >= 1 && v % k == 0,
        ArithmeticConstraint::Positive => v > 0,
    }
}

/// What a conjunction of arithmetic constraints admits.
pub open spec fn arith_all_allow(cs: Seq<ArithmeticConstraint>, v: i64) -> bool {
    forall|i: int| 0 <= i < cs.len() ==> arith_allows(#[trigger] cs[i], v)
}

/// Decide one arithmetic constraint.
pub fn arith_constraint_allows(c: &ArithmeticConstraint, v: i64) -> (r: bool)
    ensures
        r == arith_allows(*c, v),
{
    match c {
        ArithmeticConstraint::Even => v % 2 == 0,
        ArithmeticConstraint::InRange(lo, hi) => *lo <= v && v <= *hi,
        ArithmeticConstraint::MultipleOf(k) => {
            if *k < 1 {
                false
            } else {
                proof {
                    crate::constraint::lemma_neg_mod_zero(v as int, *k as int);
                    if v == 0 {
                        vstd::arithmetic::div_mod::lemma_mod_multiples_basic(0, *k as int);
                    }
                }
                match v.checked_rem(*k) {
                    Some(rem) => rem == 0,
                    None => false,
                }
            }
        },
        ArithmeticConstraint::Positive => v > 0,
    }
}

/// The arithmetic successors of a value: one more, one less, doubled and
/// halved towards zero - each kept only when it fits in the component type.
#[verifier::opaque]
pub open spec fn arith_successor_values(v: i64) -> Seq<i64> {
    let with_inc: Seq<i64> = if v < i64::MAX {
        seq![(v + 1) as i64]
    } else {
        Seq::empty()
    };
    let with_dec: Seq<i64> = if v > i64::MIN {
        seq![(v - 1) as i64]
    } else {
        Seq::empty()
    };
    let with_dbl: Seq<i64> = if i64::MIN / 2 <= v <= i64::MAX / 2 {
        seq![(v * 2) as i64]
    } else {
        Seq::empty()
    };
    with_inc + with_dec + with_dbl + seq![crate::projector::half_towards_zero(v)]
}

/// Compute the arithmetic successors of a value.
pub fn arith_successors(v: i64) -> (r: Vec<i64>)
    ensures
        r@ == arith_successor_values(v),
{
    let mut out: Vec<i64> = Vec::new();
    if v < i64::MAX {
        out.push(v + 1);
    }
    if v > i64::MIN {
        out.push(v - 1);
    }
    if i64::MIN / 2 <= v && v <= i64::MAX / 2 {
        out.push(v * 2);
    }
    let half: i64 = match v.checked_div(2) {
        Some(h) => h,
        None => 0,
    };
    proof {
        assert(half == crate::projector::half_towards_zero(v));
    }
    out.push(half);
    proof {
        reveal(arith_successor_values);
        assert(out@ =~= arith_successor_values(v));
    }
    out
}

/// Whether a vector holds a value.
pub fn contains_i64(v: &Vec<i64>, x: i64) -> (r: bool)
    ensures
        r == v@.contains(x),
{
    let n = v.len();
    let mut i: usize = 0;
    while i < n
        invariant
            n == v@.len(),
            i <= n,
            forall|j: int| 0 <= j < i ==> v@[j] != x,
        decreases n - i,
    {
        if v[i] == x {
            return true;
        }
        i += 1;
    }
    false
}

/// An immutable one-dimensional state with a set of constraints. The value
/// is the coordinate; the constraints decide admissibility; transitions are
/// the arithmetic successors, carrying the same constraints.
#[derive(Clone, Debug)]
pub struct ArithmeticSpace {
    pub value: i64,
    pub constraints: Vec<ArithmeticConstraint>,
}

impl View for ArithmeticSpace {
    type V = (i64, Seq<ArithmeticConstraint>);

    open spec fn view(&self) -> (i64, Seq<ArithmeticConstraint>) {
        (self.value, self.constraints@)
    }
}

impl ArithmeticSpace {
    /// A state with no constraints.
    pub fn create(value: i64) -> (r: Self)
        ensures
            r@ == (value, Seq::<ArithmeticConstraint>::empty()),
    {
        let r = Self { value, constraints: Vec::new() };
        proof {
            assert(r@ =~~= (value, Seq::<ArithmeticConstraint>::empty()));
        }
        r
    }

    /// A state constrained to a closed range.
    pub fn create_in_range(value: i64, min: i64, max: i64) -> (r: Self)
        ensures
            r@ == (value, seq![ArithmeticConstraint::InRange(min, max)]),
    {
        let mut constraints: Vec<ArithmeticConstraint> = Vec::new();
        constraints.push(ArithmeticConstraint::InRange(min, max));
        let r = Self { value, constraints };
        proof {
            assert(r@ =~~= (value, seq![ArithmeticConstraint::InRange(min, max)]));
        }
        r
    }

    /// A copy with one more constraint; the original is unchanged, and a
    /// constraint already present is not added again (constraints form a
    /// set, not a sequence).
    pub fn with_constraint(self, constraint: ArithmeticConstraint) -> (r: Self)
        ensures
            r.value == self.value,
            r.constraints@ == if self.constraints@.contains(constraint) {
                self.constraints@
            } else {
                self.constraints@.push(constraint)
            },
    {
        let mut r = self;
        let mut found = false;
        let n = r.constraints.len();
        let mut i: usize = 0;
        while i < n
            invariant
                n == r.constraints@.len(),
                i <= n,
                found == exists|j: int| 0 <= j < i && r.constraints@[j] == constraint,
            decreases n - i,
        {
            if r.constraints[i] == constraint {
                found = true;
            }
            i += 1;
        }
        if !found {
            r.constraints.push(constraint);
        }
        r
    }

    /// A copy with several more constraints, each added as
    /// [`Self::with_constraint`] does.
    pub fn with_constraints(self, constraints: Vec<ArithmeticConstraint>) -> (r: Self)
        ensures
            r.value == self.value,
            forall|j: int|
                0 <= j < constraints@.len() ==> r.constraints@.contains(#[trigger] constraints@[j]),
            forall|c: ArithmeticConstraint|
                r.constraints@.contains(c) ==> self.constraints@.contains(c)
                    || constraints@.contains(c),
    {
        let mut r = self;
        let n = constraints.len();
        let mut i: usize = 0;
        while i < n
            invariant
                n == constraints@.len(),
                i <= n,
                r.value == self.value,
                forall|j: int|
                    0 <= j < i ==> r.constraints@.contains(#[trigger] constraints@[j]),
                forall|c: ArithmeticConstraint|
                    r.constraints@.contains(c) ==> self.constraints@.contains(c)
                        || constraints@.contains(c),
            decreases n - i,
        {
            let ghost before = r.constraints@;
            r = r.with_constraint(constraints[i]);
            proof {
                assert(constraints@.contains(constraints@[i as int]));
                if !before.contains(constraints@[i as int]) {
                    assert(r.constraints@ == before.push(constraints@[i as int]));
                    assert(r.constraints@[r.constraints@.len() - 1] == constraints@[i as int]);
                }
                assert forall|j: int| 0 <= j < i + 1 implies r.constraints@.contains(
                    #[trigger] constraints@[j],
                ) by {
                    if j < i {
                        let w = choose|w: int|
                            0 <= w < before.len() && before[w] == constraints@[j];
                        assert(r.constraints@[w] == constraints@[j]);
                    }
                }
                assert forall|c: ArithmeticConstraint|
                    r.constraints@.contains(c) implies self.constraints@.contains(c)
                    || constraints@.contains(c) by {
                    let w = choose|w: int|
                        0 <= w < r.constraints@.len() && r.constraints@[w] == c;
                    if w < before.len() {
                        assert(before[w] == c);
                    }
                }
            }
            i += 1;
        }
        r
    }

    /// Bounded, cycle-safe exploration of the transition graph from this
    /// state.
    pub fn generate_tree(&self, max_states: usize) -> (r: Vec<ArithmeticSpace>)
        ensures
            tree_wf(r@, self@, max_states as int),
            r@.len() < max_states ==> crate::statespace::tree_complete(r@),
    {
        explore_states(self, max_states)
    }
}

impl StateSpace for ArithmeticSpace {
    open spec fn coords_of(v: (i64, Seq<ArithmeticConstraint>)) -> Seq<i64> {
        seq![v.0]
    }

    open spec fn constraint_of(v: (i64, Seq<ArithmeticConstraint>)) -> bool {
        arith_all_allow(v.1, v.0)
    }

    open spec fn transitions_of(v: (i64, Seq<ArithmeticConstraint>)) -> Seq<
        (i64, Seq<ArithmeticConstraint>),
    > {
        arith_successor_values(v.0).map_values(|w: i64| (w, v.1))
    }

    fn coordinates(&self) -> (r: SpaceCoordinates) {
        let r = SpaceCoordinates::new(vec![self.value]);
        proof {
            assert(r@ =~= seq![self.value]);
        }
        r
    }

    fn constraint(&self) -> (r: bool) {
        let n = self.constraints.len();
        let mut i: usize = 0;
        while i < n
            invariant
                n == self.constraints@.len(),
                i <= n,
                forall|j: int| 0 <= j < i ==> arith_allows(#[trigger] self.constraints@[j], self.value),
            decreases n - i,
        {
            if !arith_constraint_allows(&self.constraints[i], self.value) {
                return false;
            }
            i += 1;
        }
        true
    }

    fn transitions(&self) -> (r: Vec<ArithmeticSpace>) {
        let succs = arith_successors(self.value);
        let n = succs.len();
        let mut out: Vec<ArithmeticSpace> = Vec::new();
        proof {
            assert(out@.map_values(|s: ArithmeticSpace| s@) =~= Seq::<
                (i64, Seq<ArithmeticConstraint>),
            >::empty());
        }
        let mut i: usize = 0;
        while i < n
            invariant
                n == succs@.len(),
                succs@ == arith_successor_values(self.value),
                i <= n,
                out@.len() == i,
                forall|j: int|
                    0 <= j < i ==> (#[trigger] out@[j])@ == (succs@[j], self.constraints@),
            decreases n - i,
        {
            out.push(ArithmeticSpace { value: succs[i], constraints: dup_constraints(&self.constraints) });
            i += 1;
        }
        proof {
            assert(out@.map_values(|s: ArithmeticSpace| s@) =~~= Self::transitions_of(self@));
            assert forall|j: int| 0 <= j < out@.len() implies (#[trigger] out@[j])@
                == Self::transitions_of(self@)[j] by {
                assert(Self::transitions_of(self@)[j] == (succs@[j], self.constraints@));
            }
        }
        out
    }

    fn duplicate(&self) -> (r: Self) {
        let r = Self { value: self.value, constraints: dup_constraints(&self.constraints) };
        proof {
            assert(r@ =~~= self@);
        }
        r
    }
}

/// An independent copy of a constraint vector.
fn dup_constraints(v: &Vec<ArithmeticConstraint>) -> (r: Vec<ArithmeticConstraint>)
    ensures
        r@ == v@,
{
    let n = v.len();
    let mut out: Vec<ArithmeticConstraint> = Vec::new();
    let mut i: usize = 0;
    while i < n
        invariant
            n == v@.len(),
            i <= n,
            out@ == v@.take(i as int),
        decreases n - i,
    {
        out.push(v[i]);
        proof {
            assert(v@.take(i + 1) =~= v@.take(i as int).push(v@[i as int]));
        }
        i += 1;
    }
    proof {
        assert(v@.take(n as int) =~= v@);
    }
    out
}

/// The values held by the states of a tree.
pub open spec fn tree_values(tree: Seq<ArithmeticSpace>) -> Seq<i64> {
    tree.map_values(|s: ArithmeticSpace| s@.0)
}

/// Whether a tree holds a state with the given value.
pub fn tree_contains_value(tree: &Vec<ArithmeticSpace>, x: i64) -> (r: bool)
    ensures
        r == tree_values(tree@).contains(x),
{
    let n = tree.len();
    let mut i: usize = 0;
    while i < n
        invariant
            n == tree@.len(),
            i <= n,
            forall|j: int| 0 <= j < i ==> (#[trigger] tree@[j])@.0 != x,
        decreases n - i,
    {
        if tree[i].value == x {
            proof {
                assert(tree_values(tree@)[i as int] == x);
            }
            return true;
        }
        i += 1;
    }
    proof {
        let m = tree_values(tree@);
        assert forall|j: int| 0 <= j < m.len() implies #[trigger] m[j] != x by {
            assert(m[j] == tree@[j]@.0);
        }
    }
    false
}

/// Observe a value against an explored tree: the observation is a condition,
/// not an input. It collapses to the set of arithmetic successors of `value`
/// that the tree reached; re-observing the same tree gives the same set.
pub fn observe(tree: &Vec<ArithmeticSpace>, value: i64) -> (r: Vec<i64>)
    ensures
        r@.no_duplicates(),
        forall|w: i64|
            r@.contains(w) <==> (arith_successor_values(value).contains(w) && tree_values(
                tree@,
            ).contains(w)),
{
    let candidates = arith_successors(value);
    let n = candidates.len();
    let mut out: Vec<i64> = Vec::new();
    let mut i: usize = 0;
    while i < n
        invariant
            n == candidates@.len(),
            candidates@ == arith_successor_values(value),
            i <= n,
            out@.no_duplicates(),
            forall|w: i64|
                out@.contains(w) <==> (candidates@.take(i as int).contains(w) && tree_values(
                    tree@,
                ).contains(w)),
        decreases n - i,
    {
        let w = candidates[i];
        if tree_contains_value(tree, w) && !contains_i64(&out, w) {
            let ghost before = out@;
            out.push(w);
            proof {
                assert forall|x: i64|
                    out@.contains(x) <==> (candidates@.take(i + 1).contains(x) && tree_values(
                        tree@,
                    ).contains(x)) by {
                    assert(candidates@.take(i + 1) =~= candidates@.take(i as int).push(w));
                    if out@.contains(x) {
                        let q = choose|q: int| 0 <= q < out@.len() && #[trigger] out@[q] == x;
                        if q < before.len() {
                            assert(before.contains(x));
                        } else {
                            assert(x == w);
                            assert(candidates@.take(i + 1).last() == w);
                            assert(candidates@.take(i + 1).contains(w));
                        }
                    }
                    if candidates@.take(i + 1).contains(x) && tree_values(tree@).contains(x) {
                        let q = choose|q: int|
                            0 <= q < candidates@.take(i + 1).len() && #[trigger] candidates@.take(
                                i + 1,
                            )[q] == x;
                        if q < i {
                            assert(candidates@.take(i as int).contains(x));
                            assert(before.contains(x));
                            let p = choose|p: int| 0 <= p < before.len() && #[trigger] before[p] == x;
                            assert(out@[p] == x);
                        } else {
                            assert(x == w);
                            assert(out@[out@.len() - 1] == w);
                        }
                    }
                }
                assert forall|p: int, q: int|
                    0 <= p < out@.len() && 0 <= q < out@.len() && p != q implies out@[p]
                    != out@[q] by {
                    if p < before.len() && q < before.len() {
                        assert(before.no_duplicates());
                    } else if p == before.len() && q < before.len() {
                        assert(!before.contains(w));
                        assert(before[q] == out@[q]);
                    } else if q == before.len() && p < before.len() {
                        assert(!before.contains(w));
                        assert(before[p] == out@[p]);
                    }
                }
            }
        } else {
            proof {
                assert forall|x: i64|
                    out@.contains(x) <==> (candidates@.take(i + 1).contains(x) && tree_values(
                        tree@,
                    ).contains(x)) by {
                    assert(candidates@.take(i + 1) =~= candidates@.take(i as int).push(w));
                    if candidates@.take(i + 1).contains(x) && tree_values(tree@).contains(x) {
                        let q = choose|q: int|
                            0 <= q < candidates@.take(i + 1).len() && #[trigger] candidates@.take(
                                i + 1,
                            )[q] == x;
                        if q < i {
                            assert(candidates@.take(i as int).contains(x));
                        } else {
                            assert(x == w);
                            if !tree_values(tree@).contains(w) {
                            } else {
                                assert(out@.contains(w));
                            }
                        }
                    }
                    if out@.contains(x) {
                        assert(candidates@.take(i as int).contains(x));
                        let q = choose|q: int|
                            0 <= q < candidates@.take(i as int).len() && #[trigger] candidates@.take(
                                i as int,
                            )[q] == x;
                        assert(candidates@.take(i + 1)[q] == x);
                    }
                }
            }
        }
        i += 1;
    }
    proof {
        assert(candidates@.take(n as int) =~= candidates@);
    }
    out
}

/// One tree entry in order: the start at depth zero when it opens the tree,
/// and otherwise a successor of an earlier, one-level-shallower value.
pub open spec fn branch_node_ok(vals: Seq<i64>, lvl: Seq<int>, start: i64, i: int) -> bool {
    (i == 0 && vals[i] == start && lvl[0] == 0) || (i >= 1 && exists|j: int|
        0 <= j < i && #[trigger] arith_successor_values(vals[j]).contains(vals[i]) && lvl[i]
            == lvl[j] + 1)
}

/// A depth-labelled exploration tree over integer values: the start opens
/// the tree at depth zero; values never repeat; every later value is an
/// arithmetic successor of an earlier, one-level-shallower value (so it is
/// reachable from the start within its depth, at most `depth`); and every
/// value short of the bound has all its successors in the tree.
pub open spec fn branch_tree_wf(vals: Seq<i64>, lvl: Seq<int>, start: i64, depth: int) -> bool {
    &&& lvl.len() == vals.len()
    &&& vals.len() >= 1
    &&& vals[0] == start
    &&& lvl[0] == 0
    &&& vals.no_duplicates()
    &&& forall|i: int| 0 <= i < vals.len() ==> 0 <= #[trigger] lvl[i] <= depth
    &&& forall|i: int| 0 <= i < vals.len() ==> #[trigger] branch_node_ok(vals, lvl, start, i)
    &&& forall|i: int, w: i64|
        0 <= i < vals.len() && lvl[i] < depth && #[trigger] arith_successor_values(
            vals[i],
        ).contains(w) ==> vals.contains(w)
}

/// The per-value conditions of a branch tree, without the completeness
/// clause: what holds of a traversal still in progress.
spec fn branch_partial_wf(vals: Seq<i64>, lvl: Seq<int>, start: i64, depth: int) -> bool {
    &&& lvl.len() == vals.len()
    &&& forall|i: int| 0 <= i < vals.len() ==> 0 <= #[trigger] lvl[i] <= depth
    &&& forall|i: int| 0 <= i < vals.len() ==> #[trigger] branch_node_ok(vals, lvl, start, i)
}

/// Completeness of the values in `[from, to)`: each of them short of the
/// bound has all its successors in the tree.
spec fn branch_complete(vals: Seq<i64>, lvl: Seq<int>, depth: int, from: int, to: int) -> bool {
    forall|i: int, w: i64|
        from <= i < to && lvl[i] < depth && #[trigger] arith_successor_values(vals[i]).contains(w)
            ==> vals.contains(w)
}

/// A list without repeats, extended by a fresh value, still has none.
proof fn lemma_branch_no_dup_push(old_vals: Seq<i64>, v: i64)
    requires
        old_vals.no_duplicates(),
        !old_vals.contains(v),
    ensures
        old_vals.push(v).no_duplicates(),
{
    let vals = old_vals.push(v);
    assert forall|p: int, q: int|
        0 <= p < vals.len() && 0 <= q < vals.len() && p != q implies vals[p] != vals[q] by {
        if p < old_vals.len() && q < old_vals.len() {
            assert(vals[p] == old_vals[p]);
            assert(vals[q] == old_vals[q]);
        } else if p == old_vals.len() && q < old_vals.len() {
            assert(vals[q] == old_vals[q]);
        } else if q == old_vals.len() && p < old_vals.len() {
            assert(vals[p] == old_vals[p]);
        }
    }
}

/// Extending a partially built branch tree by one justified value keeps it
/// partially well formed.
#[verifier::rlimit(50)]
proof fn lemma_branch_partial_extends(
    old_vals: Seq<i64>,
    old_lvl: Seq<int>,
    start: i64,
    max_depth: int,
    v: i64,
    level: int,
)
    requires
        branch_partial_wf(old_vals, old_lvl, start, max_depth),
        0 <= level <= max_depth,
        (old_vals.len() == 0 && v == start && level == 0) || (old_vals.len() >= 1 && exists|j: int|
            0 <= j < old_vals.len() && #[trigger] arith_successor_values(old_vals[j]).contains(v)
                && old_lvl[j] + 1 == level),
    ensures
        branch_partial_wf(old_vals.push(v), old_lvl.push(level), start, max_depth),
{
    let vals = old_vals.push(v);
    let lvl = old_lvl.push(level);
    assert forall|i: int| 0 <= i < vals.len() implies 0 <= #[trigger] lvl[i] <= max_depth by {
        if i < old_lvl.len() {
            assert(lvl[i] == old_lvl[i]);
        }
    }
    assert forall|i: int| 0 <= i < vals.len() implies #[trigger] branch_node_ok(
        vals,
        lvl,
        start,
        i,
    ) by {
        if i < old_vals.len() {
            assert(branch_node_ok(old_vals, old_lvl, start, i));
            assert(vals[i] == old_vals[i]);
            if !(i == 0 && old_vals[i] == start && old_lvl[0] == 0) {
                let j = choose|j: int|
                    0 <= j < i && #[trigger] arith_successor_values(old_vals[j]).contains(
                        old_vals[i],
                    ) && old_lvl[i] == old_lvl[j] + 1;
                assert(vals[j] == old_vals[j]);
                assert(arith_successor_values(vals[j]).contains(vals[i]));
            }
        } else {
            if old_vals.len() == 0 {
                assert(i == 0);
            } else {
                let j = choose|j: int|
                    0 <= j < old_vals.len() && #[trigger] arith_successor_values(
                        old_vals[j],
                    ).contains(v) && old_lvl[j] + 1 == level;
                assert(vals[j] == old_vals[j]);
                assert(arith_successor_values(vals[j]).contains(vals[i]));
            }
        }
    }
}

/// Completed values stay completed when the tree grows by appending.
proof fn lemma_branch_complete_join(
    pre_vals: Seq<i64>,
    pre_lvl: Seq<int>,
    new_vals: Seq<i64>,
    new_lvl: Seq<int>,
    max_depth: int,
    from: int,
    mid: int,
)
    requires
        0 <= from,
        mid == pre_vals.len(),
        pre_vals.len() <= new_vals.len(),
        pre_lvl.len() == pre_vals.len(),
        new_lvl.len() == new_vals.len(),
        forall|i: int| 0 <= i < pre_vals.len() ==> #[trigger] new_vals[i] == pre_vals[i],
        forall|i: int| 0 <= i < pre_lvl.len() ==> #[trigger] new_lvl[i] == pre_lvl[i],
        branch_complete(pre_vals, pre_lvl, max_depth, from, mid),
        branch_complete(new_vals, new_lvl, max_depth, mid, new_vals.len() as int),
    ensures
        branch_complete(new_vals, new_lvl, max_depth, from, new_vals.len() as int),
{
    assert forall|i: int, w: i64|
        from <= i < new_vals.len() && new_lvl[i] < max_depth
            && #[trigger] arith_successor_values(new_vals[i]).contains(w) implies new_vals
        .contains(w) by {
        if i < mid {
            assert(new_vals[i] == pre_vals[i]);
            assert(arith_successor_values(pre_vals[i]).contains(w));
            assert(pre_vals.contains(w));
            let w2 = choose|w2: int| 0 <= w2 < pre_vals.len() && #[trigger] pre_vals[w2] == w;
            assert(new_vals[w2] == w);
        }
    }
}

/// Depth-first collection of the values reachable within `depth` more hops,
/// skipping values already collected (cycle safety), with a ghost depth
/// labelling threaded through.
#[verifier::rlimit(100)]
fn collect_reachable(
    start: Ghost<i64>,
    max_depth: Ghost<int>,
    value: i64,
    depth: usize,
    acc: &mut Vec<i64>,
    lvl_in: Ghost<Seq<int>>,
) -> (lvl: Ghost<Seq<int>>)
    requires
        depth as int <= max_depth@,
        lvl_in@.len() == old(acc)@.len(),
        old(acc)@.no_duplicates(),
        branch_partial_wf(old(acc)@, lvl_in@, start@, max_depth@),
        (old(acc)@.len() == 0 && value == start@ && depth as int == max_depth@) || (old(
            acc,
        )@.len() >= 1 && exists|j: int|
            0 <= j < old(acc)@.len() && #[trigger] arith_successor_values(
                old(acc)@[j],
            ).contains(value) && lvl_in@[j] + 1 == max_depth@ - depth),
    ensures
        final(acc)@.no_duplicates(),
        old(acc)@.is_prefix_of(final(acc)@),
        lvl@.len() == final(acc)@.len(),
        forall|i: int| 0 <= i < lvl_in@.len() ==> lvl@[i] == lvl_in@[i],
        branch_partial_wf(final(acc)@, lvl@, start@, max_depth@),
        final(acc)@.contains(value),
        final(acc)@.len() > old(acc)@.len() ==> final(acc)@[old(acc)@.len() as int] == value
            && lvl@[old(acc)@.len() as int] == max_depth@ - depth,
        branch_complete(
            final(acc)@,
            lvl@,
            max_depth@,
            old(acc)@.len() as int,
            final(acc)@.len() as int,
        ),
    decreases depth,
{
    if contains_i64(acc, value) {
        proof {
            assert(old(acc)@.is_prefix_of(acc@)) by {
                assert(acc@.take(old(acc)@.len() as int) =~= old(acc)@);
            }
        }
        return lvl_in;
    }
    let ghost old_acc = acc@;
    let ghost level: int = max_depth@ - depth;
    acc.push(value);
    let ghost lvl0: Seq<int> = lvl_in@.push(level);
    proof {
        assert(acc@ =~= old_acc.push(value));
        assert(old_acc.is_prefix_of(acc@)) by {
            assert(acc@.take(old_acc.len() as int) =~= old_acc);
        }
        lemma_branch_no_dup_push(old_acc, value);
        lemma_branch_partial_extends(old_acc, lvl_in@, start@, max_depth@, value, level);
        assert(acc@[acc@.len() - 1] == value);
        assert(acc@.contains(value));
    }
    let mut lvl: Ghost<Seq<int>> = Ghost(lvl0);
    if depth == 0 {
        return lvl;
    }
    let ghost base = acc@;
    let ghost node_idx = old_acc.len() as int;
    let succs = arith_successors(value);
    let n = succs.len();
    let mut k: usize = 0;
    while k < n
        invariant
            n == succs@.len(),
            succs@ == arith_successor_values(value),
            depth >= 1,
            depth as int <= max_depth@,
            level == max_depth@ - depth,
            k <= n,
            acc@.no_duplicates(),
            base.is_prefix_of(acc@),
            base.len() == old_acc.len() + 1,
            base[node_idx] == value,
            node_idx == old_acc.len() as int,
            lvl_in@.len() == old_acc.len(),
            lvl@.len() == acc@.len(),
            forall|i: int| 0 <= i < lvl_in@.len() ==> lvl@[i] == lvl_in@[i],
            lvl@[node_idx] == level,
            branch_partial_wf(acc@, lvl@, start@, max_depth@),
            acc@[node_idx] == value,
            forall|q: int| 0 <= q < k ==> acc@.contains(#[trigger] succs@[q]),
            branch_complete(acc@, lvl@, max_depth@, node_idx + 1, acc@.len() as int),
        decreases n - k,
    {
        let ghost pre = acc@;
        let ghost pre_lvl = lvl@;
        let w = succs[k];
        proof {
            assert(arith_successor_values(value).contains(succs@[k as int]));
            assert(arith_successor_values(acc@[node_idx]).contains(w));
            assert(lvl@[node_idx] + 1 == max_depth@ - (depth - 1));
        }
        lvl = collect_reachable(start, max_depth, w, depth - 1, acc, lvl);
        proof {
            assert(base.is_prefix_of(acc@)) by {
                assert(pre.is_prefix_of(acc@));
                assert(base.is_prefix_of(pre));
            }
            assert(acc@[node_idx] == pre[node_idx]);
            assert forall|q: int| 0 <= q < lvl_in@.len() implies lvl@[q] == lvl_in@[q] by {
                assert(pre_lvl.len() == pre.len());
                assert(lvl_in@.len() < base.len());
                assert(lvl@[q] == pre_lvl[q]);
            }
            assert(lvl@[node_idx] == pre_lvl[node_idx]);
            assert forall|q: int| 0 <= q < k + 1 implies acc@.contains(#[trigger] succs@[q]) by {
                if q < k {
                    assert(pre.contains(succs@[q]));
                    let w2 = choose|w2: int| 0 <= w2 < pre.len() && #[trigger] pre[w2] == succs@[q];
                    assert(acc@[w2] == pre[w2]);
                }
            }
            lemma_branch_complete_join(
                pre,
                pre_lvl,
                acc@,
                lvl@,
                max_depth@,
                node_idx + 1,
                pre.len() as int,
            );
        }
        k += 1;
    }
    proof {
        assert forall|i: int, w2: i64|
            node_idx <= i < acc@.len() && lvl@[i] < max_depth@
                && #[trigger] arith_successor_values(acc@[i]).contains(w2) implies acc@.contains(
            w2,
        ) by {
            if i == node_idx {
                let q = choose|q: int|
                    0 <= q < arith_successor_values(value).len()
                        && #[trigger] arith_successor_values(value)[q] == w2;
                assert(succs@[q] == w2);
            }
        }
    }
    lvl
}

/// A branching possibility space over one integer: it computes the set of
/// values reachable from its start within a fixed depth, and answers
/// observations from that set. Observation is a condition, not an input:
/// it looks a value up in the computed trajectories and collapses to the
/// set of its successors that the trajectories reached.
#[derive(Clone, Debug)]
pub struct Branching {
    start: i64,
    trajectories: Vec<i64>,
}

/// How deep the branching space explores its trajectories.
pub const TRAJECTORY_DEPTH: usize = 5;

impl Branching {
    /// The starting value.
    pub closed spec fn spec_start(&self) -> i64 {
        self.start
    }

    /// The values the last trajectory computation reached.
    pub closed spec fn spec_trajectories(&self) -> Seq<i64> {
        self.trajectories@
    }

    /// A branching space at `start`, with no trajectories computed yet.
    pub fn new(start: i64) -> (r: Self)
        ensures
            r.spec_start() == start,
            r.spec_trajectories() == Seq::<i64>::empty(),
    {
        Self { start, trajectories: Vec::new() }
    }

    /// Compute all trajectories from the start, bounded by
    /// [`TRAJECTORY_DEPTH`] hops. The result is pinned by a depth
    /// labelling: the start comes first at depth zero, no value repeats,
    /// every other value is a successor of an earlier, one-level-shallower
    /// value, and every value short of the bound has all its successors
    /// collected.
    pub fn compute_trajectories(&mut self)
        ensures
            final(self).spec_start() == old(self).spec_start(),
            final(self).spec_trajectories().contains(old(self).spec_start()),
            exists|lvl: Seq<int>|
                branch_tree_wf(
                    final(self).spec_trajectories(),
                    lvl,
                    old(self).spec_start(),
                    TRAJECTORY_DEPTH as int,
                ),
    {
        let mut acc: Vec<i64> = Vec::new();
        let lvl = collect_reachable(
            Ghost(self.start),
            Ghost(TRAJECTORY_DEPTH as int),
            self.start,
            TRAJECTORY_DEPTH,
            &mut acc,
            Ghost(Seq::empty()),
        );
        self.trajectories = acc;
        proof {
            let vals = self.trajectories@;
            assert(vals.contains(self.start));
            assert(vals.len() >= 1);
            assert(vals[0] == self.start);
            assert(lvl@[0] == 0);
            assert(branch_complete(vals, lvl@, TRAJECTORY_DEPTH as int, 0, vals.len() as int));
            assert forall|i: int, w: i64|
                0 <= i < vals.len() && lvl@[i] < TRAJECTORY_DEPTH as int
                    && #[trigger] arith_successor_values(vals[i]).contains(w) implies vals
                .contains(w) by {
            }
            assert(branch_tree_wf(vals, lvl@, self.start, TRAJECTORY_DEPTH as int));
            assert(self.spec_trajectories() == vals);
            assert(old(self).spec_start() == self.start);
            assert(branch_tree_wf(
                self.spec_trajectories(),
                lvl@,
                old(self).spec_start(),
                TRAJECTORY_DEPTH as int,
            ));
            assert(exists|l: Seq<int>|
                branch_tree_wf(
                    self.spec_trajectories(),
                    l,
                    old(self).spec_start(),
                    TRAJECTORY_DEPTH as int,
                ));
        }
    }

    /// The values the trajectories reached.
    pub fn trajectories(&self) -> (r: &Vec<i64>)
        ensures
            r@ == self.spec_trajectories(),
    {
        &self.trajectories
    }

    /// Observe a value: `None` when the trajectories never reached it, and
    /// otherwise the set of its successors that the trajectories hold. The
    /// result depends on the computed trajectories and the value alone.
    pub fn observe(&self, value: i64) -> (r: Option<Vec<i64>>)
        ensures
            r is Some <==> self.spec_trajectories().contains(value),
            r is Some ==> (r->Some_0)@.no_duplicates() && (forall|w: i64|
                (r->Some_0)@.contains(w) <==> (arith_successor_values(value).contains(w)
                    && self.spec_trajectories().contains(w))),
    {
        if !contains_i64(&self.trajectories, value) {
            return None;
        }
        let candidates = arith_successors(value);
        let n = candidates.len();
        let mut out: Vec<i64> = Vec::new();
        let mut i: usize = 0;
        while i < n
            invariant
                n == candidates@.len(),
                candidates@ == arith_successor_values(value),
                i <= n,
                out@.no_duplicates(),
                forall|w: i64|
                    out@.contains(w) <==> (candidates@.take(i as int).contains(w)
                        && self.spec_trajectories().contains(w)),
            decreases n - i,
        {
            let w = candidates[i];
            let ghost before = out@;
            if contains_i64(&self.trajectories, w) && !contains_i64(&out, w) {
                out.push(w);
                proof {
                    assert forall|x: i64|
                        out@.contains(x) <==> (candidates@.take(i + 1).contains(x)
                            && self.spec_trajectories().contains(x)) by {
                        assert(candidates@.take(i + 1) =~= candidates@.take(i as int).push(w));
                        if out@.contains(x) {
                            let q = choose|q: int| 0 <= q < out@.len() && #[trigger] out@[q] == x;
                            if q < before.len() {
                                assert(before.contains(x));
                            } else {
                                assert(x == w);
                                assert(candidates@.take(i + 1).last() == w);
                            }
                        }
                        if candidates@.take(i + 1).contains(x)
                            && self.spec_trajectories().contains(x) {
                            let q = choose|q: int|
                                0 <= q < candidates@.take(i + 1).len()
                                    && #[trigger] candidates@.take(i + 1)[q] == x;
                            if q < i {
                                assert(candidates@.take(i as int).contains(x));
                                assert(before.contains(x));
                                let p = choose|p: int|
                                    0 <= p < before.len() && #[trigger] before[p] == x;
                                assert(out@[p] == x);
                            } else {
                                assert(x == w);
                                assert(out@[out@.len() - 1] == w);
                            }
                        }
                    }
                    assert forall|p: int, q: int|
                        0 <= p < out@.len() && 0 <= q < out@.len() && p != q implies out@[p]
                        != out@[q] by {
                        if p < before.len() && q < before.len() {
                            assert(before.no_duplicates());
                        } else if p == before.len() && q < before.len() {
                            assert(!before.contains(w));
                            assert(before[q] == out@[q]);
                        } else if q == before.len() && p < before.len() {
                            assert(!before.contains(w));
                            assert(before[p] == out@[p]);
                        }
                    }
                }
            } else {
                proof {
                    assert forall|x: i64|
                        out@.contains(x) <==> (candidates@.take(i + 1).contains(x)
                            && self.spec_trajectories().contains(x)) by {
                        assert(candidates@.take(i + 1) =~= candidates@.take(i as int).push(w));
                        if candidates@.take(i + 1).contains(x)
                            && self.spec_trajectories().contains(x) {
                            let q = choose|q: int|
                                0 <= q < candidates@.take(i + 1).len()
                                    && #[trigger] candidates@.take(i + 1)[q] == x;
                            if q < i {
                                assert(candidates@.take(i as int).contains(x));
                            } else {
                                assert(x == w);
                                assert(out@.contains(w));
                            }
                        }
                        if out@.contains(x) {
                            assert(candidates@.take(i as int).contains(x));
                            let q = choose|q: int|
                                0 <= q < candidates@.take(i as int).len()
                                    && #[trigger] candidates@.take(i as int)[q] == x;
                            assert(candidates@.take(i + 1)[q] == x);
                        }
                    }
                }
            }
            i += 1;
        }
        proof {
            assert(candidates@.take(n as int) =~= candidates@);
        }
        Some(out)
    }
}

} // verus!
