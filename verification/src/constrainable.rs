//! A generic constrainable state: a value together with an unordered set of
//! constraints. Adding a constraint builds a new state; the original is
//! untouched, and a constraint already present is not added twice.

use vstd::prelude::*;
use vstd::std_specs::cmp::PartialEqSpec;

verus! {

/// Every wanted constraint is covered by a held one: either the same value
/// or one equal to it under the constraint type's equality.
pub open spec fn covers<C: PartialEq>(held: Seq<C>, wanted: Seq<C>) -> bool {
    forall|j: int|
        #![trigger wanted[j]]
        0 <= j < wanted.len() ==> exists|k: int|
            0 <= k < held.len() && (held[k] == wanted[j] || (#[trigger] held[k]).eq_spec(
                &wanted[j],
            ))
}

/// A state value with a set of constraints. The constraints form a set:
/// order carries no meaning and duplicates collapse.
#[derive(Clone, Debug)]
pub struct ConstrainableStateSpace<V, C> {
    /// The state value.
    pub value: V,
    /// The constraint set.
    pub constraints: Vec<C>,
}

impl<V: Copy, C: PartialEq> ConstrainableStateSpace<V, C> {
    /// A state with no constraints.
    pub fn new(value: V) -> (r: Self)
        ensures
            r.value == value,
            r.constraints@ == Seq::<C>::empty(),
    {
        Self { value, constraints: Vec::new() }
    }

    /// A copy with one more constraint; the original is unchanged, and a
    /// constraint already present (by the constraint type's equality) is
    /// not added again.
    pub fn with_constraint(self, constraint: C) -> (r: Self)
        ensures
            r.value == self.value,
            r.constraints@ == self.constraints@ || r.constraints@ == self.constraints@.push(
                constraint,
            ),
            C::obeys_eq_spec() ==> r.constraints@ == if (exists|j: int|
                0 <= j < self.constraints@.len() && (#[trigger] self.constraints@[j]).eq_spec(
                    &constraint,
                )) {
                self.constraints@
            } else {
                self.constraints@.push(constraint)
            },
    {
        let mut r = self;
        let n = r.constraints.len();
        let mut found = false;
        let mut i: usize = 0;
        while i < n
            invariant
                n == r.constraints@.len(),
                i <= n,
                C::obeys_eq_spec() ==> found == exists|j: int|
                    0 <= j < i && (#[trigger] r.constraints@[j]).eq_spec(&constraint),
            decreases n - i,
        {
            if r.constraints[i] == constraint {
                found = true;
            }
            i += 1;
        }
        if !found {
            r.constraints.push(constraint);
        }
        r
    }

    /// A copy with several more constraints, each added as
    /// [`Self::with_constraint`] does.
    pub fn with_constraints(self, constraints: Vec<C>) -> (r: Self)
        ensures
            r.value == self.value,
            self.constraints@.is_prefix_of(r.constraints@),
            forall|j: int|
                0 <= j < r.constraints@.len() ==> self.constraints@.contains(
                    #[trigger] r.constraints@[j],
                ) || constraints@.contains(r.constraints@[j]),
            C::obeys_eq_spec() ==> covers(r.constraints@, constraints@),
    {
        let ghost obeys = C::obeys_eq_spec();
        let ghost incoming = constraints@;
        let mut r = self;
        let mut rest = constraints;
        let n = rest.len();
        let mut i: usize = 0;
        proof {
            assert forall|j: int|
                0 <= j < r.constraints@.len() implies self.constraints@.contains(
                #[trigger] r.constraints@[j],
            ) || incoming.contains(r.constraints@[j]) by {
                assert(self.constraints@[j] == r.constraints@[j]);
            }
            assert(self.constraints@.is_prefix_of(r.constraints@)) by {
                assert(r.constraints@.take(self.constraints@.len() as int)
                    =~= self.constraints@);
            }
        }
        while i < n
            invariant
                n == incoming.len(),
                rest@ == incoming.skip(i as int),
                i <= n,
                obeys == C::obeys_eq_spec(),
                r.value == self.value,
                self.constraints@.is_prefix_of(r.constraints@),
                forall|j: int|
                    0 <= j < r.constraints@.len() ==> self.constraints@.contains(
                        #[trigger] r.constraints@[j],
                    ) || incoming.contains(r.constraints@[j]),
                obeys ==> covers(r.constraints@, incoming.take(i as int)),
            decreases n - i,
        {
            proof {
                assert(rest@.len() == n - i);
                assert(rest@[0] == incoming[i as int]);
                assert(incoming.skip(i as int).drop_first() =~= incoming.skip(i + 1));
                assert(rest@.remove(0) =~= rest@.drop_first());
                assert(incoming.contains(incoming[i as int]));
            }
            let c = rest.remove(0);
            let ghost before = r.constraints@;
            r = r.with_constraint(c);
            proof {
                assert(self.constraints@.is_prefix_of(r.constraints@)) by {
                    if r.constraints@ == before.push(c) {
                        assert(r.constraints@.take(self.constraints@.len() as int)
                            =~= before.take(self.constraints@.len() as int));
                    }
                }
                if obeys {
                    if exists|j: int|
                        0 <= j < before.len() && (#[trigger] before[j]).eq_spec(
                            &incoming[i as int],
                        ) {
                        assert(r.constraints@ == before);
                    } else {
                        assert(r.constraints@ == before.push(incoming[i as int]));
                    }
                    let ghost upto = incoming.take(i as int);
                    let ghost upto1 = incoming.take(i + 1);
                    assert(upto1.drop_last() =~= upto);
                    assert(upto1.last() == incoming[i as int]);
                    assert forall|j: int|
                        #![trigger upto1[j]]
                        0 <= j < upto1.len() implies exists|k: int|
                        0 <= k < r.constraints@.len() && (r.constraints@[k] == upto1[j] || (
                        #[trigger] r.constraints@[k]).eq_spec(&upto1[j])) by {
                        if j < i {
                            assert(upto1[j] == upto[j]);
                            let k = choose|k: int|
                                0 <= k < before.len() && (before[k] == upto[j] || (
                                #[trigger] before[k]).eq_spec(&upto[j]));
                            assert(r.constraints@[k] == before[k]);
                        } else {
                            assert(upto1[j] == incoming[i as int]);
                            if exists|k: int|
                                0 <= k < before.len() && (#[trigger] before[k]).eq_spec(
                                    &incoming[i as int],
                                ) {
                                let k = choose|k: int|
                                    0 <= k < before.len() && (#[trigger] before[k]).eq_spec(
                                        &incoming[i as int],
                                    );
                                assert(r.constraints@[k] == before[k]);
                            } else {
                                assert(r.constraints@[r.constraints@.len() - 1] == incoming[
                                    i as int]);
                            }
                        }
                    }
                    assert(covers(r.constraints@, upto1));
                }
                assert forall|j: int|
                    0 <= j < r.constraints@.len() implies self.constraints@.contains(
                    #[trigger] r.constraints@[j],
                ) || incoming.contains(r.constraints@[j]) by {
                    if j < before.len() {
                        assert(r.constraints@[j] == before[j]);
                    }
                }
            }
            i += 1;
        }
        proof {
            if obeys {
                assert(incoming.take(n as int) =~= incoming);
                assert(incoming =~= constraints@);
            }
        }
        r
    }
}

} // verus!
