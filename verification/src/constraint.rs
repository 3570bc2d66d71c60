//! Constraints: predicates over coordinates that decide admissibility.
//! Constraints compose by logical AND within a set; adding one can only
//! shrink the set of admissible coordinates, never widen it.

use vstd::prelude::*;
use crate::coords::SpaceCoordinates;
use crate::text::{dec_digits, int_str, i64_to_string, usize_to_string};

verus! {

/// A predicate over a coordinate, with a human-readable description.
pub trait Constraint {
    /// What the constraint admits.
    spec fn spec_allows(&self, coords: Seq<i64>) -> bool;

    /// The text `describe` returns.
    spec fn spec_description(&self) -> Seq<char>;

    /// Decide whether the coordinate is admissible.
    fn allows(&self, coords: &SpaceCoordinates) -> (r: bool)
        ensures
            r == self.spec_allows(coords@),
    ;

    /// A human-readable description of the constraint.
    fn describe(&self) -> (r: String)
        ensures
            r@ == self.spec_description(),
    ;
}

/// Admits coordinates whose component on one axis lies in a closed range.
#[derive(Clone, Copy, Debug)]
pub struct RangeConstraint {
    pub axis: usize,
    pub min: i64,
    pub max: i64,
}

impl RangeConstraint {
    pub fn new(axis: usize, min: i64, max: i64) -> (r: Self)
        ensures
            r.axis == axis && r.min == min && r.max == max,
    {
        Self { axis, min, max }
    }
}

impl Constraint for RangeConstraint {
    open spec fn spec_allows(&self, coords: Seq<i64>) -> bool {
        self.axis < coords.len() && self.min <= coords[self.axis as int]
            && coords[self.axis as int] <= self.max
    }

    open spec fn spec_description(&self) -> Seq<char> {
        "axis["@ + dec_digits(self.axis as nat) + "] in ["@ + int_str(self.min as int) + ", "@
            + int_str(self.max as int) + "]"@
    }

    fn allows(&self, coords: &SpaceCoordinates) -> (r: bool) {
        match coords.get_axis(self.axis) {
            Some(v) => self.min <= v && v <= self.max,
            None => false,
        }
    }

    fn describe(&self) -> (r: String) {
        let mut s = String::from_str("axis[");
        s.append(usize_to_string(self.axis).as_str());
        s.append("] in [");
        s.append(i64_to_string(self.min).as_str());
        s.append(", ");
        s.append(i64_to_string(self.max).as_str());
        s.append("]");
        s
    }
}

/// Admits coordinates whose component on one axis is even.
#[derive(Clone, Copy, Debug)]
pub struct EvenConstraint {
    pub axis: usize,
}

impl EvenConstraint {
    pub fn new(axis: usize) -> (r: Self)
        ensures
            r.axis == axis,
    {
        Self { axis }
    }
}

impl Constraint for EvenConstraint {
    open spec fn spec_allows(&self, coords: Seq<i64>) -> bool {
        self.axis < coords.len() && coords[self.axis as int] % 2 == 0
    }

    open spec fn spec_description(&self) -> Seq<char> {
        "axis["@ + dec_digits(self.axis as nat) + "] is even"@
    }

    fn allows(&self, coords: &SpaceCoordinates) -> (r: bool) {
        match coords.get_axis(self.axis) {
            Some(v) => v % 2 == 0,
            None => false,
        }
    }

    fn describe(&self) -> (r: String) {
        let mut s = String::from_str("axis[");
        s.append(usize_to_string(self.axis).as_str());
        s.append("] is even");
        s
    }
}

/// Admits coordinates whose component on one axis is a multiple of a
/// positive modulus. A modulus below one admits nothing.
#[derive(Clone, Copy, Debug)]
pub struct MultipleOfConstraint {
    pub axis: usize,
    pub modulus: i64,
}

impl MultipleOfConstraint {
    pub fn new(axis: usize, modulus: i64) -> (r: Self)
        ensures
            r.axis == axis && r.modulus == modulus,
    {
        Self { axis, modulus }
    }
}

impl Constraint for MultipleOfConstraint {
    open spec fn spec_allows(&self, coords: Seq<i64>) -> bool {
        self.axis < coords.len() && self.modulus >= 1 && coords[self.axis as int] % self.modulus
            == 0
    }

    open spec fn spec_description(&self) -> Seq<char> {
        "axis["@ + dec_digits(self.axis as nat) + "] is a multiple of "@ + int_str(
            self.modulus as int,
        )
    }

    fn allows(&self, coords: &SpaceCoordinates) -> (r: bool) {
        if self.modulus < 1 {
            return false;
        }
        match coords.get_axis(self.axis) {
            Some(v) => {
                proof {
                    lemma_neg_mod_zero(v as int, self.modulus as int);
                    if v == 0 {
                        vstd::arithmetic::div_mod::lemma_mod_multiples_basic(
                            0,
                            self.modulus as int,
                        );
                    }
                }
                match v.checked_rem(self.modulus) {
                    Some(rem) => rem == 0,
                    None => false,
                }
            },
            None => false,
        }
    }

    fn describe(&self) -> (r: String) {
        let mut s = String::from_str("axis[");
        s.append(usize_to_string(self.axis).as_str());
        s.append("] is a multiple of ");
        s.append(i64_to_string(self.modulus).as_str());
        s
    }
}

/// For a positive modulus, an integer and its negation are divisible alike.
pub(crate) proof fn lemma_neg_mod_zero(x: int, d: int)
    requires
        d >= 1,
    ensures
        (x % d == 0) <==> ((x * -1) % d == 0),
{
    vstd::arithmetic::div_mod::lemma_fundamental_div_mod(x, d);
    vstd::arithmetic::div_mod::lemma_fundamental_div_mod(x * -1, d);
    if x % d == 0 {
        assert(x == d * (x / d));
        assert(x * -1 == (x / d) * -1 * d) by (nonlinear_arith)
            requires
                x == d * (x / d),
        ;
        vstd::arithmetic::div_mod::lemma_mod_multiples_basic((x / d) * -1, d);
    } else if (x * -1) % d == 0 {
        assert(x * -1 == d * ((x * -1) / d));
        assert(x == ((x * -1) / d) * -1 * d) by (nonlinear_arith)
            requires
                x * -1 == d * ((x * -1) / d),
        ;
        vstd::arithmetic::div_mod::lemma_mod_multiples_basic(((x * -1) / d) * -1, d);
    }
}

/// Admits coordinates whose component on one axis is strictly positive.
#[derive(Clone, Copy, Debug)]
pub struct PositiveConstraint {
    pub axis: usize,
}

impl PositiveConstraint {
    pub fn new(axis: usize) -> (r: Self)
        ensures
            r.axis == axis,
    {
        Self { axis }
    }
}

impl Constraint for PositiveConstraint {
    open spec fn spec_allows(&self, coords: Seq<i64>) -> bool {
        self.axis < coords.len() && coords[self.axis as int] > 0
    }

    open spec fn spec_description(&self) -> Seq<char> {
        "axis["@ + dec_digits(self.axis as nat) + "] is positive"@
    }

    fn allows(&self, coords: &SpaceCoordinates) -> (r: bool) {
        match coords.get_axis(self.axis) {
            Some(v) => v > 0,
            None => false,
        }
    }

    fn describe(&self) -> (r: String) {
        let mut s = String::from_str("axis[");
        s.append(usize_to_string(self.axis).as_str());
        s.append("] is positive");
        s
    }
}

/// The closed set of constraint shapes a set can hold. Polymorphism over
/// constraint kinds is a tagged variant, so that sets of mixed constraints
/// stay comparable and hashable.
#[derive(Clone, Copy, Debug)]
pub enum ConstraintKind {
    Range(RangeConstraint),
    Even(EvenConstraint),
    MultipleOf(MultipleOfConstraint),
    Positive(PositiveConstraint),
}

impl Constraint for ConstraintKind {
    open spec fn spec_allows(&self, coords: Seq<i64>) -> bool {
        match self {
            ConstraintKind::Range(c) => c.spec_allows(coords),
            ConstraintKind::Even(c) => c.spec_allows(coords),
            ConstraintKind::MultipleOf(c) => c.spec_allows(coords),
            ConstraintKind::Positive(c) => c.spec_allows(coords),
        }
    }

    open spec fn spec_description(&self) -> Seq<char> {
        match self {
            ConstraintKind::Range(c) => c.spec_description(),
            ConstraintKind::Even(c) => c.spec_description(),
            ConstraintKind::MultipleOf(c) => c.spec_description(),
            ConstraintKind::Positive(c) => c.spec_description(),
        }
    }

    fn allows(&self, coords: &SpaceCoordinates) -> (r: bool) {
        match self {
            ConstraintKind::Range(c) => c.allows(coords),
            ConstraintKind::Even(c) => c.allows(coords),
            ConstraintKind::MultipleOf(c) => c.allows(coords),
            ConstraintKind::Positive(c) => c.allows(coords),
        }
    }

    fn describe(&self) -> (r: String) {
        match self {
            ConstraintKind::Range(c) => c.describe(),
            ConstraintKind::Even(c) => c.describe(),
            ConstraintKind::MultipleOf(c) => c.describe(),
            ConstraintKind::Positive(c) => c.describe(),
        }
    }
}

/// A conjunction of constraints admits a coordinate when every member does.
pub open spec fn set_allows(cs: Seq<ConstraintKind>, coords: Seq<i64>) -> bool {
    forall|i: int| 0 <= i < cs.len() ==> #[trigger] cs[i].spec_allows(coords)
}

/// The description of a conjunction: member descriptions joined by ", ",
/// or "no constraints" when it is empty.
pub open spec fn set_description(cs: Seq<ConstraintKind>) -> Seq<char>
    decreases cs.len(),
{
    if cs.len() == 0 {
        "no constraints"@
    } else if cs.len() == 1 {
        cs[0].spec_description()
    } else {
        set_description(cs.drop_last()) + ", "@ + cs.last().spec_description()
    }
}

/// A set of constraints, composed by logical AND.
#[derive(Clone, Debug)]
pub struct ConstraintSet {
    constraints: Vec<ConstraintKind>,
}

impl View for ConstraintSet {
    type V = Seq<ConstraintKind>;

    closed spec fn view(&self) -> Seq<ConstraintKind> {
        self.constraints@
    }
}

impl ConstraintSet {
    /// The empty set, which admits every coordinate.
    pub fn new() -> (r: Self)
        ensures
            r@ == Seq::<ConstraintKind>::empty(),
    {
        Self { constraints: Vec::new() }
    }

    /// How many constraints the set holds.
    pub fn len(&self) -> (r: usize)
        ensures
            r == self@.len(),
    {
        self.constraints.len()
    }

    /// Add one constraint to the conjunction.
    pub fn add(&mut self, constraint: ConstraintKind)
        ensures
            final(self)@ == old(self)@.push(constraint),
    {
        self.constraints.push(constraint);
    }

    /// Decide whether every constraint in the set admits the coordinate.
    pub fn allows(&self, coords: &SpaceCoordinates) -> (r: bool)
        ensures
            r == set_allows(self@, coords@),
    {
        let n = self.constraints.len();
        let mut i: usize = 0;
        while i < n
            invariant
                n == self@.len(),
                i <= n,
                forall|j: int| 0 <= j < i ==> #[trigger] self@[j].spec_allows(coords@),
            decreases n - i,
        {
            if !self.constraints[i].allows(coords) {
                proof {
                    assert(!self@[i as int].spec_allows(coords@));
                }
                return false;
            }
            i += 1;
        }
        true
    }

    /// Describe the conjunction.
    pub fn describe(&self) -> (r: String)
        ensures
            r@ == set_description(self@),
    {
        let n = self.constraints.len();
        if n == 0 {
            return String::from_str("no constraints");
        }
        let mut s = self.constraints[0].describe();
        proof {
            assert(self@.take(1).len() == 1);
            assert(self@.take(1)[0] == self@[0]);
            assert(s@ =~= set_description(self@.take(1)));
        }
        let mut i: usize = 1;
        while i < n
            invariant
                n == self@.len(),
                1 <= i <= n,
                s@ == set_description(self@.take(i as int)),
            decreases n - i,
        {
            s.append(", ");
            let d = self.constraints[i].describe();
            s.append(d.as_str());
            proof {
                let t = self@.take(i + 1);
                assert(t.drop_last() =~= self@.take(i as int));
                assert(t.last() == self@[i as int]);
                assert(s@ =~= set_description(self@.take(i + 1)));
            }
            i += 1;
        }
        proof {
            assert(self@.take(n as int) =~= self@);
        }
        s
    }
}

/// Adding a constraint to a set never widens what it admits: every
/// coordinate the grown set admits was admitted before.
pub proof fn lemma_constraint_monotonic(
    cs: Seq<ConstraintKind>,
    c: ConstraintKind,
    coords: Seq<i64>,
)
    ensures
        set_allows(cs.push(c), coords) ==> set_allows(cs, coords),
{
    if set_allows(cs.push(c), coords) {
        assert forall|i: int| 0 <= i < cs.len() implies #[trigger] cs[i].spec_allows(coords) by {
            assert(cs.push(c)[i] == cs[i]);
            assert(cs.push(c)[i].spec_allows(coords));
        }
    }
}

} // verus!
