//! Opaque structural coordinates: an ordered tuple of signed integers.
//! No semantic interpretation happens at this layer; meaning is assigned
//! only by projectors and constraints.

use vstd::prelude::*;

verus! {

/// A coordinate in an abstract space. All axes are equivalent; the value is
/// an opaque structural identifier until a projector interprets it.
#[derive(Clone, Debug)]
pub struct SpaceCoordinates {
    pub raw: Vec<i64>,
}

impl View for SpaceCoordinates {
    type V = Seq<i64>;

    open spec fn view(&self) -> Seq<i64> {
        self.raw@
    }
}

impl SpaceCoordinates {
    /// Create a coordinate from its components.
    pub fn new(raw: Vec<i64>) -> (r: Self)
        ensures
            r@ == raw@,
    {
        Self { raw }
    }

    /// The empty coordinate, awaiting projection.
    pub fn pending() -> (r: Self)
        ensures
            r@ == Seq::<i64>::empty(),
    {
        Self { raw: Vec::new() }
    }

    /// A coordinate can be projected when it has at least one component.
    pub fn is_projectable(&self) -> (r: bool)
        ensures
            r == (self@.len() != 0),
    {
        self.raw.len() != 0
    }

    /// The components as a slice.
    pub fn as_slice(&self) -> (r: &[i64])
        ensures
            r@ == self@,
    {
        self.raw.as_slice()
    }

    /// The number of axes of this coordinate.
    pub fn dimensionality(&self) -> (r: usize)
        ensures
            r == self@.len(),
    {
        self.raw.len()
    }

    /// The component on the given axis, or `None` when the coordinate has
    /// fewer axes than that.
    pub fn get_axis(&self, axis: usize) -> (r: Option<i64>)
        ensures
            r == if axis < self@.len() {
                Some(self@[axis as int])
            } else {
                None::<i64>
            },
    {
        if axis < self.raw.len() {
            Some(self.raw[axis])
        } else {
            None
        }
    }

    /// An independent copy holding the same components.
    pub fn duplicate(&self) -> (r: Self)
        ensures
            r@ == self@,
    {
        let n = self.raw.len();
        let mut raw: Vec<i64> = Vec::new();
        let mut i: usize = 0;
        while i < n
            invariant
                n == self@.len(),
                i <= n,
                raw@ == self@.take(i as int),
            decreases n - i,
        {
            raw.push(self.raw[i]);
            proof {
                assert(self@.take(i + 1) =~= self@.take(i as int).push(self@[i as int]));
            }
            i += 1;
        }
        proof {
            assert(self@.take(n as int) =~= self@);
        }
        Self { raw }
    }

    /// Structural equality: two coordinates are equal iff all components are.
    pub fn same_as(&self, other: &Self) -> (r: bool)
        ensures
            r == (self@ == other@),
    {
        if self.raw.len() != other.raw.len() {
            proof {
                assert(self@ != other@);
            }
            return false;
        }
        let n = self.raw.len();
        let mut i: usize = 0;
        while i < n
            invariant
                n == self@.len(),
                n == other@.len(),
                i <= n,
                forall|j: int| 0 <= j < i ==> self@[j] == other@[j],
            decreases n - i,
        {
            if self.raw[i] != other.raw[i] {
                proof {
                    assert(self@[i as int] != other@[i as int]);
                }
                return false;
            }
            i += 1;
        }
        proof {
            assert(self@ =~= other@);
        }
        true
    }
}

} // verus!
