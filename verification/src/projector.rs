//! Projectors: pure semantic interpreters. A coordinate is meaningless until
//! a projector reads it; the same coordinate admits many interpretations.

use vstd::prelude::*;
use vstd::std_specs::cmp::PartialEqSpec;
use crate::coords::SpaceCoordinates;
use crate::field::Field;
use crate::identity::Segment;
use crate::text::{int_str, i64_to_string};

verus! {

/// Interprets a point in the context of a field. Also the place where
/// adjacency semantics live: a projector may define which coordinates count
/// as "next" from a given one.
pub trait Projector {
    type Output: DeepView;

    /// What `project` returns, stated by view.
    spec fn spec_project(&self, field: &Field, coords: Seq<i64>) -> Option<
        <Self::Output as DeepView>::V,
    >;

    /// What `possible_next_coordinates` returns.
    spec fn spec_next(&self, coords: Seq<i64>) -> Seq<Seq<i64>>;

    /// Produce a projection, if possible.
    fn project(&self, field: &Field, segment: &Segment) -> (r: Option<Self::Output>)
        ensures
            r.deep_view() == self.spec_project(field, segment@),
    ;

    /// The coordinates adjacent to `coords` under this projector's
    /// interpretation.
    fn possible_next_coordinates(&self, coords: &SpaceCoordinates) -> (r: Vec<SpaceCoordinates>)
        ensures
            r@.map_values(|c: SpaceCoordinates| c@) == self.spec_next(coords@),
    ;
}

/// Interprets a coordinate alone, without a field. The caller decides what
/// the projection means; the projector only reads components.
pub trait CoordinateProjector {
    type Output: DeepView;

    /// What `project_coordinates` returns, stated by view.
    spec fn spec_project_coordinates(&self, coords: Seq<i64>) -> Option<
        <Self::Output as DeepView>::V,
    >;

    /// When projection succeeds.
    spec fn spec_can_project(&self, coords: Seq<i64>) -> bool;

    /// Project the coordinate into a value.
    fn project_coordinates(&self, coordinates: &SpaceCoordinates) -> (r: Option<Self::Output>)
        ensures
            r.deep_view() == self.spec_project_coordinates(coordinates@),
    ;

    /// Whether this projector can read the coordinate.
    fn can_project(&self, coordinates: &SpaceCoordinates) -> (r: bool)
        ensures
            r == self.spec_can_project(coordinates@),
    ;
}

/// Reads one axis as a signed integer.
#[derive(Clone, Copy, Debug)]
pub struct IntegerProjector {
    pub axis: usize,
}

impl IntegerProjector {
    pub fn new(axis: usize) -> (r: Self)
        ensures
            r.axis == axis,
    {
        Self { axis }
    }

    /// The projector for the first axis.
    pub fn default() -> (r: Self)
        ensures
            r.axis == 0,
    {
        Self { axis: 0 }
    }
}

impl Projector for IntegerProjector {
    type Output = i64;

    open spec fn spec_project(&self, field: &Field, coords: Seq<i64>) -> Option<i64> {
        if self.axis < coords.len() {
            Some(coords[self.axis as int])
        } else {
            None
        }
    }

    open spec fn spec_next(&self, coords: Seq<i64>) -> Seq<Seq<i64>> {
        Seq::empty()
    }

    fn project(&self, field: &Field, segment: &Segment) -> (r: Option<i64>) {
        segment.coordinates().get_axis(self.axis)
    }

    fn possible_next_coordinates(&self, coords: &SpaceCoordinates) -> (r: Vec<SpaceCoordinates>) {
        let r: Vec<SpaceCoordinates> = Vec::new();
        proof {
            assert(r@.map_values(|c: SpaceCoordinates| c@) =~= Seq::<Seq<i64>>::empty());
        }
        r
    }
}

impl CoordinateProjector for IntegerProjector {
    type Output = i64;

    open spec fn spec_project_coordinates(&self, coords: Seq<i64>) -> Option<i64> {
        if self.axis < coords.len() {
            Some(coords[self.axis as int])
        } else {
            None
        }
    }

    open spec fn spec_can_project(&self, coords: Seq<i64>) -> bool {
        self.axis < coords.len()
    }

    fn project_coordinates(&self, coordinates: &SpaceCoordinates) -> (r: Option<i64>) {
        coordinates.get_axis(self.axis)
    }

    fn can_project(&self, coordinates: &SpaceCoordinates) -> (r: bool) {
        self.axis < coordinates.dimensionality()
    }
}

/// The arithmetic successors of a value: one more, one less, doubled,
/// halved (truncating towards zero) - each kept only when it fits in the
/// component type.
pub open spec fn arithmetic_next(v: i64) -> Seq<Seq<i64>> {
    let with_inc: Seq<Seq<i64>> = if v < i64::MAX {
        seq![seq![(v + 1) as i64]]
    } else {
        Seq::empty()
    };
    let with_dec: Seq<Seq<i64>> = if v > i64::MIN {
        seq![seq![(v - 1) as i64]]
    } else {
        Seq::empty()
    };
    let with_dbl: Seq<Seq<i64>> = if i64::MIN / 2 <= v <= i64::MAX / 2 {
        seq![seq![(v * 2) as i64]]
    } else {
        Seq::empty()
    };
    let with_half: Seq<Seq<i64>> = seq![seq![half_towards_zero(v)]];
    with_inc + with_dec + with_dbl + with_half
}

/// Division by two truncating towards zero, as machine division does.
pub open spec fn half_towards_zero(v: i64) -> i64 {
    if v >= 0 {
        (v / 2) as i64
    } else {
        (-((-(v as int)) / 2)) as i64
    }
}

/// Interprets a one-dimensional coordinate as an integer and defines
/// arithmetic adjacency: +1, -1, doubling and halving.
#[derive(Clone, Copy, Debug)]
pub struct ArithmeticProjector;

impl Projector for ArithmeticProjector {
    type Output = i64;

    open spec fn spec_project(&self, field: &Field, coords: Seq<i64>) -> Option<i64> {
        if coords.len() > 0 {
            Some(coords[0])
        } else {
            None
        }
    }

    open spec fn spec_next(&self, coords: Seq<i64>) -> Seq<Seq<i64>> {
        arithmetic_next(if coords.len() > 0 {
            coords[0]
        } else {
            0
        })
    }

    fn project(&self, field: &Field, segment: &Segment) -> (r: Option<i64>) {
        segment.coordinates().get_axis(0)
    }

    fn possible_next_coordinates(&self, coords: &SpaceCoordinates) -> (r: Vec<SpaceCoordinates>) {
        let current: i64 = match coords.get_axis(0) {
            Some(v) => v,
            None => 0,
        };
        let mut out: Vec<SpaceCoordinates> = Vec::new();
        if current < i64::MAX {
            out.push(SpaceCoordinates::new(vec![current + 1]));
        }
        if current > i64::MIN {
            out.push(SpaceCoordinates::new(vec![current - 1]));
        }
        if i64::MIN / 2 <= current && current <= i64::MAX / 2 {
            out.push(SpaceCoordinates::new(vec![current * 2]));
        }
        let half: i64 = match current.checked_div(2) {
            Some(h) => h,
            None => 0,
        };
        proof {
            assert(half == half_towards_zero(current));
        }
        out.push(SpaceCoordinates::new(vec![half]));
        proof {
            assert(out@.map_values(|c: SpaceCoordinates| c@) =~~= self.spec_next(coords@));
        }
        out
    }
}

/// Interprets the first axis by parity: "even" or "odd".
#[derive(Clone, Copy, Debug)]
pub struct ParityProjector;

impl Projector for ParityProjector {
    type Output = String;

    open spec fn spec_project(&self, field: &Field, coords: Seq<i64>) -> Option<Seq<char>> {
        if coords.len() == 0 {
            None
        } else if coords[0] % 2 == 0 {
            Some("even"@)
        } else {
            Some("odd"@)
        }
    }

    open spec fn spec_next(&self, coords: Seq<i64>) -> Seq<Seq<i64>> {
        Seq::empty()
    }

    fn project(&self, field: &Field, segment: &Segment) -> (r: Option<String>) {
        match segment.coordinates().get_axis(0) {
            Some(v) => {
                if v % 2 == 0 {
                    Some(String::from_str("even"))
                } else {
                    Some(String::from_str("odd"))
                }
            },
            None => None,
        }
    }

    fn possible_next_coordinates(&self, coords: &SpaceCoordinates) -> (r: Vec<SpaceCoordinates>) {
        let r: Vec<SpaceCoordinates> = Vec::new();
        proof {
            assert(r@.map_values(|c: SpaceCoordinates| c@) =~= Seq::<Seq<i64>>::empty());
        }
        r
    }
}

/// Reads one axis as a boolean against configured true and false values.
#[derive(Clone, Copy, Debug)]
pub struct BooleanProjector {
    pub axis: usize,
    pub true_value: i64,
    pub false_value: i64,
}

impl BooleanProjector {
    pub fn new(axis: usize, true_value: i64, false_value: i64) -> (r: Self)
        ensures
            r.axis == axis && r.true_value == true_value && r.false_value == false_value,
    {
        Self { axis, true_value, false_value }
    }

    /// The conventional reading: first axis, one for true, zero for false.
    pub fn standard() -> (r: Self)
        ensures
            r.axis == 0 && r.true_value == 1 && r.false_value == 0,
    {
        Self { axis: 0, true_value: 1, false_value: 0 }
    }

    /// What a raw component means under this projector.
    pub open spec fn spec_interpret(&self, value: i64) -> Option<bool> {
        if value == self.true_value {
            Some(true)
        } else if value == self.false_value {
            Some(false)
        } else {
            None
        }
    }

    fn interpret(&self, value: i64) -> (r: Option<bool>)
        ensures
            r == self.spec_interpret(value),
    {
        if value == self.true_value {
            Some(true)
        } else if value == self.false_value {
            Some(false)
        } else {
            None
        }
    }
}

impl CoordinateProjector for BooleanProjector {
    type Output = bool;

    open spec fn spec_project_coordinates(&self, coords: Seq<i64>) -> Option<bool> {
        if self.axis < coords.len() {
            self.spec_interpret(coords[self.axis as int])
        } else {
            None
        }
    }

    open spec fn spec_can_project(&self, coords: Seq<i64>) -> bool {
        self.axis < coords.len() && (coords[self.axis as int] == self.true_value
            || coords[self.axis as int] == self.false_value)
    }

    fn project_coordinates(&self, coordinates: &SpaceCoordinates) -> (r: Option<bool>) {
        match coordinates.get_axis(self.axis) {
            Some(v) => self.interpret(v),
            None => None,
        }
    }

    fn can_project(&self, coordinates: &SpaceCoordinates) -> (r: bool) {
        match coordinates.get_axis(self.axis) {
            Some(v) => v == self.true_value || v == self.false_value,
            None => false,
        }
    }
}

/// Reads one axis as "inside the range or not".
#[derive(Clone, Copy, Debug)]
pub struct RangeProjector {
    pub axis: usize,
    pub min: i64,
    pub max: i64,
}

impl RangeProjector {
    pub fn new(axis: usize, min: i64, max: i64) -> (r: Self)
        ensures
            r.axis == axis && r.min == min && r.max == max,
    {
        Self { axis, min, max }
    }
}

impl CoordinateProjector for RangeProjector {
    type Output = bool;

    open spec fn spec_project_coordinates(&self, coords: Seq<i64>) -> Option<bool> {
        if self.axis < coords.len() {
            Some(self.min <= coords[self.axis as int] && coords[self.axis as int] <= self.max)
        } else {
            None
        }
    }

    open spec fn spec_can_project(&self, coords: Seq<i64>) -> bool {
        self.axis < coords.len()
    }

    fn project_coordinates(&self, coordinates: &SpaceCoordinates) -> (r: Option<bool>) {
        match coordinates.get_axis(self.axis) {
            Some(v) => Some(self.min <= v && v <= self.max),
            None => None,
        }
    }

    fn can_project(&self, coordinates: &SpaceCoordinates) -> (r: bool) {
        self.axis < coordinates.dimensionality()
    }
}

/// A projector that would need more than the coordinate to answer: it reads
/// nothing, so projection always fails. It marks the place where constraint
/// satisfaction would be projected if a field were at hand.
#[derive(Clone, Copy, Debug)]
pub struct ConstraintSatisfactionProjector;

impl CoordinateProjector for ConstraintSatisfactionProjector {
    type Output = bool;

    open spec fn spec_project_coordinates(&self, coords: Seq<i64>) -> Option<bool> {
        None
    }

    open spec fn spec_can_project(&self, coords: Seq<i64>) -> bool {
        false
    }

    fn project_coordinates(&self, coordinates: &SpaceCoordinates) -> (r: Option<bool>) {
        None
    }

    fn can_project(&self, coordinates: &SpaceCoordinates) -> (r: bool) {
        false
    }
}

/// An observer pairs a projector with an expected value: observing asks
/// whether the coordinate projects to that value.
#[derive(Debug)]
pub struct Observer<P: CoordinateProjector> {
    projector: P,
    expected: P::Output,
}

impl<P: CoordinateProjector> Observer<P> where P::Output: PartialEq {
    /// The projector this observer applies.
    pub closed spec fn spec_projector(&self) -> P {
        self.projector
    }

    /// The value this observer expects.
    pub closed spec fn spec_expected(&self) -> P::Output {
        self.expected
    }

    pub fn new(projector: P, expected: P::Output) -> (r: Self)
        ensures
            r.spec_projector() == projector,
            r.spec_expected() == expected,
    {
        Self { projector, expected }
    }

    /// Whether the coordinate projects to the expected value; `None` when it
    /// does not project at all.
    pub fn observe(&self, coordinates: &SpaceCoordinates) -> (r: Option<bool>)
        ensures
            P::Output::obeys_eq_spec() && eq_is_view_eq::<P::Output>()
                ==> r == match self.spec_projector().spec_project_coordinates(coordinates@) {
                Some(v) => Some(v == self.spec_expected().deep_view()),
                None => None::<bool>,
            },
    {
        match self.projector.project_coordinates(coordinates) {
            Some(value) => Some(value == self.expected),
            None => None,
        }
    }

    /// The projector this observer applies.
    pub fn projector_ref(&self) -> (r: &P)
        ensures
            *r == self.spec_projector(),
    {
        &self.projector
    }

    /// Project through the observer's projector without comparing.
    pub fn project(&self, coordinates: &SpaceCoordinates) -> (r: Option<P::Output>)
        ensures
            r.deep_view() == self.spec_projector().spec_project_coordinates(coordinates@),
    {
        self.projector.project_coordinates(coordinates)
    }
}

/// Whether a type's equality agrees with its view: two values compare equal
/// exactly when they view to the same abstraction. Holds for plain values
/// such as integers and booleans.
pub open spec fn eq_is_view_eq<T: DeepView + PartialEq>() -> bool {
    forall|a: T, b: T| #[trigger] a.eq_spec(&b) <==> a.deep_view() == b.deep_view()
}

impl CoordinateProjector for ParityProjector {
    type Output = String;

    open spec fn spec_project_coordinates(&self, coords: Seq<i64>) -> Option<Seq<char>> {
        if coords.len() == 0 {
            None
        } else if coords[0] % 2 == 0 {
            Some("even"@)
        } else {
            Some("odd"@)
        }
    }

    open spec fn spec_can_project(&self, coords: Seq<i64>) -> bool {
        coords.len() > 0
    }

    fn project_coordinates(&self, coordinates: &SpaceCoordinates) -> (r: Option<String>) {
        match coordinates.get_axis(0) {
            Some(v) => {
                if v % 2 == 0 {
                    Some(String::from_str("even"))
                } else {
                    Some(String::from_str("odd"))
                }
            },
            None => None,
        }
    }

    fn can_project(&self, coordinates: &SpaceCoordinates) -> (r: bool) {
        coordinates.dimensionality() > 0
    }
}

impl CoordinateProjector for ArithmeticProjector {
    type Output = i64;

    open spec fn spec_project_coordinates(&self, coords: Seq<i64>) -> Option<i64> {
        if coords.len() > 0 {
            Some(coords[0])
        } else {
            None
        }
    }

    open spec fn spec_can_project(&self, coords: Seq<i64>) -> bool {
        coords.len() > 0
    }

    fn project_coordinates(&self, coordinates: &SpaceCoordinates) -> (r: Option<i64>) {
        coordinates.get_axis(0)
    }

    fn can_project(&self, coordinates: &SpaceCoordinates) -> (r: bool) {
        coordinates.dimensionality() > 0
    }
}

/// The renderings of the components at the valid indices, in index-list
/// order; indices past the coordinate's arity are skipped.
pub open spec fn multi_axis_parts(idx: Seq<usize>, coords: Seq<i64>) -> Seq<Seq<char>> {
    idx.filter(|a: usize| (a as int) < coords.len()).map_values(
        |a: usize| int_str(coords[a as int] as int),
    )
}

/// Parts joined by a separator: empty for no parts, otherwise the parts
/// with the separator between neighbours.
pub open spec fn join_parts(parts: Seq<Seq<char>>, sep: Seq<char>) -> Seq<char>
    decreases parts.len(),
{
    if parts.len() == 0 {
        Seq::empty()
    } else if parts.len() == 1 {
        parts[0]
    } else {
        join_parts(parts.drop_last(), sep) + sep + parts.last()
    }
}

/// Reads several axes at once: the components at the configured indices,
/// rendered in decimal and joined by a separator. Projection fails when no
/// configured index is valid.
#[derive(Clone, Debug)]
pub struct MultiAxisProjector {
    axis_indices: Vec<usize>,
    separator: String,
}

impl MultiAxisProjector {
    /// The configured axis indices.
    pub closed spec fn spec_axis_indices(&self) -> Seq<usize> {
        self.axis_indices@
    }

    /// The configured separator.
    pub closed spec fn spec_separator(&self) -> Seq<char> {
        self.separator@
    }

    pub fn new(axis_indices: Vec<usize>, separator: &str) -> (r: Self)
        ensures
            r.spec_axis_indices() == axis_indices@,
            r.spec_separator() == separator@,
    {
        Self { axis_indices, separator: String::from_str(separator) }
    }
}

impl CoordinateProjector for MultiAxisProjector {
    type Output = String;

    open spec fn spec_project_coordinates(&self, coords: Seq<i64>) -> Option<Seq<char>> {
        let parts = multi_axis_parts(self.spec_axis_indices(), coords);
        if parts.len() == 0 {
            None
        } else {
            Some(join_parts(parts, self.spec_separator()))
        }
    }

    open spec fn spec_can_project(&self, coords: Seq<i64>) -> bool {
        forall|j: int|
            0 <= j < self.spec_axis_indices().len() ==> (
            #[trigger] self.spec_axis_indices()[j] as int) < coords.len()
    }

    fn project_coordinates(&self, coordinates: &SpaceCoordinates) -> (r: Option<String>) {
        let ghost idx = self.spec_axis_indices();
        let ghost cv = coordinates@;
        let ghost pred = |a: usize| (a as int) < cv.len();
        let n = self.axis_indices.len();
        let mut parts: Vec<String> = Vec::new();
        proof {
            assert(parts@.map_values(|p: String| p@) =~= multi_axis_parts(idx.take(0), cv));
        }
        let mut i: usize = 0;
        while i < n
            invariant
                n == self.axis_indices@.len(),
                idx == self.spec_axis_indices(),
                cv == coordinates@,
                pred == (|a: usize| (a as int) < cv.len()),
                i <= n,
                parts@.map_values(|p: String| p@) == multi_axis_parts(idx.take(i as int), cv),
            decreases n - i,
        {
            proof {
                assert(idx.take(i + 1) =~= idx.take(i as int).push(idx[i as int]));
                idx.take(i as int).lemma_filter_push(idx[i as int], pred);
            }
            let a = self.axis_indices[i];
            match coordinates.get_axis(a) {
                Some(v) => {
                    let ghost prev = parts@;
                    parts.push(crate::text::i64_to_string(v));
                    proof {
                        prev.lemma_push_map_commute(|p: String| p@, parts@.last());
                        idx.take(i as int).filter(pred).lemma_push_map_commute(
                            |a: usize| int_str(cv[a as int] as int),
                            idx[i as int],
                        );
                        assert(parts@.map_values(|p: String| p@) =~= multi_axis_parts(
                            idx.take(i + 1),
                            cv,
                        ));
                    }
                },
                None => {
                    proof {
                        assert(parts@.map_values(|p: String| p@) =~= multi_axis_parts(
                            idx.take(i + 1),
                            cv,
                        ));
                    }
                },
            }
            i += 1;
        }
        proof {
            assert(idx.take(n as int) =~= idx);
        }
        let ghost all_parts = multi_axis_parts(idx, cv);
        if parts.len() == 0 {
            return None;
        }
        let m = parts.len();
        let mut joined = String::new();
        joined.append(parts[0].as_str());
        proof {
            assert(all_parts.take(1).drop_last() =~= Seq::<Seq<char>>::empty());
            assert(all_parts.take(1)[0] == parts@[0]@);
            assert(joined@ =~= join_parts(all_parts.take(1), self.spec_separator()));
        }
        let mut k: usize = 1;
        while k < m
            invariant
                m == parts@.len(),
                m == all_parts.len(),
                all_parts == multi_axis_parts(idx, cv),
                idx == self.spec_axis_indices(),
                cv == coordinates@,
                forall|j: int| 0 <= j < m ==> (#[trigger] parts@[j])@ == all_parts[j],
                1 <= k <= m,
                joined@ == join_parts(all_parts.take(k as int), self.spec_separator()),
            decreases m - k,
        {
            joined.append(self.separator.as_str());
            joined.append(parts[k].as_str());
            proof {
                assert(all_parts.take(k + 1).drop_last() =~= all_parts.take(k as int));
                assert(all_parts.take(k + 1).last() == all_parts[k as int]);
                assert(joined@ =~= join_parts(all_parts.take(k + 1), self.spec_separator()));
            }
            k += 1;
        }
        proof {
            assert(all_parts.take(m as int) =~= all_parts);
        }
        Some(joined)
    }

    fn can_project(&self, coordinates: &SpaceCoordinates) -> (r: bool) {
        let n = self.axis_indices.len();
        let mut i: usize = 0;
        while i < n
            invariant
                n == self.axis_indices@.len(),
                i <= n,
                forall|j: int|
                    0 <= j < i ==> (#[trigger] self.axis_indices@[j] as int) < coordinates@.len(),
            decreases n - i,
        {
            if self.axis_indices[i] >= coordinates.dimensionality() {
                proof {
                    assert(!((self.spec_axis_indices()[i as int] as int) < coordinates@.len()));
                }
                return false;
            }
            i += 1;
        }
        true
    }
}

/// Whether a vector holds a value equal to `x`. Meaningful when the
/// element type's equality agrees with its view.
pub(crate) fn contains_value<T: PartialEq + DeepView>(v: &Vec<T>, x: &T) -> (r: bool)
    ensures
        T::obeys_eq_spec() && eq_is_view_eq::<T>() ==> r == v.deep_view()
            .contains(x.deep_view()),
{
    let ghost ok = T::obeys_eq_spec() && eq_is_view_eq::<T>();
    let n = v.len();
    let mut i: usize = 0;
    while i < n
        invariant
            n == v@.len(),
            i <= n,
            ok == (T::obeys_eq_spec() && eq_is_view_eq::<T>()),
            ok ==> forall|j: int| 0 <= j < i ==> (#[trigger] v@[j]).deep_view() != x.deep_view(),
        decreases n - i,
    {
        if v[i] == *x {
            proof {
                if ok {
                    assert(v.deep_view()[i as int] == x.deep_view());
                }
            }
            return true;
        }
        i += 1;
    }
    proof {
        if ok {
            let m = v.deep_view();
            assert forall|j: int| 0 <= j < m.len() implies #[trigger] m[j] != x.deep_view() by {
                assert(m[j] == v@[j].deep_view());
            }
        }
    }
    false
}


} // verus!
