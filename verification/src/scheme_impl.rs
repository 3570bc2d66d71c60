//! Composition and transformation of schemes, behind one shared read
//! contract. A composite combines component schemes under a combination
//! method and a conflict policy; a transformed scheme wraps a base with a
//! geometric or topological transform. Both are content-addressed: their
//! identities digest the component identities (in canonical arrangement),
//! the method, and the policy, so equal compositions built in different
//! orders agree.

use vstd::prelude::*;
use vstd::bytes::spec_u64_to_le_bytes;
use vstd::utf8::encode_utf8;
use crate::canonical::{canonical_arrangement, canonical_bytes, chunk_views, lemma_canonical_arrangement_of_multiset};
use crate::coords::SpaceCoordinates;
use crate::identity::{digest_of, Segment, SegmentId};
use crate::layout::LogicalAddress;
use crate::relation::{push_str_bytes, push_i64, push_u64, i64_bytes};
use crate::scheme::{first_violation, segment_id_views, Axis, Scheme, SchemeId};
use crate::text::dec_digits;

verus! {

/// A rectangular array of values.
#[derive(Clone, Debug)]
pub struct Matrix<T>(pub Vec<Vec<T>>);

impl<T> Matrix<T> {
    pub fn new(data: Vec<Vec<T>>) -> (r: Self)
        ensures
            r.0@ == data@,
    {
        Matrix(data)
    }
}

/// How component schemes are combined.
#[derive(Clone, Debug)]
pub enum CombinationMethod {
    Union,
    Intersection,
    Product,
    Sum,
    /// A named strategy defined by the caller.
    Custom(String),
}

/// The canonical bytes of a combination method.
pub open spec fn combination_method_encoding(m: &CombinationMethod) -> Seq<u8> {
    match m {
        CombinationMethod::Union => seq![0u8],
        CombinationMethod::Intersection => seq![1u8],
        CombinationMethod::Product => seq![2u8],
        CombinationMethod::Sum => seq![3u8],
        CombinationMethod::Custom(name) => seq![4u8] + encode_utf8(name@),
    }
}

/// How lookup collisions between components are resolved.
#[derive(Clone, Debug)]
pub enum ConflictResolution {
    /// The first component wins.
    FirstWins,
    /// Components win by the given priority order.
    Priority(Vec<usize>),
    /// Colliding entries are merged.
    Merge,
    /// A collision is an error.
    Fail,
}

/// The canonical bytes of a priority list.
pub open spec fn priority_bytes(v: Seq<usize>) -> Seq<u8>
    decreases v.len(),
{
    if v.len() == 0 {
        Seq::empty()
    } else {
        priority_bytes(v.drop_last()) + spec_u64_to_le_bytes(v.last() as u64)
    }
}

/// The canonical bytes of a conflict policy.
pub open spec fn conflict_resolution_encoding(c: &ConflictResolution) -> Seq<u8> {
    match c {
        ConflictResolution::FirstWins => seq![0u8],
        ConflictResolution::Priority(order) => seq![1u8] + priority_bytes(order@),
        ConflictResolution::Merge => seq![2u8],
        ConflictResolution::Fail => seq![3u8],
    }
}

/// How component axes are aligned.
#[derive(Clone, Debug)]
pub struct AlignmentRules {
    /// Pairs of axis indices aligned with each other.
    pub alignment_axes: Vec<(usize, usize)>,
    /// An optional alignment tolerance.
    pub tolerance: Option<i64>,
}

/// The canonical bytes of alignment axis pairs.
pub open spec fn alignment_axes_bytes(v: Seq<(usize, usize)>) -> Seq<u8>
    decreases v.len(),
{
    if v.len() == 0 {
        Seq::empty()
    } else {
        alignment_axes_bytes(v.drop_last()) + spec_u64_to_le_bytes(v.last().0 as u64)
            + spec_u64_to_le_bytes(v.last().1 as u64)
    }
}

/// The canonical bytes of an optional alignment.
pub open spec fn alignment_encoding(a: &Option<AlignmentRules>) -> Seq<u8> {
    match a {
        None => seq![0u8],
        Some(rules) => seq![1u8] + alignment_axes_bytes(rules.alignment_axes@) + (
        match rules.tolerance {
            None => seq![0u8],
            Some(t) => seq![1u8] + i64_bytes(t),
        }),
    }
}

/// The full composition policy: method, alignment, conflict resolution.
#[derive(Clone, Debug)]
pub struct CompositionRules {
    pub combination_method: CombinationMethod,
    pub alignment: Option<AlignmentRules>,
    pub conflict_resolution: ConflictResolution,
}

/// The canonical bytes of a composition policy.
pub open spec fn composition_rules_encoding(r: &CompositionRules) -> Seq<u8> {
    combination_method_encoding(&r.combination_method) + alignment_encoding(&r.alignment)
        + conflict_resolution_encoding(&r.conflict_resolution)
}

/// Append a composition policy's canonical bytes to a buffer.
#[verifier::rlimit(100)]
fn push_composition_rules(out: &mut Vec<u8>, r: &CompositionRules)
    ensures
        final(out)@ == old(out)@ + composition_rules_encoding(r),
{
    match &r.combination_method {
        CombinationMethod::Union => out.push(0u8),
        CombinationMethod::Intersection => out.push(1u8),
        CombinationMethod::Product => out.push(2u8),
        CombinationMethod::Sum => out.push(3u8),
        CombinationMethod::Custom(name) => {
            out.push(4u8);
            push_str_bytes(out, name.as_str());
        },
    }
    proof {
        assert(out@ =~= old(out)@ + combination_method_encoding(&r.combination_method));
    }
    match &r.alignment {
        None => out.push(0u8),
        Some(rules) => {
            out.push(1u8);
            let n = rules.alignment_axes.len();
            let mut i: usize = 0;
            let ghost mid = out@;
            proof {
                assert(alignment_axes_bytes(rules.alignment_axes@.take(0)) =~= Seq::<u8>::empty());
                assert(out@ =~= mid + alignment_axes_bytes(rules.alignment_axes@.take(0)));
            }
            while i < n
                invariant
                    n == rules.alignment_axes@.len(),
                    i <= n,
                    out@ == mid + alignment_axes_bytes(rules.alignment_axes@.take(i as int)),
                decreases n - i,
            {
                push_u64(out, rules.alignment_axes[i].0 as u64);
                push_u64(out, rules.alignment_axes[i].1 as u64);
                proof {
                    let t = rules.alignment_axes@.take(i + 1);
                    assert(t.drop_last() =~= rules.alignment_axes@.take(i as int));
                    assert(t.last() == rules.alignment_axes@[i as int]);
                    assert(out@ =~= mid + alignment_axes_bytes(rules.alignment_axes@.take(i + 1)));
                }
                i += 1;
            }
            proof {
                assert(rules.alignment_axes@.take(n as int) =~= rules.alignment_axes@);
            }
            match rules.tolerance {
                None => out.push(0u8),
                Some(t) => {
                    out.push(1u8);
                    push_i64(out, t);
                },
            }
        },
    }
    proof {
        assert(out@ =~= old(out)@ + combination_method_encoding(&r.combination_method)
            + alignment_encoding(&r.alignment));
    }
    match &r.conflict_resolution {
        ConflictResolution::FirstWins => out.push(0u8),
        ConflictResolution::Priority(order) => {
            out.push(1u8);
            let n = order.len();
            let mut i: usize = 0;
            let ghost mid = out@;
            proof {
                assert(priority_bytes(order@.take(0)) =~= Seq::<u8>::empty());
                assert(out@ =~= mid + priority_bytes(order@.take(0)));
            }
            while i < n
                invariant
                    n == order@.len(),
                    i <= n,
                    out@ == mid + priority_bytes(order@.take(i as int)),
                decreases n - i,
            {
                push_u64(out, order[i] as u64);
                proof {
                    let t = order@.take(i + 1);
                    assert(t.drop_last() =~= order@.take(i as int));
                    assert(t.last() == order@[i as int]);
                    assert(out@ =~= mid + priority_bytes(order@.take(i + 1)));
                }
                i += 1;
            }
            proof {
                assert(order@.take(n as int) =~= order@);
            }
        },
        ConflictResolution::Merge => out.push(2u8),
        ConflictResolution::Fail => out.push(3u8),
    }
    proof {
        assert(out@ =~= old(out)@ + composition_rules_encoding(r));
    }
}

/// The canonical bytes a composite's identity digests: the component
/// identities in canonical arrangement, then the composition policy.
pub open spec fn composite_id_input(ids: Seq<Seq<u8>>, rules: Seq<u8>) -> Seq<u8> {
    canonical_arrangement(ids).flatten() + rules
}

/// The identity of a composite structure.
pub open spec fn spec_composite_identity(ids: Seq<Seq<u8>>, rules: Seq<u8>) -> Seq<u8> {
    digest_of(composite_id_input(ids, rules))
}

/// Composition associativity of identity under sorting: two composites with
/// the same component identities - in any order - and the same combination
/// method and conflict policy receive the same identity.
pub proof fn lemma_composite_identity_order_independent(
    ids1: Seq<Seq<u8>>,
    rules1: Seq<u8>,
    ids2: Seq<Seq<u8>>,
    rules2: Seq<u8>,
)
    requires
        ids1.to_multiset() == ids2.to_multiset(),
        rules1 == rules2,
    ensures
        spec_composite_identity(ids1, rules1) == spec_composite_identity(ids2, rules2),
{
    lemma_canonical_arrangement_of_multiset(ids1, ids2);
}

/// The description of the first structural violation across the components,
/// in component order, if any.
pub open spec fn composite_first_violation(cs: Seq<Scheme>, coords: Seq<i64>) -> Option<Seq<char>>
    decreases cs.len(),
{
    if cs.len() == 0 {
        None
    } else if first_violation(cs[0].spec_constraints(), coords) is Some {
        first_violation(cs[0].spec_constraints(), coords)
    } else {
        composite_first_violation(cs.drop_first(), coords)
    }
}

/// The identities of a component list.
pub open spec fn component_ids(cs: Seq<Scheme>) -> Seq<Seq<u8>> {
    cs.map_values(|s: Scheme| s.spec_id())
}

/// A composition of component schemes under a composition policy. Reads
/// delegate across the components; the identity digests the component
/// identities and the policy, independent of component order.
pub struct CompositeScheme {
    id: SchemeId,
    components: Vec<Scheme>,
    composition_rules: CompositionRules,
    empty_axes: Vec<Axis>,
}

impl CompositeScheme {
    /// A composite never exposes axes of its own.
    #[verifier::type_invariant]
    closed spec fn composite_inv(&self) -> bool {
        self.empty_axes@.len() == 0
    }

    /// The stored identity bytes.
    pub closed spec fn spec_id(&self) -> Seq<u8> {
        self.id@
    }

    /// The component schemes, in order.
    pub closed spec fn spec_components(&self) -> Seq<Scheme> {
        self.components@
    }

    /// The composition policy.
    pub closed spec fn spec_rules(&self) -> CompositionRules {
        self.composition_rules
    }

    /// Compose component schemes under a policy. The identity is the digest
    /// of the component identities in canonical arrangement followed by the
    /// policy; component order does not affect it.
    pub fn new(components: Vec<Scheme>, composition_rules: CompositionRules) -> (r: Self)
        ensures
            r.spec_components() == components@,
            r.spec_id() == spec_composite_identity(
                component_ids(components@),
                composition_rules_encoding(&composition_rules),
            ),
    {
        let n = components.len();
        let mut id_chunks: Vec<Vec<u8>> = Vec::new();
        proof {
            assert(chunk_views(id_chunks@) =~= component_ids(components@.take(0)));
        }
        let mut i: usize = 0;
        while i < n
            invariant
                n == components@.len(),
                i <= n,
                chunk_views(id_chunks@) == component_ids(components@.take(i as int)),
            decreases n - i,
        {
            let chunk = vstd::slice::slice_to_vec(components[i].id().as_bytes().as_slice());
            let ghost prev = id_chunks@;
            id_chunks.push(chunk);
            proof {
                prev.lemma_push_map_commute(|x: Vec<u8>| x@, id_chunks@.last());
                components@.take(i as int).lemma_push_map_commute(
                    |s: Scheme| s.spec_id(),
                    components@[i as int],
                );
                assert(components@.take(i + 1) =~= components@.take(i as int).push(
                    components@[i as int],
                ));
                assert(chunk_views(id_chunks@) =~= component_ids(components@.take(i + 1)));
            }
            i += 1;
        }
        proof {
            assert(components@.take(n as int) =~= components@);
        }
        let mut input = canonical_bytes(id_chunks);
        push_composition_rules(&mut input, &composition_rules);
        let id = SchemeId::from_array(crate::identity::blake3_digest(&input));
        CompositeScheme { id, components, composition_rules, empty_axes: Vec::new() }
    }

    /// The identity of this composite.
    pub fn id(&self) -> (r: &SchemeId)
        ensures
            r@ == self.spec_id(),
    {
        &self.id
    }

    /// A composite exposes no axes of its own.
    pub fn axes(&self) -> (r: &Vec<Axis>)
        ensures
            r@ == Seq::<Axis>::empty(),
    {
        proof {
            use_type_invariant(&*self);
            assert(self.empty_axes@ =~= Seq::<Axis>::empty());
        }
        &self.empty_axes
    }

    /// A composite has no dimensionality of its own.
    pub fn dimensionality(&self) -> (r: usize)
        ensures
            r == 0,
    {
        0
    }

    /// Whether any component holds a segment with the given identity.
    pub fn contains_segment(&self, segment_id: &SegmentId) -> (r: bool)
        ensures
            r == exists|k: int|
                0 <= k < self.spec_components().len() && segment_id_views(
                    (#[trigger] self.spec_components()[k]).spec_segments(),
                ).contains(segment_id@),
    {
        let n = self.components.len();
        let mut i: usize = 0;
        while i < n
            invariant
                n == self.components@.len(),
                i <= n,
                forall|k: int|
                    0 <= k < i ==> !segment_id_views(
                        (#[trigger] self.components@[k]).spec_segments(),
                    ).contains(segment_id@),
            decreases n - i,
        {
            if self.components[i].contains_segment(segment_id) {
                proof {
                    assert(segment_id_views(
                        self.spec_components()[i as int].spec_segments(),
                    ).contains(segment_id@));
                }
                return true;
            }
            i += 1;
        }
        false
    }

    /// The first component's segment with the given identity, if any
    /// component holds one (first match wins).
    pub fn get_segment(&self, segment_id: &SegmentId) -> (r: Option<&Segment>)
        ensures
            r is Some <==> exists|k: int|
                0 <= k < self.spec_components().len() && segment_id_views(
                    (#[trigger] self.spec_components()[k]).spec_segments(),
                ).contains(segment_id@),
            r is Some ==> (r->Some_0).spec_id() == segment_id@ && exists|k: int|
                0 <= k < self.spec_components().len() && segment_id_views(
                    (#[trigger] self.spec_components()[k]).spec_segments(),
                ).contains(segment_id@) && self.spec_components()[k].spec_segments().contains(
                    *(r->Some_0),
                ) && (forall|q: int|
                    0 <= q < k ==> !segment_id_views(
                        (#[trigger] self.spec_components()[q]).spec_segments(),
                    ).contains(segment_id@)),
    {
        let n = self.components.len();
        let mut i: usize = 0;
        while i < n
            invariant
                n == self.components@.len(),
                i <= n,
                forall|k: int|
                    0 <= k < i ==> !segment_id_views(
                        (#[trigger] self.components@[k]).spec_segments(),
                    ).contains(segment_id@),
            decreases n - i,
        {
            match self.components[i].get_segment(segment_id) {
                Some(seg) => {
                    proof {
                        assert(segment_id_views(
                            self.spec_components()[i as int].spec_segments(),
                        ).contains(segment_id@));
                        assert(self.spec_components()[i as int].spec_segments().contains(*seg));
                    }
                    return Some(seg);
                },
                None => {
                },
            }
            i += 1;
        }
        None
    }

    /// Check a coordinate against each component's structural constraints
    /// in order, failing fast with the first violated constraint's
    /// description.
    pub fn validate_structure(&self, coords: &SpaceCoordinates) -> (r: Result<(), String>)
        ensures
            r is Ok <==> composite_first_violation(self.spec_components(), coords@) is None,
            r is Err ==> Some((r->Err_0)@) == composite_first_violation(
                self.spec_components(),
                coords@,
            ),
    {
        let n = self.components.len();
        let mut i: usize = 0;
        proof {
            assert(self.spec_components().skip(0) =~= self.spec_components());
        }
        while i < n
            invariant
                n == self.components@.len(),
                i <= n,
                composite_first_violation(self.spec_components(), coords@)
                    == composite_first_violation(self.spec_components().skip(i as int), coords@),
            decreases n - i,
        {
            proof {
                assert(self.spec_components().skip(i as int)[0] == self.spec_components()[
                    i as int]);
                assert(self.spec_components().skip(i as int).drop_first()
                    =~= self.spec_components().skip(i + 1));
            }
            match self.components[i].validate_structure(coords) {
                Ok(()) => {
                },
                Err(d) => {
                    return Err(d);
                },
            }
            i += 1;
        }
        proof {
            assert(self.spec_components().skip(n as int) =~= Seq::<Scheme>::empty());
        }
        Ok(())
    }

    /// A composite defines no address mapping of its own.
    pub fn map_to_logical_address(&self, coords: &SpaceCoordinates) -> (r: Option<LogicalAddress>)
        ensures
            r is None,
    {
        None
    }

    /// A one-line account of the composite.
    pub fn describe(&self) -> (r: String)
        ensures
            r@ == "CompositeScheme with "@ + dec_digits(self.spec_components().len())
                + " components"@,
    {
        let mut s = String::from_str("CompositeScheme with ");
        s.append(crate::text::usize_to_string(self.components.len()).as_str());
        s.append(" components");
        s
    }
}

/// A geometric or topological transform of a base scheme.
#[derive(Clone, Debug)]
pub enum TransformType {
    /// Move every coordinate by a vector.
    Translation(Vec<i64>),
    /// Rotate by a matrix.
    Rotation(Matrix<i64>),
    /// Scale each axis by a factor.
    Scaling(Vec<i64>),
    /// Shear by a matrix.
    Shearing(Matrix<i64>),
    /// Project by a matrix.
    Projection(Matrix<i64>),
    /// Drop a dimension.
    DimensionalReduction,
    /// Add a dimension.
    DimensionalExpansion,
    /// Reshape the topology.
    TopologicalTransform,
}

/// The canonical bytes of an integer vector.
pub open spec fn vec_i64_bytes(v: Seq<i64>) -> Seq<u8>
    decreases v.len(),
{
    if v.len() == 0 {
        Seq::empty()
    } else {
        vec_i64_bytes(v.drop_last()) + i64_bytes(v.last())
    }
}

/// The canonical bytes of a matrix: each row's length and entries, in order.
pub open spec fn matrix_bytes(m: Seq<Vec<i64>>) -> Seq<u8>
    decreases m.len(),
{
    if m.len() == 0 {
        Seq::empty()
    } else {
        matrix_bytes(m.drop_last()) + spec_u64_to_le_bytes(m.last()@.len() as u64) + vec_i64_bytes(
            m.last()@,
        )
    }
}

/// The canonical bytes of a transform: a discriminant and its parameters.
pub open spec fn transform_encoding(t: &TransformType) -> Seq<u8> {
    match t {
        TransformType::Translation(v) => seq![0u8] + vec_i64_bytes(v@),
        TransformType::Rotation(m) => seq![1u8] + matrix_bytes(m.0@),
        TransformType::Scaling(v) => seq![2u8] + vec_i64_bytes(v@),
        TransformType::Shearing(m) => seq![3u8] + matrix_bytes(m.0@),
        TransformType::Projection(m) => seq![4u8] + matrix_bytes(m.0@),
        TransformType::DimensionalReduction => seq![5u8],
        TransformType::DimensionalExpansion => seq![6u8],
        TransformType::TopologicalTransform => seq![7u8],
    }
}

/// Append an integer vector's canonical bytes to a buffer.
fn push_vec_i64(out: &mut Vec<u8>, v: &Vec<i64>)
    ensures
        final(out)@ == old(out)@ + vec_i64_bytes(v@),
{
    let n = v.len();
    let mut i: usize = 0;
    proof {
        assert(vec_i64_bytes(v@.take(0)) =~= Seq::<u8>::empty());
        assert(out@ =~= out@ + vec_i64_bytes(v@.take(0)));
    }
    while i < n
        invariant
            n == v@.len(),
            i <= n,
            out@ == old(out)@ + vec_i64_bytes(v@.take(i as int)),
        decreases n - i,
    {
        push_i64(out, v[i]);
        proof {
            let t = v@.take(i + 1);
            assert(t.drop_last() =~= v@.take(i as int));
            assert(t.last() == v@[i as int]);
            assert(out@ =~= old(out)@ + vec_i64_bytes(v@.take(i + 1)));
        }
        i += 1;
    }
    proof {
        assert(v@.take(n as int) =~= v@);
    }
}

/// Append a matrix's canonical bytes to a buffer.
fn push_matrix(out: &mut Vec<u8>, m: &Matrix<i64>)
    ensures
        final(out)@ == old(out)@ + matrix_bytes(m.0@),
{
    let n = m.0.len();
    let mut i: usize = 0;
    proof {
        assert(matrix_bytes(m.0@.take(0)) =~= Seq::<u8>::empty());
        assert(out@ =~= out@ + matrix_bytes(m.0@.take(0)));
    }
    while i < n
        invariant
            n == m.0@.len(),
            i <= n,
            out@ == old(out)@ + matrix_bytes(m.0@.take(i as int)),
        decreases n - i,
    {
        push_u64(out, m.0[i].len() as u64);
        push_vec_i64(out, &m.0[i]);
        proof {
            let t = m.0@.take(i + 1);
            assert(t.drop_last() =~= m.0@.take(i as int));
            assert(t.last() == m.0@[i as int]);
            assert(out@ =~= old(out)@ + matrix_bytes(m.0@.take(i + 1)));
        }
        i += 1;
    }
    proof {
        assert(m.0@.take(n as int) =~= m.0@);
    }
}

/// Append a transform's canonical bytes to a buffer.
fn push_transform_encoding(out: &mut Vec<u8>, t: &TransformType)
    ensures
        final(out)@ == old(out)@ + transform_encoding(t),
{
    match t {
        TransformType::Translation(v) => {
            out.push(0u8);
            push_vec_i64(out, v);
        },
        TransformType::Rotation(m) => {
            out.push(1u8);
            push_matrix(out, m);
        },
        TransformType::Scaling(v) => {
            out.push(2u8);
            push_vec_i64(out, v);
        },
        TransformType::Shearing(m) => {
            out.push(3u8);
            push_matrix(out, m);
        },
        TransformType::Projection(m) => {
            out.push(4u8);
            push_matrix(out, m);
        },
        TransformType::DimensionalReduction => out.push(5u8),
        TransformType::DimensionalExpansion => out.push(6u8),
        TransformType::TopologicalTransform => out.push(7u8),
    }
    proof {
        assert(out@ =~= old(out)@ + transform_encoding(t));
    }
}

/// A transform together with named parameters.
#[derive(Clone, Debug)]
pub struct Transformation {
    pub transform_type: TransformType,
    pub parameters: Vec<(String, String)>,
}

/// The canonical chunk of one named parameter.
pub open spec fn parameter_chunk(p: (String, String)) -> Seq<u8> {
    encode_utf8(p.0@) + encode_utf8(p.1@)
}

/// The canonical bytes a transformed scheme's identity digests: the base
/// identity, the transform, and the parameter chunks in canonical
/// arrangement.
pub open spec fn transformed_id_input(
    base_id: Seq<u8>,
    transform: Seq<u8>,
    params: Seq<Seq<u8>>,
) -> Seq<u8> {
    base_id + transform + canonical_arrangement(params).flatten()
}

/// The identity of a transformed structure.
pub open spec fn spec_transformed_identity(
    base_id: Seq<u8>,
    transform: Seq<u8>,
    params: Seq<Seq<u8>>,
) -> Seq<u8> {
    digest_of(transformed_id_input(base_id, transform, params))
}

/// A base scheme wrapped by a transform. Reads delegate to the base; the
/// identity digests the base identity, the transform discriminant and
/// parameters, and the named parameters in canonical arrangement.
pub struct TransformedScheme {
    id: SchemeId,
    base: Box<Scheme>,
    transformation: Transformation,
}

impl TransformedScheme {
    /// The stored identity bytes.
    pub closed spec fn spec_id(&self) -> Seq<u8> {
        self.id@
    }

    /// The base scheme.
    pub closed spec fn spec_base(&self) -> Scheme {
        *self.base
    }

    /// The transform applied to the base.
    pub closed spec fn spec_transformation(&self) -> Transformation {
        self.transformation
    }

    /// Wrap a base scheme with a transform. The identity is the digest of
    /// the base identity, the transform, and the named parameters in
    /// canonical arrangement; parameter order does not affect it.
    pub fn new(base: Box<Scheme>, transformation: Transformation) -> (r: Self)
        ensures
            r.spec_base() == *base,
            r.spec_id() == spec_transformed_identity(
                base.spec_id(),
                transform_encoding(&transformation.transform_type),
                transformation.parameters@.map_values(|p: (String, String)| parameter_chunk(p)),
            ),
    {
        let mut input: Vec<u8> = vstd::slice::slice_to_vec(base.id().as_bytes().as_slice());
        push_transform_encoding(&mut input, &transformation.transform_type);
        let n = transformation.parameters.len();
        let mut chunks: Vec<Vec<u8>> = Vec::new();
        proof {
            assert(chunk_views(chunks@) =~= transformation.parameters@.take(0).map_values(
                |p: (String, String)| parameter_chunk(p),
            ));
        }
        let mut i: usize = 0;
        while i < n
            invariant
                n == transformation.parameters@.len(),
                i <= n,
                chunk_views(chunks@) == transformation.parameters@.take(i as int).map_values(
                    |p: (String, String)| parameter_chunk(p),
                ),
            decreases n - i,
        {
            let mut chunk: Vec<u8> = Vec::new();
            push_str_bytes(&mut chunk, transformation.parameters[i].0.as_str());
            push_str_bytes(&mut chunk, transformation.parameters[i].1.as_str());
            let ghost prev = chunks@;
            chunks.push(chunk);
            proof {
                prev.lemma_push_map_commute(|x: Vec<u8>| x@, chunks@.last());
                transformation.parameters@.take(i as int).lemma_push_map_commute(
                    |p: (String, String)| parameter_chunk(p),
                    transformation.parameters@[i as int],
                );
                assert(transformation.parameters@.take(i + 1) =~= transformation.parameters@.take(
                    i as int,
                ).push(transformation.parameters@[i as int]));
                assert(chunks@.last()@ =~= parameter_chunk(
                    transformation.parameters@[i as int],
                ));
                assert(chunk_views(chunks@) =~= transformation.parameters@.take(i + 1).map_values(
                    |p: (String, String)| parameter_chunk(p),
                ));
            }
            i += 1;
        }
        proof {
            assert(transformation.parameters@.take(n as int) =~= transformation.parameters@);
        }
        let mut sorted_params = canonical_bytes(chunks);
        input.append(&mut sorted_params);
        proof {
            assert(input@ =~= transformed_id_input(
                base.spec_id(),
                transform_encoding(&transformation.transform_type),
                transformation.parameters@.map_values(|p: (String, String)| parameter_chunk(p)),
            ));
        }
        let id = SchemeId::from_array(crate::identity::blake3_digest(&input));
        TransformedScheme { id, base, transformation }
    }

    /// The identity of this transformed scheme.
    pub fn id(&self) -> (r: &SchemeId)
        ensures
            r@ == self.spec_id(),
    {
        &self.id
    }

    /// The axes of the base.
    pub fn axes(&self) -> (r: &Vec<Axis>)
        ensures
            r@ == self.spec_base().spec_axes(),
    {
        self.base.axes()
    }

    /// The dimensionality of the base.
    pub fn dimensionality(&self) -> (r: usize)
        ensures
            r == self.spec_base().spec_axes().len(),
    {
        self.base.dimensionality()
    }

    /// Whether the base holds a segment with the given identity.
    pub fn contains_segment(&self, segment_id: &SegmentId) -> (r: bool)
        ensures
            r == segment_id_views(self.spec_base().spec_segments()).contains(segment_id@),
    {
        self.base.contains_segment(segment_id)
    }

    /// The base's segment with the given identity, if any.
    pub fn get_segment(&self, segment_id: &SegmentId) -> (r: Option<&Segment>)
        ensures
            r is Some <==> segment_id_views(self.spec_base().spec_segments()).contains(
                segment_id@,
            ),
            r is Some ==> (r->Some_0).spec_id() == segment_id@,
    {
        self.base.get_segment(segment_id)
    }

    /// Validate a coordinate against the base's structural constraints.
    pub fn validate_structure(&self, coords: &SpaceCoordinates) -> (r: Result<(), String>)
        ensures
            r is Ok <==> first_violation(self.spec_base().spec_constraints(), coords@) is None,
    {
        self.base.validate_structure(coords)
    }

    /// The base's address mapping.
    pub fn map_to_logical_address(&self, coords: &SpaceCoordinates) -> (r: Option<LogicalAddress>)
        ensures
            r is Some <==> crate::scheme::spec_map_to_memory(
                self.spec_base().spec_layout(),
                self.spec_base().spec_axes(),
                coords@,
            ) is Some,
            r is Some ==> (r->Some_0).space_id == 0 && (r->Some_0).offset as int
                == crate::scheme::spec_map_to_memory(
                self.spec_base().spec_layout(),
                self.spec_base().spec_axes(),
                coords@,
            )->Some_0 as int,
    {
        self.base.map_to_logical_address(coords)
    }

    /// Transform a coordinate as this scheme's transform prescribes:
    /// translation adds the vector, scaling multiplies by the factors, and
    /// the other transforms leave coordinates unchanged. `None` when the
    /// arithmetic leaves the component range.
    #[verifier::loop_isolation(false)]
    pub fn transform_coordinates(&self, coords: &SpaceCoordinates) -> (r: Option<
        SpaceCoordinates,
    >)
        ensures
            r is Some ==> (r->Some_0)@ == spec_transform_coords(
                &self.spec_transformation().transform_type,
                coords@,
            )->Some_0 && spec_transform_coords(
                &self.spec_transformation().transform_type,
                coords@,
            ) is Some,
            r is None ==> spec_transform_coords(
                &self.spec_transformation().transform_type,
                coords@,
            ) is None,
    {
        proof {
            assert(self.spec_transformation() == self.transformation);
        }
        match self.transformation.transform_type {
            TransformType::Translation(ref v) => {
                let n = coords.raw.len();
                let mut out: Vec<i64> = Vec::new();
                let mut i: usize = 0;
                proof {
                    assert(translated(v@, coords@.take(0)) == Some(out@)) by {
                        assert(translated(v@, coords@.take(0)) =~= Some(Seq::<i64>::empty()));
                        assert(out@ =~= Seq::<i64>::empty());
                    }
                }
                while i < n
                    invariant
                        n == coords@.len(),
                        i <= n,
                        translated(v@, coords@.take(i as int)) == Some(out@),
                    decreases n - i,
                {
                    let delta: i64 = if i < v.len() {
                        v[i]
                    } else {
                        0
                    };
                    proof {
                        assert(coords@.take(i + 1).drop_last() =~= coords@.take(i as int));
                        assert(coords@.take(i + 1).last() == coords@[i as int]);
                    }
                    match coords.raw[i].checked_add(delta) {
                        Some(sum) => {
                            out.push(sum);
                            proof {
                                assert(translated(v@, coords@.take(i + 1)) is Some);
                                assert(translated(v@, coords@.take(i + 1))->Some_0 =~= out@);
                            }
                        },
                        None => {
                            proof {
                                lemma_translated_prefix_none(v@, coords@, i + 1);
                                assert(spec_transform_coords(
                                    &self.spec_transformation().transform_type,
                                    coords@,
                                ) == translated(v@, coords@));
                            }
                            return None;
                        },
                    }
                    i += 1;
                }
                proof {
                    assert(coords@.take(n as int) =~= coords@);
                }
                Some(SpaceCoordinates::new(out))
            },
            TransformType::Scaling(ref v) => {
                let n = coords.raw.len();
                let mut out: Vec<i64> = Vec::new();
                let mut i: usize = 0;
                proof {
                    assert(scaled(v@, coords@.take(0)) == Some(out@)) by {
                        assert(scaled(v@, coords@.take(0)) =~= Some(Seq::<i64>::empty()));
                        assert(out@ =~= Seq::<i64>::empty());
                    }
                }
                while i < n
                    invariant
                        n == coords@.len(),
                        i <= n,
                        scaled(v@, coords@.take(i as int)) == Some(out@),
                    decreases n - i,
                {
                    let factor: i64 = if i < v.len() {
                        v[i]
                    } else {
                        1
                    };
                    proof {
                        assert(coords@.take(i + 1).drop_last() =~= coords@.take(i as int));
                        assert(coords@.take(i + 1).last() == coords@[i as int]);
                    }
                    match coords.raw[i].checked_mul(factor) {
                        Some(prod) => {
                            out.push(prod);
                            proof {
                                assert(scaled(v@, coords@.take(i + 1)) is Some);
                                assert(scaled(v@, coords@.take(i + 1))->Some_0 =~= out@);
                            }
                        },
                        None => {
                            proof {
                                lemma_scaled_prefix_none(v@, coords@, i + 1);
                                assert(spec_transform_coords(
                                    &self.spec_transformation().transform_type,
                                    coords@,
                                ) == scaled(v@, coords@));
                            }
                            return None;
                        },
                    }
                    i += 1;
                }
                proof {
                    assert(coords@.take(n as int) =~= coords@);
                }
                Some(SpaceCoordinates::new(out))
            },
            _ => Some(coords.duplicate()),
        }
    }

    /// A one-line account of the transformed scheme.
    pub fn describe(&self) -> (r: String)
        ensures
            r@ == "TransformedScheme over "@ + crate::identity::hex_of(self.spec_base().spec_id()),
    {
        let mut s = String::from_str("TransformedScheme over ");
        s.append(self.base.id().to_hex().as_str());
        s
    }
}

/// The coordinate a transform yields: translation adds the vector
/// componentwise (missing vector entries add zero), scaling multiplies
/// (missing factors are one), and other transforms leave the coordinate
/// unchanged. `None` when a component leaves the representable range.
pub open spec fn spec_transform_coords(t: &TransformType, c: Seq<i64>) -> Option<Seq<i64>> {
    match t {
        TransformType::Translation(v) => translated(v@, c),
        TransformType::Scaling(v) => scaled(v@, c),
        _ => Some(c),
    }
}

/// Componentwise translation, `None` on range overflow.
pub open spec fn translated(v: Seq<i64>, c: Seq<i64>) -> Option<Seq<i64>>
    decreases c.len(),
{
    if c.len() == 0 {
        Some(Seq::empty())
    } else {
        match translated(v, c.drop_last()) {
            None => None,
            Some(rest) => {
                let delta: i64 = if c.len() - 1 < v.len() {
                    v[c.len() - 1]
                } else {
                    0
                };
                if i64::MIN <= c.last() + delta <= i64::MAX {
                    Some(rest.push((c.last() + delta) as i64))
                } else {
                    None
                }
            },
        }
    }
}

/// Componentwise scaling, `None` on range overflow.
pub open spec fn scaled(v: Seq<i64>, c: Seq<i64>) -> Option<Seq<i64>>
    decreases c.len(),
{
    if c.len() == 0 {
        Some(Seq::empty())
    } else {
        match scaled(v, c.drop_last()) {
            None => None,
            Some(rest) => {
                let factor: i64 = if c.len() - 1 < v.len() {
                    v[c.len() - 1]
                } else {
                    1
                };
                if i64::MIN <= c.last() * factor <= i64::MAX {
                    Some(rest.push((c.last() * factor) as i64))
                } else {
                    None
                }
            },
        }
    }
}

proof fn lemma_translated_prefix_none(v: Seq<i64>, c: Seq<i64>, i: int)
    requires
        0 <= i <= c.len(),
        translated(v, c.take(i)) is None,
    ensures
        translated(v, c) is None,
    decreases c.len() - i,
{
    if i == c.len() {
        assert(c.take(i) =~= c);
    } else {
        assert(c.take(i + 1).drop_last() =~= c.take(i));
        lemma_translated_prefix_none(v, c, i + 1);
    }
}

proof fn lemma_scaled_prefix_none(v: Seq<i64>, c: Seq<i64>, i: int)
    requires
        0 <= i <= c.len(),
        scaled(v, c.take(i)) is None,
    ensures
        scaled(v, c) is None,
    decreases c.len() - i,
{
    if i == c.len() {
        assert(c.take(i) =~= c);
    } else {
        assert(c.take(i + 1).drop_last() =~= c.take(i));
        lemma_scaled_prefix_none(v, c, i + 1);
    }
}

/// One scheme value, under any of the three shapes: a basic blueprint, a
/// composition, or a transformed base. All three expose the same read
/// contract.
pub enum SchemeImpl {
    Basic(Scheme),
    Composite(CompositeScheme),
    Transformed(TransformedScheme),
}

impl SchemeImpl {
    /// The identity of the scheme, whatever its shape.
    pub open spec fn spec_impl_id(&self) -> Seq<u8> {
        match self {
            SchemeImpl::Basic(s) => s.spec_id(),
            SchemeImpl::Composite(s) => s.spec_id(),
            SchemeImpl::Transformed(s) => s.spec_id(),
        }
    }

    /// The identity, under any shape.
    pub fn id(&self) -> (r: &SchemeId)
        ensures
            r@ == self.spec_impl_id(),
    {
        match self {
            SchemeImpl::Basic(s) => s.id(),
            SchemeImpl::Composite(s) => s.id(),
            SchemeImpl::Transformed(s) => s.id(),
        }
    }

    /// The axes, under any shape.
    pub fn axes(&self) -> (r: &Vec<Axis>)
        ensures
            r@ == match self {
                SchemeImpl::Basic(s) => s.spec_axes(),
                SchemeImpl::Composite(_) => Seq::<Axis>::empty(),
                SchemeImpl::Transformed(s) => s.spec_base().spec_axes(),
            },
    {
        match self {
            SchemeImpl::Basic(s) => s.axes(),
            SchemeImpl::Composite(s) => s.axes(),
            SchemeImpl::Transformed(s) => s.axes(),
        }
    }

    /// The dimensionality, under any shape.
    pub fn dimensionality(&self) -> (r: usize)
        ensures
            r as nat == match self {
                SchemeImpl::Basic(s) => s.spec_axes().len(),
                SchemeImpl::Composite(s) => 0nat,
                SchemeImpl::Transformed(s) => s.spec_base().spec_axes().len(),
            },
    {
        match self {
            SchemeImpl::Basic(s) => s.dimensionality(),
            SchemeImpl::Composite(s) => s.dimensionality(),
            SchemeImpl::Transformed(s) => s.dimensionality(),
        }
    }

    /// Whether a segment with the given identity belongs to the scheme.
    pub fn contains_segment(&self, segment_id: &SegmentId) -> (r: bool)
        ensures
            r == match self {
                SchemeImpl::Basic(s) => segment_id_views(s.spec_segments()).contains(segment_id@),
                SchemeImpl::Composite(s) => exists|k: int|
                    0 <= k < s.spec_components().len() && segment_id_views(
                        (#[trigger] s.spec_components()[k]).spec_segments(),
                    ).contains(segment_id@),
                SchemeImpl::Transformed(s) => segment_id_views(
                    s.spec_base().spec_segments(),
                ).contains(segment_id@),
            },
    {
        match self {
            SchemeImpl::Basic(s) => s.contains_segment(segment_id),
            SchemeImpl::Composite(s) => s.contains_segment(segment_id),
            SchemeImpl::Transformed(s) => s.contains_segment(segment_id),
        }
    }

    /// The segment with the given identity, if the scheme holds one.
    pub fn get_segment(&self, segment_id: &SegmentId) -> (r: Option<&Segment>)
        ensures
            r is Some <==> self.trait_contains(segment_id@),
            r is Some ==> (r->Some_0).spec_id() == segment_id@,
    {
        match self {
            SchemeImpl::Basic(s) => s.get_segment(segment_id),
            SchemeImpl::Composite(s) => s.get_segment(segment_id),
            SchemeImpl::Transformed(s) => s.get_segment(segment_id),
        }
    }

    /// Check a coordinate against the structural constraints.
    pub fn validate_structure(&self, coords: &SpaceCoordinates) -> (r: Result<(), String>)
        ensures
            r is Ok <==> match self {
                SchemeImpl::Basic(s) => first_violation(s.spec_constraints(), coords@) is None,
                SchemeImpl::Composite(s) => composite_first_violation(
                    s.spec_components(),
                    coords@,
                ) is None,
                SchemeImpl::Transformed(s) => first_violation(
                    s.spec_base().spec_constraints(),
                    coords@,
                ) is None,
            },
    {
        match self {
            SchemeImpl::Basic(s) => s.validate_structure(coords),
            SchemeImpl::Composite(s) => s.validate_structure(coords),
            SchemeImpl::Transformed(s) => s.validate_structure(coords),
        }
    }

    /// The logical address of a coordinate, where the shape defines one.
    pub fn map_to_logical_address(&self, coords: &SpaceCoordinates) -> (r: Option<LogicalAddress>)
        ensures
            self is Composite ==> r is None,
    {
        match self {
            SchemeImpl::Basic(s) => s.map_to_logical_address(coords),
            SchemeImpl::Composite(s) => s.map_to_logical_address(coords),
            SchemeImpl::Transformed(s) => s.map_to_logical_address(coords),
        }
    }

    /// A one-line account of the scheme.
    pub fn describe(&self) -> (r: String) {
        match self {
            SchemeImpl::Basic(s) => s.describe(),
            SchemeImpl::Composite(s) => s.describe(),
            SchemeImpl::Transformed(s) => s.describe(),
        }
    }
}

/// The shared read contract of every scheme shape: a content identity, a
/// dimensionality, and point lookup by identity. Basic, composite and
/// transformed schemes all expose it.
pub trait SchemeTrait {
    /// The identity bytes of the scheme.
    spec fn trait_id(&self) -> Seq<u8>;

    /// The number of axes the scheme exposes.
    spec fn trait_dimensionality(&self) -> nat;

    /// Whether the scheme holds a segment with the given identity bytes.
    spec fn trait_contains(&self, id: Seq<u8>) -> bool;

    /// A human-readable account of the scheme.
    spec fn trait_description(&self) -> Seq<char>;

    /// The identity of the scheme.
    fn id(&self) -> (r: &SchemeId)
        ensures
            r@ == self.trait_id(),
    ;

    /// The number of axes the scheme exposes.
    fn dimensionality(&self) -> (r: usize)
        ensures
            r as nat == self.trait_dimensionality(),
    ;

    /// Whether the scheme holds a segment with the given identity.
    fn contains_segment(&self, segment_id: &SegmentId) -> (r: bool)
        ensures
            r == self.trait_contains(segment_id@),
    ;

    /// Describe the scheme.
    fn describe(&self) -> (r: String)
        ensures
            r@ == self.trait_description(),
    ;
}

impl SchemeTrait for Scheme {
    open spec fn trait_id(&self) -> Seq<u8> {
        self.spec_id()
    }

    open spec fn trait_dimensionality(&self) -> nat {
        self.spec_axes().len()
    }

    open spec fn trait_contains(&self, id: Seq<u8>) -> bool {
        segment_id_views(self.spec_segments()).contains(id)
    }

    open spec fn trait_description(&self) -> Seq<char> {
        "Scheme "@ + crate::identity::hex_of(self.spec_id()) + " with "@ + dec_digits(
            self.spec_axes().len(),
        ) + " dimensions, "@ + dec_digits(self.spec_segments().len()) + " segments, "@
            + dec_digits(self.spec_relations().len()) + " relations"@
    }

    fn id(&self) -> (r: &SchemeId) {
        self.id()
    }

    fn dimensionality(&self) -> (r: usize) {
        self.dimensionality()
    }

    fn contains_segment(&self, segment_id: &SegmentId) -> (r: bool) {
        self.contains_segment(segment_id)
    }

    fn describe(&self) -> (r: String) {
        self.describe()
    }
}

impl SchemeTrait for CompositeScheme {
    open spec fn trait_id(&self) -> Seq<u8> {
        self.spec_id()
    }

    open spec fn trait_dimensionality(&self) -> nat {
        0
    }

    open spec fn trait_contains(&self, id: Seq<u8>) -> bool {
        exists|k: int|
            0 <= k < self.spec_components().len() && segment_id_views(
                (#[trigger] self.spec_components()[k]).spec_segments(),
            ).contains(id)
    }

    open spec fn trait_description(&self) -> Seq<char> {
        "CompositeScheme with "@ + dec_digits(self.spec_components().len()) + " components"@
    }

    fn id(&self) -> (r: &SchemeId) {
        self.id()
    }

    fn dimensionality(&self) -> (r: usize) {
        self.dimensionality()
    }

    fn contains_segment(&self, segment_id: &SegmentId) -> (r: bool) {
        self.contains_segment(segment_id)
    }

    fn describe(&self) -> (r: String) {
        self.describe()
    }
}

impl SchemeTrait for TransformedScheme {
    open spec fn trait_id(&self) -> Seq<u8> {
        self.spec_id()
    }

    open spec fn trait_dimensionality(&self) -> nat {
        self.spec_base().spec_axes().len()
    }

    open spec fn trait_contains(&self, id: Seq<u8>) -> bool {
        segment_id_views(self.spec_base().spec_segments()).contains(id)
    }

    open spec fn trait_description(&self) -> Seq<char> {
        "TransformedScheme over "@ + crate::identity::hex_of(self.spec_base().spec_id())
    }

    fn id(&self) -> (r: &SchemeId) {
        self.id()
    }

    fn dimensionality(&self) -> (r: usize) {
        self.dimensionality()
    }

    fn contains_segment(&self, segment_id: &SegmentId) -> (r: bool) {
        self.contains_segment(segment_id)
    }

    fn describe(&self) -> (r: String) {
        self.describe()
    }
}

impl SchemeTrait for SchemeImpl {
    open spec fn trait_id(&self) -> Seq<u8> {
        self.spec_impl_id()
    }

    open spec fn trait_dimensionality(&self) -> nat {
        match self {
            SchemeImpl::Basic(s) => s.trait_dimensionality(),
            SchemeImpl::Composite(s) => s.trait_dimensionality(),
            SchemeImpl::Transformed(s) => s.trait_dimensionality(),
        }
    }

    open spec fn trait_contains(&self, id: Seq<u8>) -> bool {
        match self {
            SchemeImpl::Basic(s) => s.trait_contains(id),
            SchemeImpl::Composite(s) => s.trait_contains(id),
            SchemeImpl::Transformed(s) => s.trait_contains(id),
        }
    }

    open spec fn trait_description(&self) -> Seq<char> {
        match self {
            SchemeImpl::Basic(s) => s.trait_description(),
            SchemeImpl::Composite(s) => s.trait_description(),
            SchemeImpl::Transformed(s) => s.trait_description(),
        }
    }

    fn id(&self) -> (r: &SchemeId) {
        self.id()
    }

    fn dimensionality(&self) -> (r: usize) {
        self.dimensionality()
    }

    fn contains_segment(&self, segment_id: &SegmentId) -> (r: bool) {
        self.contains_segment(segment_id)
    }

    fn describe(&self) -> (r: String) {
        match self {
            SchemeImpl::Basic(s) => s.describe(),
            SchemeImpl::Composite(s) => s.describe(),
            SchemeImpl::Transformed(s) => s.describe(),
        }
    }
}

} // verus!
