//! The Scheme: an immutable, content-addressed structural blueprint. Axes,
//! points, a relation graph, structural constraints, a memory layout and
//! observation rules are composed once through a builder and frozen; the
//! identity is a digest of the canonical encoding of the structure, so that
//! identical structures built in different orders agree on it.

use vstd::prelude::*;
use vstd::utf8::encode_utf8;
use crate::canonical::{canonical_arrangement, canonical_bytes, chunk_views, lemma_canonical_arrangement_of_multiset};
use crate::constraint::{Constraint, ConstraintKind, set_allows};
use crate::coords::SpaceCoordinates;
use crate::identity::{digest_of, hex_of, hex_encode_bytes, Segment, SegmentId};
use crate::layout::{compute_linear_address, hilbert_encode, hilbert_spec, linear_address, z_order_encode, z_order_spec, bit_len, max_magnitude, compute_bit_len, compute_max_magnitude, LogicalAddress, MemoryLayout};
use crate::relation::{edge_chunk, push_str_bytes, push_i64, relation_encoding, EdgeView, RelationGraph, StructuralRelation};
use crate::text::{dec_digits, usize_to_string};

verus! {

/// Cryptographic identifier of a Scheme.
#[derive(Clone, Copy, Debug)]
pub struct SchemeId([u8; 32]);

impl View for SchemeId {
    type V = Seq<u8>;

    closed spec fn view(&self) -> Seq<u8> {
        self.0@
    }
}

impl PartialEq for SchemeId {
    fn eq(&self, other: &Self) -> (r: bool) {
        let mut i: usize = 0;
        while i < 32
            invariant
                i <= 32,
                self@.len() == 32,
                other@.len() == 32,
                forall|j: int| 0 <= j < i ==> self@[j] == other@[j],
            decreases 32 - i,
        {
            if self.0[i] != other.0[i] {
                proof {
                    assert(self@[i as int] != other@[i as int]);
                }
                return false;
            }
            i += 1;
        }
        proof {
            assert(self@ =~= other@);
        }
        true
    }
}

impl vstd::std_specs::cmp::PartialEqSpecImpl for SchemeId {
    open spec fn obeys_eq_spec() -> bool {
        true
    }

    open spec fn eq_spec(&self, other: &SchemeId) -> bool {
        self@ == other@
    }
}

impl SchemeId {
    pub(crate) fn from_array(bytes: [u8; 32]) -> (r: Self)
        ensures
            r@ == bytes@,
    {
        SchemeId(bytes)
    }

    /// The raw digest bytes.
    pub fn as_bytes(&self) -> (r: &[u8; 32])
        ensures
            r@ == self@,
    {
        &self.0
    }

    /// The digest as a lowercase hexadecimal string.
    pub fn to_hex(&self) -> (r: String)
        ensures
            r@ == hex_of(self@),
    {
        hex_encode_bytes(self.0.as_slice())
    }
}

/// The kind of an axis: purely descriptive metadata. Enforcement happens
/// through constraints, never through the kind.
#[derive(Clone, Debug)]
pub enum AxisType {
    /// Integer positions.
    Discrete,
    /// Positions on a continuum.
    Continuous,
    /// Periodic positions, with an optional period.
    Cyclic(Option<i64>),
    /// Unordered categories.
    Categorical,
    /// Defined in relation to another axis, by name.
    Relational(String),
    /// Measured in a named unit.
    WithUnit(String),
}

/// The canonical bytes of an axis kind: a discriminant and its parameters.
pub open spec fn axis_type_encoding(t: &AxisType) -> Seq<u8> {
    match t {
        AxisType::Discrete => seq![0u8],
        AxisType::Continuous => seq![1u8],
        AxisType::Cyclic(p) => match p {
            None => seq![2u8, 0u8],
            Some(v) => seq![2u8, 1u8] + crate::relation::i64_bytes(*v),
        },
        AxisType::Categorical => seq![3u8],
        AxisType::Relational(name) => seq![4u8] + encode_utf8(name@),
        AxisType::WithUnit(unit) => seq![5u8] + encode_utf8(unit@),
    }
}

/// A coarse classification of axis kinds.
#[derive(Clone, Debug)]
pub enum DimensionType {
    Continuous,
    Discrete,
    Cyclic(Option<i64>),
    Categorical(Vec<String>),
}

impl DimensionType {
    /// The discriminant of the classification.
    pub open spec fn spec_as_u8(&self) -> u8 {
        match self {
            DimensionType::Continuous => 0u8,
            DimensionType::Discrete => 1u8,
            DimensionType::Cyclic(_) => 2u8,
            DimensionType::Categorical(_) => 3u8,
        }
    }

    /// The discriminant of the classification.
    pub fn as_u8(&self) -> (r: u8)
        ensures
            r == self.spec_as_u8(),
    {
        match self {
            DimensionType::Continuous => 0u8,
            DimensionType::Discrete => 1u8,
            DimensionType::Cyclic(_) => 2u8,
            DimensionType::Categorical(_) => 3u8,
        }
    }
}

/// An axis of the coordinate space: a name, a kind, and optional bounds.
/// Axes are ordered; their declaration order is part of the identity.
#[derive(Clone, Debug)]
pub struct Axis {
    pub name: String,
    pub axis_type: AxisType,
    pub range: Option<(i64, i64)>,
}

/// The canonical bytes of one axis: its name and its kind discriminant.
pub open spec fn axis_encoding(a: &Axis) -> Seq<u8> {
    encode_utf8(a.name@) + axis_type_encoding(&a.axis_type)
}

/// The canonical bytes of an axis list, in declaration order.
pub open spec fn axis_seq_encoding(axes: Seq<Axis>) -> Seq<u8>
    decreases axes.len(),
{
    if axes.len() == 0 {
        Seq::empty()
    } else {
        axis_seq_encoding(axes.drop_last()) + axis_encoding(&axes.last())
    }
}

/// Append one axis's canonical bytes to a buffer.
fn push_axis_encoding(out: &mut Vec<u8>, a: &Axis)
    ensures
        final(out)@ == old(out)@ + axis_encoding(a),
{
    push_str_bytes(out, a.name.as_str());
    match &a.axis_type {
        AxisType::Discrete => out.push(0u8),
        AxisType::Continuous => out.push(1u8),
        AxisType::Cyclic(p) => {
            out.push(2u8);
            match p {
                None => out.push(0u8),
                Some(v) => {
                    out.push(1u8);
                    push_i64(out, *v);
                },
            }
        },
        AxisType::Categorical => out.push(3u8),
        AxisType::Relational(name) => {
            out.push(4u8);
            push_str_bytes(out, name.as_str());
        },
        AxisType::WithUnit(unit) => {
            out.push(5u8);
            push_str_bytes(out, unit.as_str());
        },
    }
    proof {
        assert(out@ =~= old(out)@ + axis_encoding(a));
    }
}

/// How several admissible configurations are resolved at observation.
#[derive(Clone, Debug)]
pub enum ResolutionStrategy {
    /// A fixed, named deterministic method.
    Deterministic(String),
    /// Weighted random selection.
    WeightedRandom,
    /// The first admissible configuration.
    FirstValid,
    /// The configuration of least energy.
    MinimizeEnergy,
    /// The configuration of greatest entropy.
    MaximizeEntropy,
}

/// When observation happens.
#[derive(Clone, Debug)]
pub enum ObservationTrigger {
    /// When explicitly called.
    OnDemand,
    /// Every so many time units.
    Periodic(u64),
    /// When constraint satisfaction crosses a threshold.
    Threshold(i64),
    /// When the structure changes.
    StructuralChange,
    /// On a named external signal.
    ExternalEvent(String),
}

/// How urgent observation is.
#[derive(Clone, Copy, Debug, PartialEq, Eq, Structural)]
pub enum ObservationPriority {
    Critical,
    High,
    Normal,
    Low,
    Background,
}

/// Who may observe, and under what conditions.
#[derive(Clone, Debug)]
pub struct ObservationContext {
    /// The observers admitted; `None` admits all.
    pub allowed_observers: Option<Vec<String>>,
    /// Named conditions on observation.
    pub constraints: Vec<String>,
    /// Free-form notes.
    pub metadata: Vec<(String, String)>,
}

impl Default for ObservationContext {
    /// The default context admits every observer and carries nothing.
    fn default() -> (r: Self)
        ensures
            r.allowed_observers is None,
            r.constraints@ == Seq::<String>::empty(),
            r.metadata@ == Seq::<(String, String)>::empty(),
    {
        ObservationContext { allowed_observers: None, constraints: Vec::new(), metadata: Vec::new() }
    }
}

/// What a projection yields.
#[derive(Clone, Debug)]
pub enum ProjectionFormat {
    /// The coordinates themselves.
    Coordinates,
    /// Segment identities.
    SegmentIds,
    /// A named structured-data format.
    StructuredData(String),
}

/// The observation policy of a scheme.
#[derive(Clone, Debug)]
pub struct ObservationRules {
    pub resolution_strategy: ResolutionStrategy,
    pub triggers: Vec<ObservationTrigger>,
    pub priority: ObservationPriority,
    pub context: ObservationContext,
    pub projection_format: ProjectionFormat,
}

impl Default for ObservationRules {
    /// The default policy: first admissible configuration, observed on
    /// demand at normal priority, projected as coordinates.
    fn default() -> (r: Self)
        ensures
            r.resolution_strategy is FirstValid,
            r.triggers@.len() == 1 && r.triggers@[0] is OnDemand,
            r.priority == ObservationPriority::Normal,
            r.projection_format is Coordinates,
    {
        let mut triggers: Vec<ObservationTrigger> = Vec::new();
        triggers.push(ObservationTrigger::OnDemand);
        ObservationRules {
            resolution_strategy: ResolutionStrategy::FirstValid,
            triggers,
            priority: ObservationPriority::Normal,
            context: ObservationContext::default(),
            projection_format: ProjectionFormat::Coordinates,
        }
    }
}

/// The family a structural constraint belongs to.
#[derive(Clone, Copy, Debug, PartialEq, Eq, Structural)]
pub enum ConstraintType {
    Dimensional,
    Topological,
    Algebraic,
    Logical,
    Physical,
}

/// Where a structural constraint applies.
#[derive(Clone, Debug)]
pub enum ConstraintScope {
    /// The whole scheme.
    Global,
    /// Around one segment.
    Local(SegmentId),
    /// Around several segments.
    Regional(Vec<SegmentId>),
    /// One axis.
    Dimensional(usize),
    /// Along one kind of relation.
    Relational(StructuralRelation),
}

/// An immutable, scheme-level constraint: the predicate, its family, and
/// its scope.
#[derive(Clone, Debug)]
pub struct StructuralConstraint {
    pub constraint: ConstraintKind,
    pub constraint_type: ConstraintType,
    pub scope: ConstraintScope,
}

impl StructuralConstraint {
    /// A global constraint of the given family.
    pub fn new(constraint: ConstraintKind, constraint_type: ConstraintType) -> (r: Self)
        ensures
            r.constraint == constraint,
            r.constraint_type == constraint_type,
            r.scope is Global,
    {
        Self { constraint, constraint_type, scope: ConstraintScope::Global }
    }
}

/// The predicates of a constraint list.
pub open spec fn constraint_kinds(cs: Seq<StructuralConstraint>) -> Seq<ConstraintKind> {
    cs.map_values(|c: StructuralConstraint| c.constraint)
}

/// The description of the first constraint in the list that rejects the
/// coordinate, if any.
pub open spec fn first_violation(cs: Seq<StructuralConstraint>, coords: Seq<i64>) -> Option<
    Seq<char>,
>
    decreases cs.len(),
{
    if cs.len() == 0 {
        None
    } else if !cs[0].constraint.spec_allows(coords) {
        Some(cs[0].constraint.spec_description())
    } else {
        first_violation(cs.drop_first(), coords)
    }
}

/// The canonical bytes a scheme's identity digests: the axes in declaration
/// order, then the member identities in canonical arrangement, then the
/// relation chunks in canonical arrangement.
pub open spec fn scheme_id_input(axes: Seq<Axis>, ids: Seq<Seq<u8>>, rels: Seq<Seq<u8>>) -> Seq<
    u8,
> {
    axis_seq_encoding(axes) + canonical_arrangement(ids).flatten() + canonical_arrangement(
        rels,
    ).flatten()
}

/// The identity of a scheme structure: the digest of its canonical bytes.
pub open spec fn spec_scheme_identity(
    axes: Seq<Axis>,
    ids: Seq<Seq<u8>>,
    rels: Seq<Seq<u8>>,
) -> Seq<u8> {
    digest_of(scheme_id_input(axes, ids, rels))
}

/// Determinism of identity under construction order: two structures with
/// the same axes (in order), the same member identities and the same
/// relations - each in any order - receive the same identity.
pub proof fn lemma_identity_order_independent(
    axes1: Seq<Axis>,
    ids1: Seq<Seq<u8>>,
    rels1: Seq<Seq<u8>>,
    axes2: Seq<Axis>,
    ids2: Seq<Seq<u8>>,
    rels2: Seq<Seq<u8>>,
)
    requires
        axis_seq_encoding(axes1) == axis_seq_encoding(axes2),
        ids1.to_multiset() == ids2.to_multiset(),
        rels1.to_multiset() == rels2.to_multiset(),
    ensures
        spec_scheme_identity(axes1, ids1, rels1) == spec_scheme_identity(axes2, ids2, rels2),
{
    lemma_canonical_arrangement_of_multiset(ids1, ids2);
    lemma_canonical_arrangement_of_multiset(rels1, rels2);
}

/// The identities of a segment list.
pub open spec fn segment_id_views(segments: Seq<Segment>) -> Seq<Seq<u8>> {
    segments.map_values(|s: Segment| s.spec_id())
}

/// Whether a segment list holds the given identity.
fn contains_segment_id(segments: &Vec<Segment>, id: &SegmentId) -> (r: bool)
    ensures
        r == segment_id_views(segments@).contains(id@),
{
    let n = segments.len();
    let mut i: usize = 0;
    while i < n
        invariant
            n == segments@.len(),
            i <= n,
            forall|j: int| 0 <= j < i ==> (#[trigger] segments@[j]).spec_id() != id@,
        decreases n - i,
    {
        if segments[i].id() == id {
            proof {
                assert(segment_id_views(segments@)[i as int] == id@);
            }
            return true;
        }
        i += 1;
    }
    proof {
        let m = segment_id_views(segments@);
        assert forall|j: int| 0 <= j < m.len() implies #[trigger] m[j] != id@ by {
            assert(m[j] == segments@[j].spec_id());
        }
    }
    false
}

/// Builder for a Scheme: append-only, with the identity computed once at
/// `build`.
pub struct SchemeBuilder {
    axes: Vec<Axis>,
    segments: Vec<Segment>,
    relations: RelationGraph,
    structural_constraints: Vec<StructuralConstraint>,
    memory_layout: MemoryLayout,
    observation_rules: ObservationRules,
    metadata: Vec<(String, String)>,
}

impl SchemeBuilder {
    /// The axes added so far, in order.
    pub closed spec fn spec_axes(&self) -> Seq<Axis> {
        self.axes@
    }

    /// The segments added so far, in order of first addition.
    pub closed spec fn spec_segments(&self) -> Seq<Segment> {
        self.segments@
    }

    /// The relations added so far, in order.
    pub closed spec fn spec_relations(&self) -> Seq<EdgeView> {
        self.relations@
    }

    /// The structural constraints added so far, in order.
    pub closed spec fn spec_constraints(&self) -> Seq<StructuralConstraint> {
        self.structural_constraints@
    }

    /// The configured layout.
    pub closed spec fn spec_layout(&self) -> MemoryLayout {
        self.memory_layout
    }

    /// The metadata added so far.
    pub closed spec fn spec_metadata(&self) -> Seq<(String, String)> {
        self.metadata@
    }

    /// An empty builder: no axes, no segments, no relations, no
    /// constraints, linear layout, default observation policy.
    pub fn new() -> (r: Self)
        ensures
            r.spec_axes() == Seq::<Axis>::empty(),
            r.spec_segments() == Seq::<Segment>::empty(),
            r.spec_relations() == Seq::<EdgeView>::empty(),
            r.spec_constraints() == Seq::<StructuralConstraint>::empty(),
            r.spec_layout() == MemoryLayout::Linear,
            r.spec_metadata() == Seq::<(String, String)>::empty(),
    {
        SchemeBuilder {
            axes: Vec::new(),
            segments: Vec::new(),
            relations: RelationGraph::new(),
            structural_constraints: Vec::new(),
            memory_layout: MemoryLayout::Linear,
            observation_rules: ObservationRules::default(),
            metadata: Vec::new(),
        }
    }

    /// Append one axis. Declaration order matters: it is part of the
    /// identity.
    pub fn add_axis(self, axis: Axis) -> (r: Self)
        ensures
            r.spec_axes() == self.spec_axes().push(axis),
            r.spec_segments() == self.spec_segments(),
            r.spec_relations() == self.spec_relations(),
            r.spec_constraints() == self.spec_constraints(),
            r.spec_layout() == self.spec_layout(),
    {
        let mut b = self;
        b.axes.push(axis);
        b
    }

    /// Add one segment. A segment whose identity is already present is not
    /// added again.
    pub fn add_segment(self, segment: Segment) -> (r: Self)
        ensures
            r.spec_segments() == if segment_id_views(self.spec_segments()).contains(
                segment.spec_id(),
            ) {
                self.spec_segments()
            } else {
                self.spec_segments().push(segment)
            },
            r.spec_axes() == self.spec_axes(),
            r.spec_relations() == self.spec_relations(),
            r.spec_constraints() == self.spec_constraints(),
            r.spec_layout() == self.spec_layout(),
    {
        let mut b = self;
        if !contains_segment_id(&b.segments, segment.id()) {
            b.segments.push(segment);
        }
        b
    }

    /// Add several segments, in order, each as [`Self::add_segment`] does.
    pub fn add_segments(self, segments: Vec<Segment>) -> (r: Self)
        ensures
            r.spec_axes() == self.spec_axes(),
            r.spec_relations() == self.spec_relations(),
            r.spec_constraints() == self.spec_constraints(),
            r.spec_layout() == self.spec_layout(),
            forall|j: int|
                0 <= j < segments@.len() ==> segment_id_views(r.spec_segments()).contains(
                    (#[trigger] segments@[j]).spec_id(),
                ),
            forall|j: int|
                0 <= j < r.spec_segments().len() ==> segment_id_views(
                    self.spec_segments(),
                ).contains((#[trigger] r.spec_segments()[j]).spec_id()) || segment_id_views(
                    segments@,
                ).contains(r.spec_segments()[j].spec_id()),
    {
        let mut b = self;
        let mut rest = segments;
        let ghost incoming = segments@;
        let n = rest.len();
        let mut i: usize = 0;
        proof {
            assert forall|j: int| 0 <= j < b.spec_segments().len() implies segment_id_views(
                self.spec_segments(),
            ).contains((#[trigger] b.spec_segments()[j]).spec_id()) by {
                assert(segment_id_views(self.spec_segments())[j]
                    == b.spec_segments()[j].spec_id());
            }
        }
        while i < n
            invariant
                n == incoming.len(),
                rest@ == incoming.skip(i as int),
                i <= n,
                b.spec_axes() == self.spec_axes(),
                b.spec_relations() == self.spec_relations(),
                b.spec_constraints() == self.spec_constraints(),
                b.spec_layout() == self.spec_layout(),
                forall|j: int|
                    0 <= j < i ==> segment_id_views(b.spec_segments()).contains(
                        (#[trigger] incoming[j]).spec_id(),
                    ),
                forall|j: int|
                    0 <= j < b.spec_segments().len() ==> segment_id_views(
                        self.spec_segments(),
                    ).contains((#[trigger] b.spec_segments()[j]).spec_id()) || segment_id_views(
                        incoming,
                    ).contains(b.spec_segments()[j].spec_id()),
            decreases n - i,
        {
            proof {
                assert(rest@.len() == n - i);
                assert(rest@[0] == incoming[i as int]);
                assert(incoming.skip(i as int).drop_first() =~= incoming.skip(i + 1));
                assert(rest@.remove(0) =~= rest@.drop_first());
            }
            let seg = rest.remove(0);
            let ghost before = b.spec_segments();
            b = b.add_segment(seg);
            proof {
                let ghost segs = b.spec_segments();
                assert forall|j: int| 0 <= j < i + 1 implies segment_id_views(segs).contains(
                    (#[trigger] incoming[j]).spec_id(),
                ) by {
                    if j == i {
                        if segment_id_views(before).contains(incoming[j].spec_id()) {
                            let w = choose|w: int|
                                0 <= w < segment_id_views(before).len()
                                    && #[trigger] segment_id_views(before)[w] == incoming[
                                j].spec_id();
                            assert(segment_id_views(segs)[w] == segs[w].spec_id());
                            assert(segs[w] == before[w]);
                            assert(segment_id_views(before)[w] == before[w].spec_id());
                        } else {
                            assert(segs.last() == incoming[j]);
                            assert(segment_id_views(segs)[segs.len() - 1]
                                == segs[segs.len() - 1].spec_id());
                        }
                    } else {
                        assert(segment_id_views(before).contains(incoming[j].spec_id()));
                        let w = choose|w: int|
                            0 <= w < segment_id_views(before).len()
                                && #[trigger] segment_id_views(before)[w] == incoming[j].spec_id();
                        assert(segs[w] == before[w]);
                        assert(segment_id_views(segs)[w] == segs[w].spec_id());
                        assert(segment_id_views(before)[w] == before[w].spec_id());
                    }
                }
                assert forall|j: int| 0 <= j < segs.len() implies segment_id_views(
                    self.spec_segments(),
                ).contains((#[trigger] segs[j]).spec_id()) || segment_id_views(incoming).contains(
                    segs[j].spec_id(),
                ) by {
                    if j < before.len() {
                        assert(segs[j] == before[j]);
                        assert(segment_id_views(self.spec_segments()).contains(before[j].spec_id())
                            || segment_id_views(incoming).contains(before[j].spec_id()));
                    } else {
                        assert(segs[j] == incoming[i as int]);
                        assert(segment_id_views(incoming)[i as int] == incoming[
                            i as int].spec_id());
                    }
                }
            }
            i += 1;
        }
        b
    }

    /// Add one directed relation between segment identities.
    pub fn add_relation(self, from: SegmentId, to: SegmentId, relation: StructuralRelation) -> (r:
        Self)
        ensures
            r.spec_relations() == self.spec_relations().push(
                (from@, to@, relation_encoding(&relation)),
            ),
            r.spec_axes() == self.spec_axes(),
            r.spec_segments() == self.spec_segments(),
            r.spec_constraints() == self.spec_constraints(),
            r.spec_layout() == self.spec_layout(),
    {
        let mut b = self;
        b.relations.add_relation(from, to, relation);
        b
    }

    /// Add one structural constraint.
    pub fn add_structural_constraint(self, constraint: StructuralConstraint) -> (r: Self)
        ensures
            r.spec_constraints() == self.spec_constraints().push(constraint),
            r.spec_axes() == self.spec_axes(),
            r.spec_segments() == self.spec_segments(),
            r.spec_relations() == self.spec_relations(),
            r.spec_layout() == self.spec_layout(),
    {
        let mut b = self;
        b.structural_constraints.push(constraint);
        b
    }

    /// Choose the memory layout.
    pub fn set_memory_layout(self, layout: MemoryLayout) -> (r: Self)
        ensures
            r.spec_layout() == layout,
            r.spec_axes() == self.spec_axes(),
            r.spec_segments() == self.spec_segments(),
            r.spec_relations() == self.spec_relations(),
            r.spec_constraints() == self.spec_constraints(),
    {
        let mut b = self;
        b.memory_layout = layout;
        b
    }

    /// Choose the observation policy.
    pub fn set_observation_rules(self, rules: ObservationRules) -> (r: Self)
        ensures
            r.spec_axes() == self.spec_axes(),
            r.spec_segments() == self.spec_segments(),
            r.spec_relations() == self.spec_relations(),
            r.spec_constraints() == self.spec_constraints(),
            r.spec_layout() == self.spec_layout(),
    {
        let mut b = self;
        b.observation_rules = rules;
        b
    }

    /// Attach one metadata entry. Metadata never enters the identity.
    pub fn add_metadata(self, key: String, value: String) -> (r: Self)
        ensures
            r.spec_metadata() == self.spec_metadata().push((key, value)),
            r.spec_axes() == self.spec_axes(),
            r.spec_segments() == self.spec_segments(),
            r.spec_relations() == self.spec_relations(),
            r.spec_constraints() == self.spec_constraints(),
            r.spec_layout() == self.spec_layout(),
    {
        let mut b = self;
        b.metadata.push((key, value));
        b
    }

    /// Freeze the structure: compute the identity and produce the Scheme.
    pub fn build(self) -> (r: Scheme)
        ensures
            r.spec_axes() == self.spec_axes(),
            r.spec_segments() == self.spec_segments(),
            r.spec_relations() == self.spec_relations(),
            r.spec_constraints() == self.spec_constraints(),
            r.spec_layout() == self.spec_layout(),
            r.spec_id() == spec_scheme_identity(
                self.spec_axes(),
                segment_id_views(self.spec_segments()),
                self.spec_relations().map_values(|e: EdgeView| edge_chunk(e)),
            ),
    {
        Scheme::new(self)
    }
}

/// The immutable structural blueprint. Once built, nothing changes; the
/// identity is a pure function of the structure.
pub struct Scheme {
    id: SchemeId,
    axes: Vec<Axis>,
    segments: Vec<Segment>,
    relations: RelationGraph,
    structural_constraints: Vec<StructuralConstraint>,
    memory_layout: MemoryLayout,
    observation_rules: ObservationRules,
    metadata: Vec<(String, String)>,
}

impl Scheme {
    /// The stored identity bytes.
    pub closed spec fn spec_id(&self) -> Seq<u8> {
        self.id@
    }

    /// The axes, in declaration order.
    pub closed spec fn spec_axes(&self) -> Seq<Axis> {
        self.axes@
    }

    /// The segments, in order of first addition.
    pub closed spec fn spec_segments(&self) -> Seq<Segment> {
        self.segments@
    }

    /// The relations, in declaration order.
    pub closed spec fn spec_relations(&self) -> Seq<EdgeView> {
        self.relations@
    }

    /// The structural constraints, in declaration order.
    pub closed spec fn spec_constraints(&self) -> Seq<StructuralConstraint> {
        self.structural_constraints@
    }

    /// The configured layout.
    pub closed spec fn spec_layout(&self) -> MemoryLayout {
        self.memory_layout
    }

    /// A scheme is well formed when its stored identity is the digest of
    /// its canonical encoding.
    pub open spec fn wf(&self) -> bool {
        self.spec_id() == spec_scheme_identity(
            self.spec_axes(),
            segment_id_views(self.spec_segments()),
            self.spec_relations().map_values(|e: EdgeView| edge_chunk(e)),
        )
    }

    /// Freeze a builder into a scheme, computing the identity: the digest
    /// of the axes in order, the member identities in canonical
    /// arrangement, and the relation chunks in canonical arrangement.
    pub fn new(builder: SchemeBuilder) -> (r: Scheme)
        ensures
            r.spec_axes() == builder.spec_axes(),
            r.spec_segments() == builder.spec_segments(),
            r.spec_relations() == builder.spec_relations(),
            r.spec_constraints() == builder.spec_constraints(),
            r.spec_layout() == builder.spec_layout(),
            r.spec_id() == spec_scheme_identity(
                builder.spec_axes(),
                segment_id_views(builder.spec_segments()),
                builder.spec_relations().map_values(|e: EdgeView| edge_chunk(e)),
            ),
            r.wf(),
    {
        let mut input: Vec<u8> = Vec::new();
        let na = builder.axes.len();
        let mut i: usize = 0;
        proof {
            assert(axis_seq_encoding(builder.spec_axes().take(0)) =~= Seq::<u8>::empty());
            assert(input@ =~= axis_seq_encoding(builder.spec_axes().take(0)));
        }
        while i < na
            invariant
                na == builder.axes@.len(),
                builder.spec_axes() == builder.axes@,
                i <= na,
                input@ == axis_seq_encoding(builder.spec_axes().take(i as int)),
            decreases na - i,
        {
            push_axis_encoding(&mut input, &builder.axes[i]);
            proof {
                let t = builder.spec_axes().take(i + 1);
                assert(t.drop_last() =~= builder.spec_axes().take(i as int));
                assert(t.last() == builder.spec_axes()[i as int]);
                assert(input@ =~= axis_seq_encoding(builder.spec_axes().take(i + 1)));
            }
            i += 1;
        }
        proof {
            assert(builder.spec_axes().take(na as int) =~= builder.spec_axes());
        }
        let ns = builder.segments.len();
        let mut id_chunks: Vec<Vec<u8>> = Vec::new();
        proof {
            assert(chunk_views(id_chunks@) =~= segment_id_views(builder.spec_segments().take(0)));
        }
        let mut k: usize = 0;
        while k < ns
            invariant
                ns == builder.segments@.len(),
                builder.spec_segments() == builder.segments@,
                k <= ns,
                chunk_views(id_chunks@) == segment_id_views(
                    builder.spec_segments().take(k as int),
                ),
            decreases ns - k,
        {
            let chunk = vstd::slice::slice_to_vec(builder.segments[k].id().as_bytes().as_slice());
            let ghost prev = id_chunks@;
            id_chunks.push(chunk);
            proof {
                prev.lemma_push_map_commute(|x: Vec<u8>| x@, id_chunks@.last());
                builder.spec_segments().take(k as int).lemma_push_map_commute(
                    |s: Segment| s.spec_id(),
                    builder.spec_segments()[k as int],
                );
                assert(builder.spec_segments().take(k + 1) =~= builder.spec_segments().take(
                    k as int,
                ).push(builder.spec_segments()[k as int]));
                assert(chunk_views(id_chunks@) =~= segment_id_views(
                    builder.spec_segments().take(k + 1),
                ));
            }
            k += 1;
        }
        proof {
            assert(builder.spec_segments().take(ns as int) =~= builder.spec_segments());
        }
        let mut sorted_ids = canonical_bytes(id_chunks);
        let rel_chunks = builder.relations.edge_chunks();
        let mut sorted_rels = canonical_bytes(rel_chunks);
        input.append(&mut sorted_ids);
        input.append(&mut sorted_rels);
        proof {
            assert(input@ =~= scheme_id_input(
                builder.spec_axes(),
                segment_id_views(builder.spec_segments()),
                builder.spec_relations().map_values(|e: EdgeView| edge_chunk(e)),
            ));
        }
        let id = SchemeId::from_array(crate::identity::blake3_digest(&input));
        Scheme {
            id,
            axes: builder.axes,
            segments: builder.segments,
            relations: builder.relations,
            structural_constraints: builder.structural_constraints,
            memory_layout: builder.memory_layout,
            observation_rules: builder.observation_rules,
            metadata: builder.metadata,
        }
    }

    /// The identity of this scheme.
    pub fn id(&self) -> (r: &SchemeId)
        ensures
            r@ == self.spec_id(),
    {
        &self.id
    }

    /// The axes, in declaration order.
    pub fn axes(&self) -> (r: &Vec<Axis>)
        ensures
            r@ == self.spec_axes(),
    {
        &self.axes
    }

    /// The number of axes.
    pub fn dimensionality(&self) -> (r: usize)
        ensures
            r == self.spec_axes().len(),
    {
        self.axes.len()
    }

    /// Whether a segment with the given identity belongs to the scheme.
    pub fn contains_segment(&self, segment_id: &SegmentId) -> (r: bool)
        ensures
            r == segment_id_views(self.spec_segments()).contains(segment_id@),
    {
        contains_segment_id(&self.segments, segment_id)
    }

    /// The segment with the given identity, if the scheme holds one.
    pub fn get_segment(&self, segment_id: &SegmentId) -> (r: Option<&Segment>)
        ensures
            r is Some <==> segment_id_views(self.spec_segments()).contains(segment_id@),
            r is Some ==> (r->Some_0).spec_id() == segment_id@ && self.spec_segments().contains(
                *(r->Some_0),
            ),
    {
        let n = self.segments.len();
        let mut i: usize = 0;
        while i < n
            invariant
                n == self.segments@.len(),
                i <= n,
                forall|j: int| 0 <= j < i ==> (#[trigger] self.segments@[j]).spec_id()
                    != segment_id@,
            decreases n - i,
        {
            if self.segments[i].id() == segment_id {
                proof {
                    assert(segment_id_views(self.spec_segments())[i as int] == segment_id@);
                }
                return Some(&self.segments[i]);
            }
            i += 1;
        }
        proof {
            let m = segment_id_views(self.spec_segments());
            assert forall|j: int| 0 <= j < m.len() implies #[trigger] m[j] != segment_id@ by {
                assert(m[j] == self.segments@[j].spec_id());
            }
        }
        None
    }

    /// All segments, in order of first addition.
    pub fn segments(&self) -> (r: &Vec<Segment>)
        ensures
            r@ == self.spec_segments(),
    {
        &self.segments
    }

    /// The identities of all segments, in the same order.
    pub fn segment_ids(&self) -> (r: Vec<SegmentId>)
        ensures
            r@.map_values(|id: SegmentId| id@) == segment_id_views(self.spec_segments()),
    {
        let n = self.segments.len();
        let mut out: Vec<SegmentId> = Vec::new();
        proof {
            assert(out@.map_values(|id: SegmentId| id@) =~= segment_id_views(
                self.spec_segments().take(0),
            ));
        }
        let mut i: usize = 0;
        while i < n
            invariant
                n == self.segments@.len(),
                i <= n,
                out@.map_values(|id: SegmentId| id@) == segment_id_views(
                    self.spec_segments().take(i as int),
                ),
            decreases n - i,
        {
            let ghost prev = out@;
            out.push(*self.segments[i].id());
            proof {
                prev.lemma_push_map_commute(|id: SegmentId| id@, out@.last());
                self.spec_segments().take(i as int).lemma_push_map_commute(
                    |s: Segment| s.spec_id(),
                    self.spec_segments()[i as int],
                );
                assert(self.spec_segments().take(i + 1) =~= self.spec_segments().take(
                    i as int,
                ).push(self.spec_segments()[i as int]));
                assert(out@.map_values(|id: SegmentId| id@) =~= segment_id_views(
                    self.spec_segments().take(i + 1),
                ));
            }
            i += 1;
        }
        proof {
            assert(self.spec_segments().take(n as int) =~= self.spec_segments());
        }
        out
    }

    /// The identities one outgoing relation away from a segment.
    pub fn neighbors_of(&self, segment_id: &SegmentId) -> (r: Vec<SegmentId>)
        ensures
            r@.map_values(|id: SegmentId| id@) == self.spec_relations().filter(
                |e: EdgeView| e.0 == segment_id@,
            ).map_values(|e: EdgeView| e.1),
    {
        let pairs = self.relations.get_outgoing(segment_id);
        let n = pairs.len();
        let mut out: Vec<SegmentId> = Vec::new();
        let ghost target = self.spec_relations().filter(|e: EdgeView| e.0 == segment_id@).map_values(
            |e: EdgeView| e.1,
        );
        proof {
            assert(pairs@.map_values(
                |p: (SegmentId, StructuralRelation)| (p.0@, relation_encoding(&p.1)),
            ).len() == pairs@.len());
            assert(out@.map_values(|id: SegmentId| id@) =~= target.take(0));
        }
        let mut i: usize = 0;
        while i < n
            invariant
                n == pairs@.len(),
                n == target.len(),
                forall|j: int|
                    0 <= j < n ==> ((#[trigger] pairs@[j]).0@, relation_encoding(&pairs@[j].1))
                        == self.spec_relations().filter(|e: EdgeView| e.0 == segment_id@).map_values(
                        |e: EdgeView| (e.1, e.2),
                    )[j],
                target == self.spec_relations().filter(|e: EdgeView| e.0 == segment_id@).map_values(
                    |e: EdgeView| e.1,
                ),
                i <= n,
                out@.map_values(|id: SegmentId| id@) == target.take(i as int),
            decreases n - i,
        {
            let ghost prev = out@;
            out.push(pairs[i].0);
            proof {
                prev.lemma_push_map_commute(|id: SegmentId| id@, out@.last());
                assert(target.take(i + 1) =~= target.take(i as int).push(target[i as int]));
                assert(pairs@[i as int].0@ == target[i as int]);
                assert(out@.map_values(|id: SegmentId| id@) =~= target.take(i + 1));
            }
            i += 1;
        }
        proof {
            assert(target.take(n as int) =~= target);
        }
        out
    }

    /// The outgoing relations of a segment, as (target, relation) pairs,
    /// optionally keeping only relations whose kind label holds the filter
    /// text.
    pub fn structural_neighbors(&self, segment_id: &SegmentId, relation_filter: Option<&str>) -> (r:
        Vec<(SegmentId, StructuralRelation)>)
        ensures
            r@.map_values(|p: (SegmentId, StructuralRelation)| (p.0@, relation_encoding(&p.1)))
                == crate::relation::outgoing_matching(
                self.spec_relations(),
                segment_id@,
                match relation_filter {
                    None => None::<Seq<char>>,
                    Some(f) => Some(f@),
                },
            ),
    {
        self.relations.get_outgoing_matching(segment_id, relation_filter)
    }

    /// The relations declared between two segments, in declaration order.
    pub fn get_relations_between(&self, from: &SegmentId, to: &SegmentId) -> (r: Vec<
        StructuralRelation,
    >)
        ensures
            r@.map_values(|p: StructuralRelation| relation_encoding(&p)) == self.spec_relations()
                .filter(|e: EdgeView| e.0 == from@ && e.1 == to@).map_values(|e: EdgeView| e.2),
    {
        self.relations.get_relations_between(from, to)
    }

    /// Whether a coordinate satisfies every structural constraint.
    pub fn structural_constraints_satisfied(&self, coords: &SpaceCoordinates) -> (r: bool)
        ensures
            r == set_allows(constraint_kinds(self.spec_constraints()), coords@),
    {
        let n = self.structural_constraints.len();
        let mut i: usize = 0;
        while i < n
            invariant
                n == self.structural_constraints@.len(),
                i <= n,
                forall|j: int|
                    0 <= j < i ==> (#[trigger] self.structural_constraints@[j]).constraint
                        .spec_allows(coords@),
            decreases n - i,
        {
            if !self.structural_constraints[i].constraint.allows(coords) {
                proof {
                    assert(constraint_kinds(self.spec_constraints())[i as int]
                        == self.structural_constraints@[i as int].constraint);
                }
                return false;
            }
            i += 1;
        }
        proof {
            let ks = constraint_kinds(self.spec_constraints());
            assert forall|j: int| 0 <= j < ks.len() implies (#[trigger] ks[j]).spec_allows(
                coords@,
            ) by {
                assert(ks[j] == self.structural_constraints@[j].constraint);
            }
        }
        true
    }

    /// Check a coordinate against the structural constraints: the AND of
    /// all of them, failing fast with the first violated constraint's
    /// description.
    pub fn validate_structure(&self, coords: &SpaceCoordinates) -> (r: Result<(), String>)
        ensures
            r is Ok <==> first_violation(self.spec_constraints(), coords@) is None,
            r is Err ==> Some((r->Err_0)@) == first_violation(self.spec_constraints(), coords@),
    {
        let n = self.structural_constraints.len();
        let mut i: usize = 0;
        proof {
            assert(self.spec_constraints().skip(0) =~= self.spec_constraints());
        }
        while i < n
            invariant
                n == self.structural_constraints@.len(),
                i <= n,
                first_violation(self.spec_constraints(), coords@) == first_violation(
                    self.spec_constraints().skip(i as int),
                    coords@,
                ),
            decreases n - i,
        {
            proof {
                assert(self.spec_constraints().skip(i as int)[0]
                    == self.spec_constraints()[i as int]);
                assert(self.spec_constraints().skip(i as int).drop_first()
                    =~= self.spec_constraints().skip(i + 1));
            }
            let c = &self.structural_constraints[i];
            if !c.constraint.allows(coords) {
                return Err(c.constraint.describe());
            }
            i += 1;
        }
        proof {
            assert(self.spec_constraints().skip(n as int) =~= Seq::<StructuralConstraint>::empty());
        }
        Ok(())
    }

    /// The logical memory address of a coordinate under the configured
    /// layout, or `None` where the layout is undefined for it.
    pub fn map_to_memory(&self, coords: &SpaceCoordinates) -> (r: Option<usize>)
        ensures
            r == spec_map_to_memory(self.spec_layout(), self.spec_axes(), coords@),
    {
        match self.memory_layout {
            MemoryLayout::Linear => compute_linear_address_exact(&coords.raw),
            MemoryLayout::RowMajor => {
                if coords.raw.len() < 2 {
                    return None;
                }
                let row = coords.raw[0];
                let col = coords.raw[1];
                if row < 0 || col < 0 {
                    return None;
                }
                let width = self.axis_extent(1);
                checked_row_major(row as u64, col as u64, width)
            },
            MemoryLayout::ColumnMajor => {
                if coords.raw.len() < 2 {
                    return None;
                }
                let row = coords.raw[0];
                let col = coords.raw[1];
                if row < 0 || col < 0 {
                    return None;
                }
                let height = self.axis_extent(0);
                checked_row_major(col as u64, row as u64, height)
            },
            MemoryLayout::ZOrderCurve => {
                let bits = compute_bit_len(compute_max_magnitude(&coords.raw));
                let dims = coords.raw.len();
                let ghost d: int = coords@.len() as int;
                let ghost w: int = bit_len(max_magnitude(coords@) as nat) as int;
                if dims as u64 > 64 {
                    proof {
                        assert(d * (w + 1) > 64) by (nonlinear_arith)
                            requires
                                d > 64,
                                w >= 0,
                        ;
                    }
                    return None;
                }
                proof {
                    assert((dims as u64) * (bits + 1) <= 64 * 65) by (nonlinear_arith)
                        requires
                            dims as u64 <= 64,
                            bits <= 64,
                    ;
                }
                let product = (dims as u64) * (bits + 1);
                proof {
                    assert(d == dims as int);
                    assert(w == bits as int);
                    assert(d * (w + 1) == product as int);
                }
                if product > 64 {
                    return None;
                }
                let z = z_order_encode(&coords.raw);
                if z > usize::MAX as u64 {
                    None
                } else {
                    Some(z as usize)
                }
            },
            MemoryLayout::HilbertCurve => {
                let h = hilbert_encode(&coords.raw);
                Some(h as usize)
            },
        }
    }

    /// The extent of an axis: the width of its declared range, and a fixed
    /// default extent where no range was declared.
    fn axis_extent(&self, axis: usize) -> (r: u64)
        ensures
            r == spec_axis_extent(self.spec_axes(), axis as int),
    {
        if axis < self.axes.len() {
            match self.axes[axis].range {
                Some((min, max)) => {
                    if min <= max {
                        let span: i128 = (max as i128) - (min as i128) + 1;
                        if span <= u64::MAX as i128 {
                            span as u64
                        } else {
                            1024
                        }
                    } else {
                        1024
                    }
                },
                None => 1024,
            }
        } else {
            1024
        }
    }

    /// The logical address of a coordinate: the memory mapping wrapped in
    /// an address of address space zero.
    pub fn map_to_logical_address(&self, coords: &SpaceCoordinates) -> (r: Option<LogicalAddress>)
        ensures
            r is Some <==> spec_map_to_memory(self.spec_layout(), self.spec_axes(), coords@)
                is Some,
            r is Some ==> (r->Some_0).space_id == 0 && (r->Some_0).offset as int
                == spec_map_to_memory(self.spec_layout(), self.spec_axes(), coords@)->Some_0 as int,
    {
        match self.map_to_memory(coords) {
            Some(offset) => Some(
                LogicalAddress { space_id: 0, offset: offset as u64, metadata: Vec::new() },
            ),
            None => None,
        }
    }

    /// A one-line account of the scheme: its identity, and how many axes,
    /// segments and relations it holds.
    pub fn describe(&self) -> (r: String)
        ensures
            r@ == "Scheme "@ + hex_of(self.spec_id()) + " with "@ + dec_digits(
                self.spec_axes().len(),
            ) + " dimensions, "@ + dec_digits(self.spec_segments().len()) + " segments, "@
                + dec_digits(self.spec_relations().len()) + " relations"@,
    {
        let mut s = String::from_str("Scheme ");
        s.append(self.id.to_hex().as_str());
        s.append(" with ");
        s.append(usize_to_string(self.axes.len()).as_str());
        s.append(" dimensions, ");
        s.append(usize_to_string(self.segments.len()).as_str());
        s.append(" segments, ");
        s.append(usize_to_string(self.relations.len()).as_str());
        s.append(" relations");
        s
    }
}

/// The extent of an axis under a declared range, defaulting where no usable
/// range was declared.
pub open spec fn spec_axis_extent(axes: Seq<Axis>, axis: int) -> u64 {
    if 0 <= axis < axes.len() {
        match axes[axis].range {
            Some((min, max)) => if min <= max && max - min + 1 <= u64::MAX {
                (max - min + 1) as u64
            } else {
                1024u64
            },
            None => 1024u64,
        }
    } else {
        1024u64
    }
}

/// What the memory layout assigns to a coordinate: the linear sum; row- or
/// column-major order against the declared axis extents; or a space-filling
/// curve. `None` where the layout is undefined for the coordinate or the
/// address does not fit the machine word.
pub open spec fn spec_map_to_memory(
    layout: MemoryLayout,
    axes: Seq<Axis>,
    c: Seq<i64>,
) -> Option<usize> {
    match layout {
        MemoryLayout::Linear => match linear_address(c) {
            Some(a) => if a <= usize::MAX {
                Some(a as usize)
            } else {
                None
            },
            None => None,
        },
        MemoryLayout::RowMajor => if c.len() >= 2 && c[0] >= 0 && c[1] >= 0 {
            let a = c[0] * spec_axis_extent(axes, 1) + c[1];
            if a <= usize::MAX {
                Some(a as usize)
            } else {
                None
            }
        } else {
            None
        },
        MemoryLayout::ColumnMajor => if c.len() >= 2 && c[0] >= 0 && c[1] >= 0 {
            let a = c[1] * spec_axis_extent(axes, 0) + c[0];
            if a <= usize::MAX {
                Some(a as usize)
            } else {
                None
            }
        } else {
            None
        },
        MemoryLayout::ZOrderCurve => if c.len() * (bit_len(max_magnitude(c) as nat) + 1) <= 64 {
            if z_order_spec(c) <= usize::MAX {
                Some(z_order_spec(c) as usize)
            } else {
                None
            }
        } else {
            None
        },
        MemoryLayout::HilbertCurve => Some(hilbert_spec(c) as usize),
    }
}

/// Compute the linear address with the exact option semantics of
/// [`spec_map_to_memory`].
fn compute_linear_address_exact(c: &Vec<i64>) -> (r: Option<usize>)
    ensures
        r == (match linear_address(c@) {
            Some(a) => if a <= usize::MAX {
                Some(a as usize)
            } else {
                None::<usize>
            },
            None => None::<usize>,
        }),
{
    compute_linear_address(c)
}

/// Compute `major * extent + minor`, or `None` when it does not fit the
/// machine word.
fn checked_row_major(major: u64, minor: u64, extent: u64) -> (r: Option<usize>)
    ensures
        r is Some ==> (r->Some_0) as int == major * extent + minor,
        r is None ==> major * extent + minor > usize::MAX,
{
    let scaled = major.checked_mul(extent);
    match scaled {
        Some(base) => match base.checked_add(minor) {
            Some(total) => {
                if total > usize::MAX as u64 {
                    None
                } else {
                    Some(total as usize)
                }
            },
            None => None,
        },
        None => {
            proof {
                assert(major * extent + minor > u64::MAX);
            }
            None
        },
    }
}

} // verus!
