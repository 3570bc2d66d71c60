//! Typed structural relations between segment identities, and the relation
//! graph that stores them, queryable forward and backward. Every relation
//! has a canonical byte encoding; the graph's contracts and the scheme
//! identity both speak in terms of those encodings.

use vstd::prelude::*;
use vstd::bytes::{spec_u64_to_le_bytes, u64_to_le_bytes};
use vstd::string::StringSliceAdditionalSpecFns;
use vstd::utf8::encode_utf8;
use crate::identity::SegmentId;

verus! {

/// Grid topologies for grid adjacency.
#[derive(Clone, Debug)]
pub enum GridTopology {
    FourConnected,
    EightConnected,
    Hexagonal,
    Triangular,
    /// Neighbour offsets chosen by the caller.
    Custom(Vec<(i64, i64)>),
}

/// Compact grid directions: the common grid neighbourhoods.
#[derive(Clone, Copy, Debug, PartialEq, Eq, Structural)]
pub enum GridDirection {
    /// Up, down, left and right.
    FourConnected,
    /// Diagonals included.
    EightConnected,
    /// Hexagonal neighbourhoods.
    Hexagonal,
}

impl GridDirection {
    /// The grid topology this direction set names.
    pub fn to_topology(&self) -> (r: GridTopology)
        ensures
            r is FourConnected <==> self is FourConnected,
            r is EightConnected <==> self is EightConnected,
            r is Hexagonal <==> self is Hexagonal,
    {
        match self {
            GridDirection::FourConnected => GridTopology::FourConnected,
            GridDirection::EightConnected => GridTopology::EightConnected,
            GridDirection::Hexagonal => GridTopology::Hexagonal,
        }
    }
}

/// Kinds of adjacency between segments.
#[derive(Clone, Debug)]
pub enum AdjacencyType {
    /// Within a squared Euclidean distance.
    Euclidean(i64),
    /// Within a Manhattan distance.
    Manhattan(i64),
    /// Neighbours in a grid.
    Grid(GridTopology),
    /// Connected in an arbitrary graph.
    Graph,
    /// Close in space and time.
    Spatiotemporal,
    /// Conceptually similar.
    Conceptual,
}

/// Kinds of hierarchy.
#[derive(Clone, Copy, Debug, PartialEq, Eq, Structural)]
pub enum HierarchyType {
    Containment,
    Inheritance,
    Composition,
    Specialization,
}

/// Kinds of dependency.
#[derive(Clone, Copy, Debug, PartialEq, Eq, Structural)]
pub enum DependencyType {
    DataFlow,
    ControlFlow,
    Temporal,
    Causal,
    Resource,
}

/// Kinds of equivalence symmetry.
#[derive(Clone, Copy, Debug, PartialEq, Eq, Structural)]
pub enum SymmetryType {
    Symmetric,
    Asymmetric,
    Reflexive,
    Transitive,
}

/// A typed structural relation between two segments.
#[derive(Clone, Debug)]
pub enum StructuralRelation {
    /// Spatial or conceptual proximity, optionally weighted.
    Adjacency { relation_type: AdjacencyType, weight: Option<i64>, metadata: Vec<(String, String)> },
    /// Parent-child structure.
    Hierarchy { parent: SegmentId, depth: i64, relation_type: HierarchyType },
    /// One segment depends on another.
    Dependency { dependent: SegmentId, dependency_type: DependencyType, strength: i64 },
    /// Different representations of the same structure.
    Equivalence { equivalence_class: u64, symmetry: SymmetryType },
    /// A named relation defined by the caller.
    Custom { name: String },
}

/// Canonical bytes of one signed integer.
pub open spec fn i64_bytes(v: i64) -> Seq<u8> {
    spec_u64_to_le_bytes(v as u64)
}

/// Canonical bytes of an optional weight.
pub open spec fn opt_i64_bytes(o: Option<i64>) -> Seq<u8> {
    match o {
        None => seq![0u8],
        Some(v) => seq![1u8] + i64_bytes(v),
    }
}

/// Canonical bytes of string pairs, in order.
pub open spec fn pairs_bytes(m: Seq<(String, String)>) -> Seq<u8>
    decreases m.len(),
{
    if m.len() == 0 {
        Seq::empty()
    } else {
        pairs_bytes(m.drop_last()) + encode_utf8(m.last().0@) + encode_utf8(m.last().1@)
    }
}

/// Canonical bytes of offset pairs, in order.
pub open spec fn offsets_bytes(m: Seq<(i64, i64)>) -> Seq<u8>
    decreases m.len(),
{
    if m.len() == 0 {
        Seq::empty()
    } else {
        offsets_bytes(m.drop_last()) + i64_bytes(m.last().0) + i64_bytes(m.last().1)
    }
}

/// Canonical bytes of a grid topology.
pub open spec fn grid_topology_encoding(t: &GridTopology) -> Seq<u8> {
    match t {
        GridTopology::FourConnected => seq![0u8],
        GridTopology::EightConnected => seq![1u8],
        GridTopology::Hexagonal => seq![2u8],
        GridTopology::Triangular => seq![3u8],
        GridTopology::Custom(offsets) => seq![4u8] + offsets_bytes(offsets@),
    }
}

/// Canonical bytes of an adjacency kind.
pub open spec fn adjacency_type_encoding(t: &AdjacencyType) -> Seq<u8> {
    match t {
        AdjacencyType::Euclidean(d) => seq![0u8] + i64_bytes(*d),
        AdjacencyType::Manhattan(d) => seq![1u8] + i64_bytes(*d),
        AdjacencyType::Grid(g) => seq![2u8] + grid_topology_encoding(g),
        AdjacencyType::Graph => seq![3u8],
        AdjacencyType::Spatiotemporal => seq![4u8],
        AdjacencyType::Conceptual => seq![5u8],
    }
}

/// The discriminant byte of a hierarchy kind.
pub open spec fn hierarchy_type_byte(t: HierarchyType) -> u8 {
    match t {
        HierarchyType::Containment => 0u8,
        HierarchyType::Inheritance => 1u8,
        HierarchyType::Composition => 2u8,
        HierarchyType::Specialization => 3u8,
    }
}

/// The discriminant byte of a dependency kind.
pub open spec fn dependency_type_byte(t: DependencyType) -> u8 {
    match t {
        DependencyType::DataFlow => 0u8,
        DependencyType::ControlFlow => 1u8,
        DependencyType::Temporal => 2u8,
        DependencyType::Causal => 3u8,
        DependencyType::Resource => 4u8,
    }
}

/// The discriminant byte of a symmetry kind.
pub open spec fn symmetry_type_byte(t: SymmetryType) -> u8 {
    match t {
        SymmetryType::Symmetric => 0u8,
        SymmetryType::Asymmetric => 1u8,
        SymmetryType::Reflexive => 2u8,
        SymmetryType::Transitive => 3u8,
    }
}

/// The canonical byte encoding of a structural relation: a discriminant
/// followed by the relation's parameters. Relations are compared and hashed
/// by this encoding.
pub open spec fn relation_encoding(r: &StructuralRelation) -> Seq<u8> {
    match r {
        StructuralRelation::Adjacency { relation_type, weight, metadata } => seq![0u8]
            + adjacency_type_encoding(relation_type) + opt_i64_bytes(*weight) + pairs_bytes(
            metadata@,
        ),
        StructuralRelation::Hierarchy { parent, depth, relation_type } => seq![1u8] + parent@
            + i64_bytes(*depth) + seq![hierarchy_type_byte(*relation_type)],
        StructuralRelation::Dependency { dependent, dependency_type, strength } => seq![2u8]
            + dependent@ + seq![dependency_type_byte(*dependency_type)] + i64_bytes(*strength),
        StructuralRelation::Equivalence { equivalence_class, symmetry } => seq![3u8]
            + spec_u64_to_le_bytes(*equivalence_class) + seq![symmetry_type_byte(*symmetry)],
        StructuralRelation::Custom { name } => seq![4u8] + encode_utf8(name@),
    }
}

/// Append the bytes of a string to a buffer.
pub(crate) fn push_str_bytes(out: &mut Vec<u8>, s: &str)
    ensures
        final(out)@ == old(out)@ + encode_utf8(s@),
{
    let b = s.as_bytes();
    let mut v = vstd::slice::slice_to_vec(b);
    out.append(&mut v);
}

/// Append one signed integer's canonical bytes to a buffer.
pub(crate) fn push_i64(out: &mut Vec<u8>, v: i64)
    ensures
        final(out)@ == old(out)@ + i64_bytes(v),
{
    let mut chunk = u64_to_le_bytes(v as u64);
    out.append(&mut chunk);
}

/// Append one unsigned integer's canonical bytes to a buffer.
pub(crate) fn push_u64(out: &mut Vec<u8>, v: u64)
    ensures
        final(out)@ == old(out)@ + spec_u64_to_le_bytes(v),
{
    let mut chunk = u64_to_le_bytes(v);
    out.append(&mut chunk);
}

/// Append string pairs to a buffer.
fn push_pairs(out: &mut Vec<u8>, m: &Vec<(String, String)>)
    ensures
        final(out)@ == old(out)@ + pairs_bytes(m@),
{
    let n = m.len();
    let mut i: usize = 0;
    proof {
        assert(pairs_bytes(m@.take(0)) =~= Seq::<u8>::empty());
        assert(out@ =~= out@ + pairs_bytes(m@.take(0)));
    }
    while i < n
        invariant
            n == m@.len(),
            i <= n,
            out@ == old(out)@ + pairs_bytes(m@.take(i as int)),
        decreases n - i,
    {
        push_str_bytes(out, m[i].0.as_str());
        push_str_bytes(out, m[i].1.as_str());
        proof {
            let t = m@.take(i + 1);
            assert(t.drop_last() =~= m@.take(i as int));
            assert(t.last() == m@[i as int]);
            assert(out@ =~= old(out)@ + pairs_bytes(m@.take(i + 1)));
        }
        i += 1;
    }
    proof {
        assert(m@.take(n as int) =~= m@);
    }
}

/// Append offset pairs to a buffer.
fn push_offsets(out: &mut Vec<u8>, m: &Vec<(i64, i64)>)
    ensures
        final(out)@ == old(out)@ + offsets_bytes(m@),
{
    let n = m.len();
    let mut i: usize = 0;
    proof {
        assert(offsets_bytes(m@.take(0)) =~= Seq::<u8>::empty());
        assert(out@ =~= out@ + offsets_bytes(m@.take(0)));
    }
    while i < n
        invariant
            n == m@.len(),
            i <= n,
            out@ == old(out)@ + offsets_bytes(m@.take(i as int)),
        decreases n - i,
    {
        push_i64(out, m[i].0);
        push_i64(out, m[i].1);
        proof {
            let t = m@.take(i + 1);
            assert(t.drop_last() =~= m@.take(i as int));
            assert(t.last() == m@[i as int]);
            assert(out@ =~= old(out)@ + offsets_bytes(m@.take(i + 1)));
        }
        i += 1;
    }
    proof {
        assert(m@.take(n as int) =~= m@);
    }
}

/// Append a relation's canonical encoding to a buffer.
pub fn push_relation_encoding(out: &mut Vec<u8>, r: &StructuralRelation)
    ensures
        final(out)@ == old(out)@ + relation_encoding(r),
{
    match r {
        StructuralRelation::Adjacency { relation_type, weight, metadata } => {
            out.push(0u8);
            match relation_type {
                AdjacencyType::Euclidean(d) => {
                    out.push(0u8);
                    push_i64(out, *d);
                },
                AdjacencyType::Manhattan(d) => {
                    out.push(1u8);
                    push_i64(out, *d);
                },
                AdjacencyType::Grid(g) => {
                    out.push(2u8);
                    match g {
                        GridTopology::FourConnected => out.push(0u8),
                        GridTopology::EightConnected => out.push(1u8),
                        GridTopology::Hexagonal => out.push(2u8),
                        GridTopology::Triangular => out.push(3u8),
                        GridTopology::Custom(offsets) => {
                            out.push(4u8);
                            push_offsets(out, offsets);
                        },
                    }
                },
                AdjacencyType::Graph => out.push(3u8),
                AdjacencyType::Spatiotemporal => out.push(4u8),
                AdjacencyType::Conceptual => out.push(5u8),
            }
            match weight {
                None => out.push(0u8),
                Some(v) => {
                    out.push(1u8);
                    push_i64(out, *v);
                },
            }
            push_pairs(out, metadata);
            proof {
                assert(out@ =~= old(out)@ + relation_encoding(r));
            }
        },
        StructuralRelation::Hierarchy { parent, depth, relation_type } => {
            out.push(1u8);
            let mut id_bytes = vstd::slice::slice_to_vec(parent.as_bytes().as_slice());
            out.append(&mut id_bytes);
            push_i64(out, *depth);
            match relation_type {
                HierarchyType::Containment => out.push(0u8),
                HierarchyType::Inheritance => out.push(1u8),
                HierarchyType::Composition => out.push(2u8),
                HierarchyType::Specialization => out.push(3u8),
            }
            proof {
                assert(out@ =~= old(out)@ + relation_encoding(r));
            }
        },
        StructuralRelation::Dependency { dependent, dependency_type, strength } => {
            out.push(2u8);
            let mut id_bytes = vstd::slice::slice_to_vec(dependent.as_bytes().as_slice());
            out.append(&mut id_bytes);
            match dependency_type {
                DependencyType::DataFlow => out.push(0u8),
                DependencyType::ControlFlow => out.push(1u8),
                DependencyType::Temporal => out.push(2u8),
                DependencyType::Causal => out.push(3u8),
                DependencyType::Resource => out.push(4u8),
            }
            push_i64(out, *strength);
            proof {
                assert(out@ =~= old(out)@ + relation_encoding(r));
            }
        },
        StructuralRelation::Equivalence { equivalence_class, symmetry } => {
            out.push(3u8);
            push_u64(out, *equivalence_class);
            match symmetry {
                SymmetryType::Symmetric => out.push(0u8),
                SymmetryType::Asymmetric => out.push(1u8),
                SymmetryType::Reflexive => out.push(2u8),
                SymmetryType::Transitive => out.push(3u8),
            }
            proof {
                assert(out@ =~= old(out)@ + relation_encoding(r));
            }
        },
        StructuralRelation::Custom { name } => {
            out.push(4u8);
            push_str_bytes(out, name.as_str());
            proof {
                assert(out@ =~= old(out)@ + relation_encoding(r));
            }
        },
    }
}

/// An independent copy of a relation; the copy has the same canonical
/// encoding.
pub fn dup_relation(r: &StructuralRelation) -> (r2: StructuralRelation)
    ensures
        relation_encoding(&r2) == relation_encoding(r),
{
    let r2 = match r {
        StructuralRelation::Adjacency { relation_type, weight, metadata } => {
            let rt = match relation_type {
                AdjacencyType::Euclidean(d) => AdjacencyType::Euclidean(*d),
                AdjacencyType::Manhattan(d) => AdjacencyType::Manhattan(*d),
                AdjacencyType::Grid(g) => AdjacencyType::Grid(
                    match g {
                        GridTopology::FourConnected => GridTopology::FourConnected,
                        GridTopology::EightConnected => GridTopology::EightConnected,
                        GridTopology::Hexagonal => GridTopology::Hexagonal,
                        GridTopology::Triangular => GridTopology::Triangular,
                        GridTopology::Custom(offsets) => GridTopology::Custom(dup_offsets(offsets)),
                    },
                ),
                AdjacencyType::Graph => AdjacencyType::Graph,
                AdjacencyType::Spatiotemporal => AdjacencyType::Spatiotemporal,
                AdjacencyType::Conceptual => AdjacencyType::Conceptual,
            };
            StructuralRelation::Adjacency {
                relation_type: rt,
                weight: match weight {
                    None => None,
                    Some(v) => Some(*v),
                },
                metadata: dup_pairs(metadata),
            }
        },
        StructuralRelation::Hierarchy { parent, depth, relation_type } => StructuralRelation::Hierarchy {
            parent: *parent,
            depth: *depth,
            relation_type: *relation_type,
        },
        StructuralRelation::Dependency { dependent, dependency_type, strength } => StructuralRelation::Dependency {
            dependent: *dependent,
            dependency_type: *dependency_type,
            strength: *strength,
        },
        StructuralRelation::Equivalence { equivalence_class, symmetry } => StructuralRelation::Equivalence {
            equivalence_class: *equivalence_class,
            symmetry: *symmetry,
        },
        StructuralRelation::Custom { name } => StructuralRelation::Custom { name: name.clone() },
    };
    proof {
        assert(relation_encoding(&r2) =~= relation_encoding(r));
    }
    r2
}

fn dup_pairs(m: &Vec<(String, String)>) -> (r: Vec<(String, String)>)
    ensures
        pairs_bytes(r@) == pairs_bytes(m@),
{
    let n = m.len();
    let mut out: Vec<(String, String)> = Vec::new();
    let mut i: usize = 0;
    proof {
        assert(pairs_bytes(out@) =~= pairs_bytes(m@.take(0)));
    }
    while i < n
        invariant
            n == m@.len(),
            i <= n,
            out@.len() == i,
            pairs_bytes(out@) == pairs_bytes(m@.take(i as int)),
            forall|j: int|
                0 <= j < i ==> (#[trigger] out@[j]).0@ == m@[j].0@ && out@[j].1@ == m@[j].1@,
        decreases n - i,
    {
        let ghost before = out@;
        out.push((m[i].0.clone(), m[i].1.clone()));
        proof {
            let t = m@.take(i + 1);
            assert(t.drop_last() =~= m@.take(i as int));
            assert(t.last() == m@[i as int]);
            assert(out@.drop_last() =~= before);
            assert(pairs_bytes(out@) == pairs_bytes(before) + encode_utf8(out@.last().0@)
                + encode_utf8(out@.last().1@));
            assert(encode_utf8(out@.last().0@) =~= encode_utf8(m@[i as int].0@));
            assert(encode_utf8(out@.last().1@) =~= encode_utf8(m@[i as int].1@));
        }
        i += 1;
    }
    proof {
        assert(m@.take(n as int) =~= m@);
    }
    out
}

fn dup_offsets(m: &Vec<(i64, i64)>) -> (r: Vec<(i64, i64)>)
    ensures
        r@ == m@,
{
    let n = m.len();
    let mut out: Vec<(i64, i64)> = Vec::new();
    let mut i: usize = 0;
    while i < n
        invariant
            n == m@.len(),
            i <= n,
            out@ == m@.take(i as int),
        decreases n - i,
    {
        out.push((m[i].0, m[i].1));
        proof {
            assert(m@.take(i + 1) =~= m@.take(i as int).push(m@[i as int]));
            assert(m@[i as int] == (m@[i as int].0, m@[i as int].1));
        }
        i += 1;
    }
    proof {
        assert(m@.take(n as int) =~= m@);
    }
    out
}

/// One directed edge of the relation graph, as (source identity bytes,
/// target identity bytes, relation encoding).
pub type EdgeView = (Seq<u8>, Seq<u8>, Seq<u8>);

/// A directed, typed relation graph keyed by segment identity, queryable
/// forward and backward.
#[derive(Clone, Debug)]
pub struct RelationGraph {
    edges: Vec<(SegmentId, SegmentId, StructuralRelation)>,
}

impl View for RelationGraph {
    type V = Seq<EdgeView>;

    closed spec fn view(&self) -> Seq<EdgeView> {
        self.edges@.map_values(
            |e: (SegmentId, SegmentId, StructuralRelation)| (e.0@, e.1@, relation_encoding(&e.2)),
        )
    }
}

impl RelationGraph {
    /// The empty relation graph.
    pub fn new() -> (r: Self)
        ensures
            r@ == Seq::<EdgeView>::empty(),
    {
        let r = Self { edges: Vec::new() };
        proof {
            assert(r@ =~= Seq::<EdgeView>::empty());
        }
        r
    }

    /// How many relations the graph holds.
    pub fn len(&self) -> (r: usize)
        ensures
            r == self@.len(),
    {
        self.edges.len()
    }

    /// Add one directed relation.
    pub fn add_relation(&mut self, from: SegmentId, to: SegmentId, relation: StructuralRelation)
        ensures
            final(self)@ == old(self)@.push((from@, to@, relation_encoding(&relation))),
    {
        let ghost fv = from@;
        let ghost tv = to@;
        let ghost re = relation_encoding(&relation);
        self.edges.push((from, to, relation));
        proof {
            assert(final(self)@ =~= old(self)@.push((fv, tv, re)));
        }
    }

    /// The outgoing relations of a segment, as (target, relation) pairs in
    /// declaration order.
    pub fn get_outgoing(&self, from: &SegmentId) -> (r: Vec<(SegmentId, StructuralRelation)>)
        ensures
            r@.map_values(|p: (SegmentId, StructuralRelation)| (p.0@, relation_encoding(&p.1)))
                == self@.filter(|e: EdgeView| e.0 == from@).map_values(
                |e: EdgeView| (e.1, e.2),
            ),
    {
        let n = self.edges.len();
        let mut out: Vec<(SegmentId, StructuralRelation)> = Vec::new();
        proof {
            assert(self@.take(0) =~= Seq::<EdgeView>::empty());
            assert(out@.map_values(
                |p: (SegmentId, StructuralRelation)| (p.0@, relation_encoding(&p.1)),
            ) =~= self@.take(0).filter(|e: EdgeView| e.0 == from@).map_values(
                |e: EdgeView| (e.1, e.2),
            ));
        }
        let mut i: usize = 0;
        while i < n
            invariant
                n == self.edges@.len(),
                self@.len() == n,
                i <= n,
                out@.map_values(
                    |p: (SegmentId, StructuralRelation)| (p.0@, relation_encoding(&p.1)),
                ) == self@.take(i as int).filter(|e: EdgeView| e.0 == from@).map_values(
                    |e: EdgeView| (e.1, e.2),
                ),
            decreases n - i,
        {
            proof {
                assert(self@[i as int] == (
                    self.edges@[i as int].0@,
                    self.edges@[i as int].1@,
                    relation_encoding(&self.edges@[i as int].2),
                ));
                assert(self@.take(i + 1) =~= self@.take(i as int).push(self@[i as int]));
                self@.take(i as int).lemma_filter_push(
                    self@[i as int],
                    |e: EdgeView| e.0 == from@,
                );
            }
            let e = &self.edges[i];
            if e.0 == *from {
                let ghost prev = out@;
                out.push((e.1, dup_relation(&e.2)));
                proof {
                    prev.lemma_push_map_commute(
                        |p: (SegmentId, StructuralRelation)| (p.0@, relation_encoding(&p.1)),
                        out@.last(),
                    );
                    self@.take(i as int).filter(|e: EdgeView| e.0 == from@).lemma_push_map_commute(
                        |e: EdgeView| (e.1, e.2),
                        self@[i as int],
                    );
                    assert(out@.map_values(
                        |p: (SegmentId, StructuralRelation)| (p.0@, relation_encoding(&p.1)),
                    ) =~= self@.take(i + 1).filter(|e: EdgeView| e.0 == from@).map_values(
                        |e: EdgeView| (e.1, e.2),
                    ));
                }
            } else {
                proof {
                    assert(out@.map_values(
                        |p: (SegmentId, StructuralRelation)| (p.0@, relation_encoding(&p.1)),
                    ) =~= self@.take(i + 1).filter(|e: EdgeView| e.0 == from@).map_values(
                        |e: EdgeView| (e.1, e.2),
                    ));
                }
            }
            i += 1;
        }
        proof {
            assert(self@.take(n as int) =~= self@);
        }
        out
    }

    /// The incoming relations of a segment, as (source, relation) pairs in
    /// declaration order.
    pub fn get_incoming(&self, to: &SegmentId) -> (r: Vec<(SegmentId, StructuralRelation)>)
        ensures
            r@.map_values(|p: (SegmentId, StructuralRelation)| (p.0@, relation_encoding(&p.1)))
                == self@.filter(|e: EdgeView| e.1 == to@).map_values(|e: EdgeView| (e.0, e.2)),
    {
        let n = self.edges.len();
        let mut out: Vec<(SegmentId, StructuralRelation)> = Vec::new();
        proof {
            assert(self@.take(0) =~= Seq::<EdgeView>::empty());
            assert(out@.map_values(
                |p: (SegmentId, StructuralRelation)| (p.0@, relation_encoding(&p.1)),
            ) =~= self@.take(0).filter(|e: EdgeView| e.1 == to@).map_values(
                |e: EdgeView| (e.0, e.2),
            ));
        }
        let mut i: usize = 0;
        while i < n
            invariant
                n == self.edges@.len(),
                self@.len() == n,
                i <= n,
                out@.map_values(
                    |p: (SegmentId, StructuralRelation)| (p.0@, relation_encoding(&p.1)),
                ) == self@.take(i as int).filter(|e: EdgeView| e.1 == to@).map_values(
                    |e: EdgeView| (e.0, e.2),
                ),
            decreases n - i,
        {
            proof {
                assert(self@[i as int] == (
                    self.edges@[i as int].0@,
                    self.edges@[i as int].1@,
                    relation_encoding(&self.edges@[i as int].2),
                ));
                assert(self@.take(i + 1) =~= self@.take(i as int).push(self@[i as int]));
                self@.take(i as int).lemma_filter_push(self@[i as int], |e: EdgeView| e.1 == to@);
            }
            let e = &self.edges[i];
            if e.1 == *to {
                let ghost prev = out@;
                out.push((e.0, dup_relation(&e.2)));
                proof {
                    prev.lemma_push_map_commute(
                        |p: (SegmentId, StructuralRelation)| (p.0@, relation_encoding(&p.1)),
                        out@.last(),
                    );
                    self@.take(i as int).filter(|e: EdgeView| e.1 == to@).lemma_push_map_commute(
                        |e: EdgeView| (e.0, e.2),
                        self@[i as int],
                    );
                    assert(out@.map_values(
                        |p: (SegmentId, StructuralRelation)| (p.0@, relation_encoding(&p.1)),
                    ) =~= self@.take(i + 1).filter(|e: EdgeView| e.1 == to@).map_values(
                        |e: EdgeView| (e.0, e.2),
                    ));
                }
            } else {
                proof {
                    assert(out@.map_values(
                        |p: (SegmentId, StructuralRelation)| (p.0@, relation_encoding(&p.1)),
                    ) =~= self@.take(i + 1).filter(|e: EdgeView| e.1 == to@).map_values(
                        |e: EdgeView| (e.0, e.2),
                    ));
                }
            }
            i += 1;
        }
        proof {
            assert(self@.take(n as int) =~= self@);
        }
        out
    }

    /// The relations declared from `from` to `to`, in declaration order.
    pub fn get_relations_between(&self, from: &SegmentId, to: &SegmentId) -> (r: Vec<
        StructuralRelation,
    >)
        ensures
            r@.map_values(|p: StructuralRelation| relation_encoding(&p)) == self@.filter(
                |e: EdgeView| e.0 == from@ && e.1 == to@,
            ).map_values(|e: EdgeView| e.2),
    {
        let n = self.edges.len();
        let mut out: Vec<StructuralRelation> = Vec::new();
        proof {
            assert(self@.take(0) =~= Seq::<EdgeView>::empty());
            assert(out@.map_values(|p: StructuralRelation| relation_encoding(&p)) =~= self@.take(
                0,
            ).filter(|e: EdgeView| e.0 == from@ && e.1 == to@).map_values(|e: EdgeView| e.2));
        }
        let mut i: usize = 0;
        while i < n
            invariant
                n == self.edges@.len(),
                self@.len() == n,
                i <= n,
                out@.map_values(|p: StructuralRelation| relation_encoding(&p)) == self@.take(
                    i as int,
                ).filter(|e: EdgeView| e.0 == from@ && e.1 == to@).map_values(|e: EdgeView| e.2),
            decreases n - i,
        {
            proof {
                assert(self@[i as int] == (
                    self.edges@[i as int].0@,
                    self.edges@[i as int].1@,
                    relation_encoding(&self.edges@[i as int].2),
                ));
                assert(self@.take(i + 1) =~= self@.take(i as int).push(self@[i as int]));
                self@.take(i as int).lemma_filter_push(
                    self@[i as int],
                    |e: EdgeView| e.0 == from@ && e.1 == to@,
                );
            }
            let e = &self.edges[i];
            if e.0 == *from && e.1 == *to {
                let ghost prev = out@;
                out.push(dup_relation(&e.2));
                proof {
                    prev.lemma_push_map_commute(
                        |p: StructuralRelation| relation_encoding(&p),
                        out@.last(),
                    );
                    self@.take(i as int).filter(
                        |e: EdgeView| e.0 == from@ && e.1 == to@,
                    ).lemma_push_map_commute(|e: EdgeView| e.2, self@[i as int]);
                    assert(out@.map_values(|p: StructuralRelation| relation_encoding(&p))
                        =~= self@.take(i + 1).filter(
                        |e: EdgeView| e.0 == from@ && e.1 == to@,
                    ).map_values(|e: EdgeView| e.2));
                }
            } else {
                proof {
                    assert(out@.map_values(|p: StructuralRelation| relation_encoding(&p))
                        =~= self@.take(i + 1).filter(
                        |e: EdgeView| e.0 == from@ && e.1 == to@,
                    ).map_values(|e: EdgeView| e.2));
                }
            }
            i += 1;
        }
        proof {
            assert(self@.take(n as int) =~= self@);
        }
        out
    }
}

/// The canonical chunk of one edge: source identity, target identity, then
/// the relation encoding.
pub open spec fn edge_chunk(e: EdgeView) -> Seq<u8> {
    e.0 + e.1 + e.2
}

impl RelationGraph {
    /// The canonical chunks of all edges, in declaration order.
    pub fn edge_chunks(&self) -> (r: Vec<Vec<u8>>)
        ensures
            crate::canonical::chunk_views(r@) == self@.map_values(|e: EdgeView| edge_chunk(e)),
    {
        let n = self.edges.len();
        let mut out: Vec<Vec<u8>> = Vec::new();
        proof {
            assert(crate::canonical::chunk_views(out@) =~= self@.take(0).map_values(
                |e: EdgeView| edge_chunk(e),
            ));
        }
        let mut i: usize = 0;
        while i < n
            invariant
                n == self.edges@.len(),
                self@.len() == n,
                i <= n,
                crate::canonical::chunk_views(out@) == self@.take(i as int).map_values(
                    |e: EdgeView| edge_chunk(e),
                ),
            decreases n - i,
        {
            proof {
                assert(self@[i as int] == (
                    self.edges@[i as int].0@,
                    self.edges@[i as int].1@,
                    relation_encoding(&self.edges@[i as int].2),
                ));
            }
            let e = &self.edges[i];
            let mut chunk: Vec<u8> = vstd::slice::slice_to_vec(e.0.as_bytes().as_slice());
            let mut to_bytes: Vec<u8> = vstd::slice::slice_to_vec(e.1.as_bytes().as_slice());
            chunk.append(&mut to_bytes);
            push_relation_encoding(&mut chunk, &e.2);
            let ghost prev = out@;
            out.push(chunk);
            proof {
                prev.lemma_push_map_commute(|x: Vec<u8>| x@, out@.last());
                self@.take(i as int).lemma_push_map_commute(
                    |e: EdgeView| edge_chunk(e),
                    self@[i as int],
                );
                assert(self@.take(i + 1) =~= self@.take(i as int).push(self@[i as int]));
                assert(out@.last()@ =~= edge_chunk(self@[i as int]));
                assert(crate::canonical::chunk_views(out@) =~= self@.take(i + 1).map_values(
                    |e: EdgeView| edge_chunk(e),
                ));
            }
            i += 1;
        }
        proof {
            assert(self@.take(n as int) =~= self@);
        }
        out
    }
}

/// Whether `needle` occurs in `hay` starting at position `k`.
pub open spec fn is_subrange_at(hay: Seq<u8>, needle: Seq<u8>, k: int) -> bool {
    0 <= k && k + needle.len() <= hay.len() && hay.subrange(k, k + needle.len()) == needle
}

/// Whether `needle` occurs anywhere in `hay`.
pub open spec fn contains_subrange(hay: Seq<u8>, needle: Seq<u8>) -> bool {
    exists|k: int| is_subrange_at(hay, needle, k)
}

/// Whether the bytes of `needle` stand at position `k` of `hay`.
fn prefix_matches(hay: &[u8], needle: &[u8], k: usize) -> (r: bool)
    requires
        k + needle@.len() <= hay@.len(),
    ensures
        r <==> hay@.subrange(k as int, k + needle@.len()) == needle@,
{
    let m = needle.len();
    let n = hay.len();
    let mut j: usize = 0;
    while j < m
        invariant
            m == needle@.len(),
            n == hay@.len(),
            k + m <= n,
            j <= m,
            forall|p: int| 0 <= p < j ==> hay@[k + p] == needle@[p],
        decreases m - j,
    {
        if hay[k + j] != needle[j] {
            proof {
                assert(hay@.subrange(k as int, k + m)[j as int] == hay@[k + j]);
            }
            return false;
        }
        j += 1;
    }
    proof {
        assert(hay@.subrange(k as int, k + m) =~= needle@);
    }
    true
}

/// Decide whether `needle` occurs anywhere in `hay`.
pub fn contains_subslice(hay: &[u8], needle: &[u8]) -> (r: bool)
    ensures
        r == contains_subrange(hay@, needle@),
{
    let m = needle.len();
    let n = hay.len();
    if m > n {
        proof {
            assert(forall|k: int| !is_subrange_at(hay@, needle@, k));
        }
        return false;
    }
    if m == 0 {
        proof {
            assert(hay@.subrange(0, 0) =~= needle@);
            assert(is_subrange_at(hay@, needle@, 0));
        }
        return true;
    }
    let mut k: usize = 0;
    while k <= n - m
        invariant
            m == needle@.len(),
            n == hay@.len(),
            1 <= m <= n,
            k <= n - m + 1,
            forall|q: int| 0 <= q < k ==> !is_subrange_at(hay@, needle@, q),
        decreases n - m + 1 - k,
    {
        if prefix_matches(hay, needle, k) {
            proof {
                assert(is_subrange_at(hay@, needle@, k as int));
            }
            return true;
        }
        k += 1;
    }
    proof {
        assert(forall|q: int| q > n - m ==> !is_subrange_at(hay@, needle@, q));
    }
    false
}

/// The adjacency label named by an adjacency discriminant byte.
pub open spec fn adjacency_label(d: u8) -> Seq<char> {
    if d == 0 {
        "Adjacency:Euclidean"@
    } else if d == 1 {
        "Adjacency:Manhattan"@
    } else if d == 2 {
        "Adjacency:Grid"@
    } else if d == 3 {
        "Adjacency:Graph"@
    } else if d == 4 {
        "Adjacency:Spatiotemporal"@
    } else {
        "Adjacency:Conceptual"@
    }
}

/// The kind label of a relation, read off its canonical encoding: the
/// relation family, the adjacency sub-kind where there is one, and the
/// caller's own name for a custom relation.
pub open spec fn kind_label_bytes(e: Seq<u8>) -> Seq<u8> {
    if e.len() == 0 {
        Seq::empty()
    } else if e[0] == 4 {
        encode_utf8("Custom:"@) + e.skip(1)
    } else if e.len() < 2 {
        Seq::empty()
    } else if e[0] == 0 {
        encode_utf8(adjacency_label(e[1]))
    } else if e[0] == 1 {
        encode_utf8("Hierarchy"@)
    } else if e[0] == 2 {
        encode_utf8("Dependency"@)
    } else if e[0] == 3 {
        encode_utf8("Equivalence"@)
    } else {
        Seq::empty()
    }
}

/// Compute a relation's kind label.
pub fn relation_kind_label(r: &StructuralRelation) -> (l: Vec<u8>)
    ensures
        l@ == kind_label_bytes(relation_encoding(r)),
{
    let mut out: Vec<u8> = Vec::new();
    match r {
        StructuralRelation::Adjacency { relation_type, weight, metadata } => {
            match relation_type {
                AdjacencyType::Euclidean(_) => push_str_bytes(&mut out, "Adjacency:Euclidean"),
                AdjacencyType::Manhattan(_) => push_str_bytes(&mut out, "Adjacency:Manhattan"),
                AdjacencyType::Grid(_) => push_str_bytes(&mut out, "Adjacency:Grid"),
                AdjacencyType::Graph => push_str_bytes(&mut out, "Adjacency:Graph"),
                AdjacencyType::Spatiotemporal => push_str_bytes(
                    &mut out,
                    "Adjacency:Spatiotemporal",
                ),
                AdjacencyType::Conceptual => push_str_bytes(&mut out, "Adjacency:Conceptual"),
            }
            proof {
                let e = relation_encoding(r);
                assert(e[0] == 0u8);
                assert(e[1] == adjacency_type_encoding(relation_type)[0]);
                assert(out@ =~= kind_label_bytes(e));
            }
        },
        StructuralRelation::Hierarchy { .. } => {
            push_str_bytes(&mut out, "Hierarchy");
            proof {
                let e = relation_encoding(r);
                assert(e[1] == (e.drop_first())[0]);
                assert(out@ =~= kind_label_bytes(e));
            }
        },
        StructuralRelation::Dependency { .. } => {
            push_str_bytes(&mut out, "Dependency");
            proof {
                let e = relation_encoding(r);
                assert(e[1] == (e.drop_first())[0]);
                assert(out@ =~= kind_label_bytes(e));
            }
        },
        StructuralRelation::Equivalence { .. } => {
            push_str_bytes(&mut out, "Equivalence");
            proof {
                let e = relation_encoding(r);
                assert(e[1] == (e.drop_first())[0]);
                assert(out@ =~= kind_label_bytes(e));
            }
        },
        StructuralRelation::Custom { name } => {
            push_str_bytes(&mut out, "Custom:");
            push_str_bytes(&mut out, name.as_str());
            proof {
                let e = relation_encoding(r);
                assert(e[0] == 4u8);
                assert(e.skip(1) =~= encode_utf8(name@));
                assert(out@ =~= kind_label_bytes(e));
            }
        },
    }
    out
}

/// Whether a relation's kind label holds the filter text; no filter matches
/// everything.
pub open spec fn kind_matches(e: Seq<u8>, filter: Option<Seq<char>>) -> bool {
    match filter {
        None => true,
        Some(f) => contains_subrange(kind_label_bytes(e), encode_utf8(f)),
    }
}

/// The outgoing edges of `from` whose kind label holds the filter text, as
/// (target identity, relation encoding) pairs in declaration order.
pub open spec fn outgoing_matching(
    edges: Seq<EdgeView>,
    from: Seq<u8>,
    filter: Option<Seq<char>>,
) -> Seq<(Seq<u8>, Seq<u8>)> {
    edges.filter(|e: EdgeView| e.0 == from && kind_matches(e.2, filter)).map_values(
        |e: EdgeView| (e.1, e.2),
    )
}

impl RelationGraph {
    /// The outgoing relations of a segment whose kind label holds the
    /// filter text, as (target, relation) pairs in declaration order.
    pub fn get_outgoing_matching(
        &self,
        from: &SegmentId,
        relation_filter: Option<&str>,
    ) -> (r: Vec<(SegmentId, StructuralRelation)>)
        ensures
            r@.map_values(|p: (SegmentId, StructuralRelation)| (p.0@, relation_encoding(&p.1)))
                == outgoing_matching(
                self@,
                from@,
                match relation_filter {
                    None => None::<Seq<char>>,
                    Some(f) => Some(f@),
                },
            ),
    {
        let ghost fview = match relation_filter {
            None => None::<Seq<char>>,
            Some(f) => Some(f@),
        };
        let ghost pred = |e: EdgeView| e.0 == from@ && kind_matches(e.2, fview);
        let n = self.edges.len();
        let mut out: Vec<(SegmentId, StructuralRelation)> = Vec::new();
        proof {
            assert(self@.take(0) =~= Seq::<EdgeView>::empty());
            assert(out@.map_values(
                |p: (SegmentId, StructuralRelation)| (p.0@, relation_encoding(&p.1)),
            ) =~= outgoing_matching(self@.take(0), from@, fview));
        }
        let mut i: usize = 0;
        while i < n
            invariant
                n == self.edges@.len(),
                self@.len() == n,
                i <= n,
                fview == (match relation_filter {
                    None => None::<Seq<char>>,
                    Some(f) => Some(f@),
                }),
                pred == (|e: EdgeView| e.0 == from@ && kind_matches(e.2, fview)),
                out@.map_values(
                    |p: (SegmentId, StructuralRelation)| (p.0@, relation_encoding(&p.1)),
                ) == outgoing_matching(self@.take(i as int), from@, fview),
            decreases n - i,
        {
            proof {
                assert(self@[i as int] == (
                    self.edges@[i as int].0@,
                    self.edges@[i as int].1@,
                    relation_encoding(&self.edges@[i as int].2),
                ));
                assert(self@.take(i + 1) =~= self@.take(i as int).push(self@[i as int]));
                self@.take(i as int).lemma_filter_push(
                    self@[i as int],
                    |e: EdgeView| e.0 == from@ && kind_matches(e.2, fview),
                );
            }
            let e = &self.edges[i];
            let keep = if e.0 == *from {
                match relation_filter {
                    None => true,
                    Some(f) => {
                        let label = relation_kind_label(&e.2);
                        contains_subslice(label.as_slice(), f.as_bytes())
                    },
                }
            } else {
                false
            };
            if keep {
                let ghost prev = out@;
                out.push((e.1, dup_relation(&e.2)));
                proof {
                    assert(pred(self@[i as int]));
                    prev.lemma_push_map_commute(
                        |p: (SegmentId, StructuralRelation)| (p.0@, relation_encoding(&p.1)),
                        out@.last(),
                    );
                    self@.take(i as int).filter(
                        |e: EdgeView| e.0 == from@ && kind_matches(e.2, fview),
                    ).lemma_push_map_commute(|e: EdgeView| (e.1, e.2), self@[i as int]);
                    assert(out@.map_values(
                        |p: (SegmentId, StructuralRelation)| (p.0@, relation_encoding(&p.1)),
                    ) =~= outgoing_matching(self@.take(i + 1), from@, fview));
                }
            } else {
                proof {
                    assert(!pred(self@[i as int]));
                    assert(out@.map_values(
                        |p: (SegmentId, StructuralRelation)| (p.0@, relation_encoding(&p.1)),
                    ) =~= outgoing_matching(self@.take(i + 1), from@, fview));
                }
            }
            i += 1;
        }
        proof {
            assert(self@.take(n as int) =~= self@);
        }
        out
    }
}

} // verus!
