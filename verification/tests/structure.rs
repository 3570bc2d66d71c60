//! Content identity, schemes, composition, layout, the binary container
//! header, and the compilation pipeline.

use quasar::identity::segment_id_from_coords;
use quasar::layout::{hilbert_encode, z_order_encode, MemoryLayout};
use quasar::parser::{parse, ParseError};
use quasar::pipeline::{CompilerPipeline, HardwareProfile, HardwareResource};
use quasar::relation::{AdjacencyType, GridDirection, GridTopology, StructuralRelation};
use quasar::scheme_impl::{
    CombinationMethod, CompositeScheme, CompositionRules, ConflictResolution, Matrix,
    SchemeImpl, SchemeTrait, TransformType, Transformation, TransformedScheme,
};
use quasar::ConstrainableStateSpace;
use quasar::scheme::{ConstraintType, StructuralConstraint};
use quasar::templates::{Grid2DScheme, Grid2DTemplate, GraphTemplate, IntegerLineScheme, IntegerLineTemplate};
use quasar::{ConstraintKind, EvenConstraint, RangeConstraint};
use quasar::{Axis, AxisType, Scheme, SchemeBuilder, Segment, SpaceCoordinates};

fn axis(name: &str) -> Axis {
    Axis { name: String::from(name), axis_type: AxisType::Discrete, range: None }
}

fn ranged_axis(name: &str, min: i64, max: i64) -> Axis {
    Axis { name: String::from(name), axis_type: AxisType::Discrete, range: Some((min, max)) }
}

#[test]
fn identity_is_deterministic() {
    let c = SpaceCoordinates::new(vec![1, 2, 3]);
    let id1 = segment_id_from_coords(&c);
    let id2 = segment_id_from_coords(&SpaceCoordinates::new(vec![1, 2, 3]));
    assert_eq!(id1.as_bytes(), id2.as_bytes());

    // The identity is the digest of the little-endian component encoding.
    let mut bytes = Vec::new();
    for v in [1i64, 2, 3] {
        bytes.extend_from_slice(&v.to_le_bytes());
    }
    let expected = blake3::hash(&bytes);
    assert_eq!(id1.as_bytes(), expected.as_bytes());

    // Different coordinates give different identities.
    let other = segment_id_from_coords(&SpaceCoordinates::new(vec![3, 2, 1]));
    assert_ne!(id1.as_bytes(), other.as_bytes());
}

#[test]
fn identity_hex_matches_bytes() {
    let seg = Segment::from_value(42);
    assert_eq!(seg.id().to_hex(), hex::encode(seg.id().as_bytes()));
    assert_eq!(seg.id().to_hex().len(), 64);
}

#[test]
fn builder_order_does_not_change_identity() {
    let a = Segment::from_value(1);
    let b = Segment::from_value(2);
    let c = Segment::from_values(vec![7, 8]);

    let s1 = SchemeBuilder::new()
        .add_axis(axis("x"))
        .add_segment(a.duplicate())
        .add_segment(b.duplicate())
        .add_relation(
            *a.id(),
            *b.id(),
            StructuralRelation::Adjacency {
                relation_type: AdjacencyType::Graph,
                weight: Some(1),
                metadata: Vec::new(),
            },
        )
        .add_relation(
            *b.id(),
            *c.id(),
            StructuralRelation::Adjacency {
                relation_type: AdjacencyType::Graph,
                weight: Some(2),
                metadata: Vec::new(),
            },
        )
        .build();

    let s2 = SchemeBuilder::new()
        .add_axis(axis("x"))
        .add_segment(b.duplicate())
        .add_segment(a.duplicate())
        .add_relation(
            *b.id(),
            *c.id(),
            StructuralRelation::Adjacency {
                relation_type: AdjacencyType::Graph,
                weight: Some(2),
                metadata: Vec::new(),
            },
        )
        .add_relation(
            *a.id(),
            *b.id(),
            StructuralRelation::Adjacency {
                relation_type: AdjacencyType::Graph,
                weight: Some(1),
                metadata: Vec::new(),
            },
        )
        .build();

    assert_eq!(s1.id().as_bytes(), s2.id().as_bytes());

    // Axis order is part of the identity, so renaming the axis changes it.
    let s3 = SchemeBuilder::new().add_axis(axis("y")).add_segment(a.duplicate()).build();
    assert_ne!(s1.id().as_bytes(), s3.id().as_bytes());
}

fn simple_scheme(v: i64) -> Scheme {
    SchemeBuilder::new().add_axis(axis("x")).add_segment(Segment::from_value(v)).build()
}

fn union_rules() -> CompositionRules {
    CompositionRules {
        combination_method: CombinationMethod::Union,
        alignment: None,
        conflict_resolution: ConflictResolution::FirstWins,
    }
}

#[test]
fn composite_identity_ignores_component_order() {
    let ab = CompositeScheme::new(vec![simple_scheme(1), simple_scheme(2)], union_rules());
    let ba = CompositeScheme::new(vec![simple_scheme(2), simple_scheme(1)], union_rules());
    assert_eq!(ab.id().as_bytes(), ba.id().as_bytes());

    // A different combination method gives a different identity.
    let other = CompositeScheme::new(
        vec![simple_scheme(1), simple_scheme(2)],
        CompositionRules {
            combination_method: CombinationMethod::Intersection,
            alignment: None,
            conflict_resolution: ConflictResolution::FirstWins,
        },
    );
    assert_ne!(ab.id().as_bytes(), other.id().as_bytes());
}

#[test]
fn composite_delegates_lookups() {
    let composite = CompositeScheme::new(
        vec![simple_scheme(1), simple_scheme(2)],
        union_rules(),
    );
    let one = Segment::from_value(1);
    let three = Segment::from_value(3);
    assert!(composite.contains_segment(one.id()));
    assert!(!composite.contains_segment(three.id()));
    assert!(composite.get_segment(one.id()).is_some());
    assert!(composite.get_segment(three.id()).is_none());
    assert!(composite.map_to_logical_address(&SpaceCoordinates::new(vec![1])).is_none());
    assert_eq!(composite.describe(), "CompositeScheme with 2 components");
}

#[test]
fn transformed_identity_follows_base_and_transform() {
    let t1 = TransformedScheme::new(
        Box::new(simple_scheme(1)),
        Transformation {
            transform_type: TransformType::Translation(vec![5]),
            parameters: Vec::new(),
        },
    );
    let t2 = TransformedScheme::new(
        Box::new(simple_scheme(1)),
        Transformation {
            transform_type: TransformType::Translation(vec![5]),
            parameters: Vec::new(),
        },
    );
    assert_eq!(t1.id().as_bytes(), t2.id().as_bytes());

    let t3 = TransformedScheme::new(
        Box::new(simple_scheme(1)),
        Transformation {
            transform_type: TransformType::Scaling(vec![5]),
            parameters: Vec::new(),
        },
    );
    assert_ne!(t1.id().as_bytes(), t3.id().as_bytes());

    // Parameter order does not change the identity.
    let p1 = TransformedScheme::new(
        Box::new(simple_scheme(1)),
        Transformation {
            transform_type: TransformType::DimensionalReduction,
            parameters: vec![
                (String::from("a"), String::from("1")),
                (String::from("b"), String::from("2")),
            ],
        },
    );
    let p2 = TransformedScheme::new(
        Box::new(simple_scheme(1)),
        Transformation {
            transform_type: TransformType::DimensionalReduction,
            parameters: vec![
                (String::from("b"), String::from("2")),
                (String::from("a"), String::from("1")),
            ],
        },
    );
    assert_eq!(p1.id().as_bytes(), p2.id().as_bytes());
}

#[test]
fn transformed_coordinates_translate_and_scale() {
    let t = TransformedScheme::new(
        Box::new(simple_scheme(1)),
        Transformation {
            transform_type: TransformType::Translation(vec![10, -3]),
            parameters: Vec::new(),
        },
    );
    let moved = t.transform_coordinates(&SpaceCoordinates::new(vec![1, 2, 3])).unwrap();
    assert_eq!(moved.raw, vec![11, -1, 3]);

    let s = TransformedScheme::new(
        Box::new(simple_scheme(1)),
        Transformation {
            transform_type: TransformType::Scaling(vec![2, 3]),
            parameters: Vec::new(),
        },
    );
    let scaled = s.transform_coordinates(&SpaceCoordinates::new(vec![4, 5, 6])).unwrap();
    assert_eq!(scaled.raw, vec![8, 15, 6]);

    let overflow = s.transform_coordinates(&SpaceCoordinates::new(vec![i64::MAX, 1]));
    assert!(overflow.is_none());

    let rotation = TransformedScheme::new(
        Box::new(simple_scheme(1)),
        Transformation {
            transform_type: TransformType::Rotation(Matrix::new(vec![vec![0, 1], vec![1, 0]])),
            parameters: Vec::new(),
        },
    );
    let kept = rotation.transform_coordinates(&SpaceCoordinates::new(vec![9, 9])).unwrap();
    assert_eq!(kept.raw, vec![9, 9]);
}

#[test]
fn memory_layout_mappings() {
    let grid = SchemeBuilder::new()
        .add_axis(ranged_axis("row", 0, 9))
        .add_axis(ranged_axis("col", 0, 9))
        .set_memory_layout(MemoryLayout::RowMajor)
        .build();
    assert_eq!(grid.map_to_memory(&SpaceCoordinates::new(vec![3, 5])), Some(35));

    let col = SchemeBuilder::new()
        .add_axis(ranged_axis("row", 0, 9))
        .add_axis(ranged_axis("col", 0, 9))
        .set_memory_layout(MemoryLayout::ColumnMajor)
        .build();
    assert_eq!(col.map_to_memory(&SpaceCoordinates::new(vec![3, 5])), Some(53));

    let linear = SchemeBuilder::new()
        .add_axis(axis("a"))
        .add_axis(axis("b"))
        .add_axis(axis("c"))
        .set_memory_layout(MemoryLayout::Linear)
        .build();
    assert_eq!(linear.map_to_memory(&SpaceCoordinates::new(vec![10, 20, 30])), Some(60));
    assert_eq!(linear.map_to_memory(&SpaceCoordinates::new(vec![10, -1])), None);

    // A row-major mapping needs two axes.
    assert_eq!(grid.map_to_memory(&SpaceCoordinates::new(vec![3])), None);

    let addr = linear
        .map_to_logical_address(&SpaceCoordinates::new(vec![10, 20, 30]))
        .unwrap();
    assert_eq!(addr.space_id, 0);
    assert_eq!(addr.offset, 60);
}

#[test]
fn space_filling_curves() {
    assert_eq!(hilbert_encode(&vec![3, 5]), 39);
    assert_eq!(hilbert_encode(&vec![7]), 0);
    assert_eq!(z_order_encode(&vec![1]), 1);
    assert_eq!(z_order_encode(&vec![2, 3]), 26);
}

#[test]
fn grid_scheme_holds_all_cells() {
    let scheme = Grid2DScheme::new(5, 5).to_scheme();
    assert_eq!(scheme.segments().len(), 25);
    assert_eq!(scheme.dimensionality(), 2);

    let probe = Segment::from_values(vec![2, 2]);
    assert!(scheme.contains_segment(probe.id()));
    assert_eq!(scheme.map_to_memory(&SpaceCoordinates::new(vec![2, 2])), Some(2 * 5 + 2));

    let outside = Segment::from_values(vec![9, 9]);
    assert!(!scheme.contains_segment(outside.id()));
}

#[test]
fn integer_line_scheme_holds_all_values() {
    let scheme = IntegerLineScheme::new(-5, 5).to_scheme();
    assert_eq!(scheme.segments().len(), 11);
    let probe = Segment::from_value(0);
    assert!(scheme.contains_segment(probe.id()));
    let outside = Segment::from_value(6);
    assert!(!scheme.contains_segment(outside.id()));
}

#[test]
fn integer_line_template_steps() {
    let scheme = IntegerLineTemplate::new(0, 10, 3).build();
    // 0, 3, 6, 9
    assert_eq!(scheme.segments().len(), 4);
    assert!(scheme.contains_segment(Segment::from_value(9).id()));
    assert!(!scheme.contains_segment(Segment::from_value(10).id()));
}

#[test]
fn scheme_description_counts_parts() {
    let scheme = simple_scheme(1);
    let text = scheme.describe();
    assert!(text.starts_with("Scheme "));
    assert!(text.ends_with(" with 1 dimensions, 1 segments, 0 relations"));
}

#[test]
fn test_parse_dummy() {
    let mut data = vec![];
    data.extend_from_slice(b".ss\0");
    data.push(1);

    let result = parse(&data);
    assert!(result.is_ok());
}

#[test]
fn test_parse_invalid_magic() {
    let data = vec![0u8; 10];
    let result = parse(&data);
    assert!(matches!(result, Err(ParseError::InvalidMagic)));
}

#[test]
fn parse_rejects_bad_headers() {
    assert!(matches!(parse(&[0x2e, 0x73]), Err(ParseError::Truncated)));
    assert!(matches!(
        parse(&[0x2e, 0x73, 0x73, 0x00, 9]),
        Err(ParseError::UnsupportedVersion(9))
    ));
    assert_eq!(
        ParseError::UnsupportedVersion(9).describe(),
        "unsupported version: 9"
    );

    let scheme = parse(&[0x2e, 0x73, 0x73, 0x00, 1]).unwrap();
    assert_eq!(scheme.dimensionality(), 1);
    assert!(scheme.contains_segment(Segment::from_value(0).id()));
}

#[test]
fn pipeline_places_round_robin() {
    let scheme = IntegerLineScheme::new(0, 4).to_scheme();
    let compiled = CompilerPipeline::new(scheme, HardwareProfile::Cpu { cores: 2 }).compile();

    assert_eq!(compiled.logical_addresses.len(), 5);
    assert_eq!(compiled.hardware_placement.len(), 5);
    for (i, (_, resource)) in compiled.hardware_placement.iter().enumerate() {
        assert_eq!(*resource, HardwareResource::CpuCore(i % 2));
    }
    assert!(compiled.observation_code.is_empty());

    let scheme = IntegerLineScheme::new(0, 4).to_scheme();
    let custom = CompilerPipeline::new(
        scheme,
        HardwareProfile::Custom(String::from("experimental fabric")),
    )
    .compile();
    assert_eq!(custom.logical_addresses.len(), 5);
    assert!(custom.hardware_placement.is_empty());
}

#[test]
fn scheme_shapes_share_one_read_contract() {
    let one = Segment::from_value(1);
    let shapes: Vec<SchemeImpl> = vec![
        SchemeImpl::Basic(simple_scheme(1)),
        SchemeImpl::Composite(CompositeScheme::new(
            vec![simple_scheme(1), simple_scheme(2)],
            union_rules(),
        )),
        SchemeImpl::Transformed(TransformedScheme::new(
            Box::new(simple_scheme(1)),
            Transformation {
                transform_type: TransformType::DimensionalExpansion,
                parameters: Vec::new(),
            },
        )),
    ];
    for shape in &shapes {
        assert_eq!(shape.id().as_bytes().len(), 32);
        assert!(shape.contains_segment(one.id()));
        assert!(!shape.describe().is_empty());
    }
    assert_eq!(shapes[0].dimensionality(), 1);
    assert_eq!(shapes[1].dimensionality(), 0);
    assert_eq!(shapes[2].dimensionality(), 1);
}

#[test]
fn grid_directions_name_topologies() {
    assert!(matches!(
        GridDirection::FourConnected.to_topology(),
        GridTopology::FourConnected
    ));
    assert!(matches!(
        GridDirection::EightConnected.to_topology(),
        GridTopology::EightConnected
    ));
    assert!(matches!(GridDirection::Hexagonal.to_topology(), GridTopology::Hexagonal));
}

#[test]
fn constrainable_states_are_immutable_sets() {
    let s1: ConstrainableStateSpace<i64, &str> = ConstrainableStateSpace::new(3);
    assert_eq!(s1.constraints.len(), 0);

    let s2 = s1.with_constraint("positive");
    assert_eq!(s2.value, 3);
    assert_eq!(s2.constraints.len(), 1);

    let s3 = s2.with_constraint("positive");
    assert_eq!(s3.constraints.len(), 1, "a repeated constraint collapses");

    let s4 = s3.with_constraints(vec!["even", "positive", "small"]);
    assert_eq!(s4.constraints.len(), 3);
}

#[test]
fn grid_template_builds_all_cells() {
    let scheme = Grid2DTemplate::new(3, 2, GridTopology::FourConnected).build();
    assert_eq!(scheme.segments().len(), 6);
    assert_eq!(scheme.dimensionality(), 2);
    assert!(scheme.contains_segment(Segment::from_values(vec![2, 1]).id()));
}

#[test]
fn graph_template_builds_nodes_and_edges() {
    let nodes = vec![vec![0, 0], vec![1, 0], vec![0, 1]];
    let edges = vec![(0usize, 1usize, 1i64), (0, 2, 1), (7, 0, 1)];
    let scheme = GraphTemplate::new(nodes, edges).build();

    assert_eq!(scheme.dimensionality(), 2);
    assert_eq!(scheme.segments().len(), 3);

    let origin = Segment::from_values(vec![0, 0]);
    let right = Segment::from_values(vec![1, 0]);
    let up = Segment::from_values(vec![0, 1]);
    assert!(scheme.contains_segment(origin.id()));

    // Two valid edges leave the origin; the edge with an invalid index is
    // dropped.
    let neighbors = scheme.neighbors_of(origin.id());
    assert_eq!(neighbors.len(), 2);
    assert!(neighbors.iter().any(|id| id.as_bytes() == right.id().as_bytes()));
    assert!(neighbors.iter().any(|id| id.as_bytes() == up.id().as_bytes()));
    assert_eq!(scheme.get_relations_between(origin.id(), right.id()).len(), 1);
    assert_eq!(scheme.get_relations_between(right.id(), origin.id()).len(), 0);
}

#[test]
fn validate_structure_reports_first_violation() {
    let scheme = SchemeBuilder::new()
        .add_axis(axis("x"))
        .add_structural_constraint(StructuralConstraint::new(
            ConstraintKind::Range(RangeConstraint::new(0, 0, 10)),
            ConstraintType::Dimensional,
        ))
        .add_structural_constraint(StructuralConstraint::new(
            ConstraintKind::Even(EvenConstraint::new(0)),
            ConstraintType::Algebraic,
        ))
        .build();

    assert!(scheme.validate_structure(&SpaceCoordinates::new(vec![4])).is_ok());
    assert_eq!(
        scheme.validate_structure(&SpaceCoordinates::new(vec![15])),
        Err(String::from("axis[0] in [0, 10]"))
    );
    assert_eq!(
        scheme.validate_structure(&SpaceCoordinates::new(vec![3])),
        Err(String::from("axis[0] is even"))
    );
    assert!(scheme.structural_constraints_satisfied(&SpaceCoordinates::new(vec![4])));
    assert!(!scheme.structural_constraints_satisfied(&SpaceCoordinates::new(vec![3])));
}

#[test]
fn structural_neighbors_filter_by_kind() {
    let a = Segment::from_value(1);
    let b = Segment::from_value(2);
    let c = Segment::from_value(3);
    let scheme = SchemeBuilder::new()
        .add_axis(axis("x"))
        .add_segment(a.duplicate())
        .add_segment(b.duplicate())
        .add_segment(c.duplicate())
        .add_relation(
            *a.id(),
            *b.id(),
            StructuralRelation::Adjacency {
                relation_type: AdjacencyType::Manhattan(1),
                weight: None,
                metadata: Vec::new(),
            },
        )
        .add_relation(
            *a.id(),
            *c.id(),
            StructuralRelation::Custom { name: String::from("mirrors") },
        )
        .build();

    assert_eq!(scheme.neighbors_of(a.id()).len(), 2);
    assert_eq!(scheme.structural_neighbors(a.id(), None).len(), 2);
    assert_eq!(scheme.structural_neighbors(a.id(), Some("Manhattan")).len(), 1);
    assert_eq!(scheme.structural_neighbors(a.id(), Some("Adjacency")).len(), 1);
    assert_eq!(scheme.structural_neighbors(a.id(), Some("mirrors")).len(), 1);
    assert_eq!(scheme.structural_neighbors(a.id(), Some("Hierarchy")).len(), 0);
    assert_eq!(scheme.structural_neighbors(b.id(), None).len(), 0);
}
