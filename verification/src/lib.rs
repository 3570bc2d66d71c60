//! A content-addressed state-space core: opaque integer coordinates, points
//! with cryptographic identities, constraint-gated observation, and bounded
//! exploration of transition graphs.

pub mod arith;
pub mod canonical;
pub mod constrainable;
pub mod constraint;
pub mod coords;
pub mod field;
pub mod identity;
pub mod layout;
pub mod observe;
pub mod parser;
pub mod pipeline;
pub mod projector;
pub mod relation;
pub mod represent;
pub mod scheme;
pub mod scheme_impl;
pub mod statefield;
pub mod statespace;
pub mod templates;
pub mod text;

pub use arith::{ArithmeticConstraint, ArithmeticSpace, Branching};
pub use constrainable::ConstrainableStateSpace;
pub use constraint::{Constraint, ConstraintKind, ConstraintSet, EvenConstraint, MultipleOfConstraint, PositiveConstraint, RangeConstraint};
pub use coords::SpaceCoordinates;
pub use field::{Field, TransitionMatrix};
pub use identity::{Segment, SegmentId, segment_id_from_coords};
pub use observe::{observe, possible_next_coordinates, ValueObserver};
pub use projector::{ArithmeticProjector, BooleanProjector, ConstraintSatisfactionProjector, CoordinateProjector, IntegerProjector, MultiAxisProjector, ParityProjector, Projector, RangeProjector};
pub use represent::{GrowthType, Magnitude, NextValues, OperationType, Representation};
pub use scheme::{Axis, AxisType, DimensionType, Scheme, SchemeBuilder, SchemeId};
pub use statespace::{explore_states, project_space, observe_space, observe_transitions, StateSpace};
