//! Ready-made scheme shapes: a two-dimensional grid, a one-dimensional
//! integer line, and an arbitrary graph of nodes and weighted edges.

use vstd::prelude::*;
use crate::identity::{spec_segment_id, Segment, SegmentId};
use crate::layout::MemoryLayout;
use crate::relation::{AdjacencyType, GridTopology, StructuralRelation};
use crate::scheme::{
    segment_id_views, Axis, AxisType, ObservationRules, ProjectionFormat, ResolutionStrategy,
    Scheme, SchemeBuilder,
};

verus! {

/// The coordinates of one grid column `x`, for `y` below `h`.
pub open spec fn grid_row_coords(x: i64, h: int) -> Seq<Seq<i64>>
    decreases h,
{
    if h <= 0 {
        Seq::empty()
    } else {
        grid_row_coords(x, h - 1).push(seq![x, (h - 1) as i64])
    }
}

/// The coordinates of a grid with `w` columns of height `h`, column by
/// column.
pub open spec fn grid_coords(w: int, h: int) -> Seq<Seq<i64>>
    decreases w,
{
    if w <= 0 || h <= 0 {
        Seq::empty()
    } else {
        grid_coords(w - 1, h) + grid_row_coords((w - 1) as i64, h)
    }
}

/// A two-dimensional grid of segments, one per cell.
pub struct Grid2DScheme {
    width: i64,
    height: i64,
    segments: Vec<Segment>,
}

impl Grid2DScheme {
    /// The grid width.
    pub closed spec fn spec_width(&self) -> i64 {
        self.width
    }

    /// The grid height.
    pub closed spec fn spec_height(&self) -> i64 {
        self.height
    }

    /// The grid's segments, column by column.
    pub closed spec fn spec_grid_segments(&self) -> Seq<Segment> {
        self.segments@
    }

    /// Create one segment per grid cell, column by column.
    pub fn new(width: i64, height: i64) -> (r: Self)
        requires
            width >= 0,
            height >= 0,
        ensures
            r.spec_width() == width,
            r.spec_height() == height,
            r.spec_grid_segments().map_values(|s: Segment| s@) == grid_coords(
                width as int,
                height as int,
            ),
            forall|j: int|
                0 <= j < r.spec_grid_segments().len() ==> (#[trigger] r.spec_grid_segments()[j])
                    .wf(),
    {
        let mut segments: Vec<Segment> = Vec::new();
        let mut x: i64 = 0;
        proof {
            assert(segments@.map_values(|s: Segment| s@) =~= grid_coords(0, height as int));
        }
        while x < width
            invariant
                height >= 0,
                0 <= x <= width,
                segments@.map_values(|s: Segment| s@) == grid_coords(x as int, height as int),
                forall|j: int| 0 <= j < segments@.len() ==> (#[trigger] segments@[j]).wf(),
            decreases width - x,
        {
            let mut y: i64 = 0;
            proof {
                assert(grid_row_coords(x, 0) =~= Seq::<Seq<i64>>::empty());
                assert(segments@.map_values(|s: Segment| s@) =~= grid_coords(x as int, height as int)
                    + grid_row_coords(x, 0));
            }
            while y < height
                invariant
                    0 <= x < width,
                    0 <= y <= height,
                    segments@.map_values(|s: Segment| s@) == grid_coords(x as int, height as int)
                        + grid_row_coords(x, y as int),
                    forall|j: int| 0 <= j < segments@.len() ==> (#[trigger] segments@[j]).wf(),
                decreases height - y,
            {
                let ghost prev = segments@;
                let seg = Segment::from_values(vec![x, y]);
                proof {
                    assert(seg@ =~= seq![x, y]);
                }
                segments.push(seg);
                proof {
                    prev.lemma_push_map_commute(|s: Segment| s@, segments@.last());
                    assert(segments@.map_values(|s: Segment| s@) =~= grid_coords(
                        x as int,
                        height as int,
                    ) + grid_row_coords(x, y + 1));
                }
                y += 1;
            }
            proof {
                assert(grid_coords(x + 1, height as int) =~= grid_coords(x as int, height as int)
                    + grid_row_coords(x, height as int));
            }
            x += 1;
        }
        Self { width, height, segments }
    }

    /// Freeze the grid into a scheme: two discrete axes bounded by the grid
    /// size, row-major layout, and one segment per cell.
    pub fn to_scheme(self) -> (r: Scheme)
        ensures
            r.spec_axes().len() == 2,
            r.spec_axes()[0].name@ == "x"@,
            r.spec_axes()[1].name@ == "y"@,
            r.spec_layout() == MemoryLayout::RowMajor,
            forall|j: int|
                0 <= j < self.spec_grid_segments().len() ==> segment_id_views(
                    r.spec_segments(),
                ).contains((#[trigger] self.spec_grid_segments()[j]).spec_id()),
            forall|j: int|
                0 <= j < r.spec_segments().len() ==> segment_id_views(
                    self.spec_grid_segments(),
                ).contains((#[trigger] r.spec_segments()[j]).spec_id()),
            r.wf(),
    {
        let width = self.width;
        let height = self.height;
        let builder = SchemeBuilder::new().add_axis(
            Axis {
                name: String::from_str("x"),
                axis_type: AxisType::Discrete,
                range: Some((0, if width > 0 { width - 1 } else { 0 })),
            },
        ).add_axis(
            Axis {
                name: String::from_str("y"),
                axis_type: AxisType::Discrete,
                range: Some((0, if height > 0 { height - 1 } else { 0 })),
            },
        ).set_memory_layout(MemoryLayout::RowMajor).set_observation_rules(
            ObservationRules {
                resolution_strategy: ResolutionStrategy::Deterministic(
                    String::from_str("grid-nearest"),
                ),
                triggers: vec![crate::scheme::ObservationTrigger::OnDemand],
                priority: crate::scheme::ObservationPriority::Normal,
                context: crate::scheme::ObservationContext::default(),
                projection_format: ProjectionFormat::Coordinates,
            },
        );
        let builder = builder.add_segments(self.segments);
        builder.build()
    }
}

/// The values of an arithmetic progression from `start` to at most `end`,
/// stepping by `step`.
pub open spec fn progression(start: int, end: int, step: int) -> Seq<i64>
    recommends
        step >= 1,
    decreases end + 1 - start,
    when step >= 1
{
    if start > end || start < i64::MIN || start > i64::MAX {
        Seq::empty()
    } else {
        seq![start as i64] + progression(next_start(start, end, step), end, step)
    }
}

/// The next progression start, clamped just past the end.
pub open spec fn next_start(start: int, end: int, step: int) -> int {
    if start + step <= end {
        start + step
    } else {
        end + 1
    }
}

/// A one-dimensional line of integer segments.
pub struct IntegerLineScheme {
    start: i64,
    end: i64,
}

impl IntegerLineScheme {
    /// Where the line starts.
    pub closed spec fn spec_start(&self) -> i64 {
        self.start
    }

    /// Where the line ends.
    pub closed spec fn spec_end(&self) -> i64 {
        self.end
    }

    pub fn new(start: i64, end: i64) -> (r: Self)
        ensures
            r.spec_start() == start,
            r.spec_end() == end,
    {
        Self { start, end }
    }

    /// Freeze the line into a scheme: one discrete axis bounded by the
    /// line, linear layout, and one segment per integer value on the line.
    pub fn to_scheme(self) -> (r: Scheme)
        ensures
            r.spec_axes().len() == 1,
            r.spec_axes()[0].name@ == "value"@,
            r.spec_layout() == MemoryLayout::Linear,
            forall|v: i64|
                self.spec_start() <= v <= self.spec_end() ==> segment_id_views(
                    r.spec_segments(),
                ).contains(#[trigger] spec_segment_id(seq![v])),
            r.wf(),
    {
        let start = self.start;
        let end = self.end;
        let mut segments: Vec<Segment> = Vec::new();
        if start <= end {
            let mut v: i64 = start;
            let ghost done: Seq<i64> = Seq::empty();
            proof {
                assert(forall|w: i64|
                    #![trigger spec_segment_id(seq![w])]
                    start <= w < v ==> exists|j: int|
                        0 <= j < segments@.len() && (#[trigger] segments@[j]).spec_id()
                            == spec_segment_id(seq![w]));
            }
            loop
                invariant
                    start <= v <= end,
                    forall|w: i64|
                        #![trigger spec_segment_id(seq![w])]
                        start <= w < v ==> exists|j: int|
                            0 <= j < segments@.len() && (#[trigger] segments@[j]).spec_id()
                                == spec_segment_id(seq![w]),
                ensures
                    forall|w: i64|
                        #![trigger spec_segment_id(seq![w])]
                        start <= w <= end ==> exists|j: int|
                            0 <= j < segments@.len() && (#[trigger] segments@[j]).spec_id()
                                == spec_segment_id(seq![w]),
                decreases end - v,
            {
                let seg = Segment::from_value(v);
                proof {
                    assert(seg.spec_id() == spec_segment_id(seq![v]));
                }
                let ghost prev = segments@;
                segments.push(seg);
                proof {
                    assert(segments@[segments@.len() - 1].spec_id() == spec_segment_id(seq![v]));
                    assert forall|w: i64|
                        #![trigger spec_segment_id(seq![w])]
                        start <= w < v + 1 implies exists|j: int|
                        0 <= j < segments@.len() && (#[trigger] segments@[j]).spec_id()
                            == spec_segment_id(seq![w]) by {
                        if w < v {
                            let j = choose|j: int|
                                0 <= j < prev.len() && (#[trigger] prev[j]).spec_id()
                                    == spec_segment_id(seq![w]);
                            assert(segments@[j].spec_id() == spec_segment_id(seq![w]));
                        } else {
                            assert(segments@[segments@.len() - 1].spec_id() == spec_segment_id(
                                seq![w],
                            ));
                        }
                    }
                }
                if v == end {
                    break;
                }
                v += 1;
            }
        }
        let builder = SchemeBuilder::new().add_axis(
            Axis {
                name: String::from_str("value"),
                axis_type: AxisType::Discrete,
                range: Some((start, end)),
            },
        ).set_memory_layout(MemoryLayout::Linear);
        let ghost collected = segments@;
        let builder = builder.add_segments(segments);
        proof {
            assert forall|w: i64|
                start <= w <= end implies segment_id_views(builder.spec_segments()).contains(
                #[trigger] spec_segment_id(seq![w]),
            ) by {
                let j = choose|j: int|
                    0 <= j < collected.len() && (#[trigger] collected[j]).spec_id()
                        == spec_segment_id(seq![w]);
                assert(segment_id_views(builder.spec_segments()).contains(
                    collected[j].spec_id(),
                ));
            }
        }
        builder.build()
    }
}

/// A grid template carrying its topology, buildable into a scheme.
pub struct Grid2DTemplate {
    width: i64,
    height: i64,
    topology: GridTopology,
}

impl Grid2DTemplate {
    /// The grid width.
    pub closed spec fn spec_width(&self) -> i64 {
        self.width
    }

    /// The grid height.
    pub closed spec fn spec_height(&self) -> i64 {
        self.height
    }

    pub fn new(width: i64, height: i64, topology: GridTopology) -> (r: Self)
        ensures
            r.spec_width() == width,
            r.spec_height() == height,
    {
        Self { width, height, topology }
    }

    /// Build the grid scheme: discrete x and y axes and one segment per
    /// cell.
    pub fn build(self) -> (r: Scheme)
        requires
            self.spec_width() >= 0,
            self.spec_height() >= 0,
        ensures
            r.spec_axes().len() == 2,
            r.spec_axes()[0].name@ == "x"@,
            r.spec_axes()[1].name@ == "y"@,
            forall|j: int|
                0 <= j < grid_coords(
                    self.spec_width() as int,
                    self.spec_height() as int,
                ).len() ==> segment_id_views(r.spec_segments()).contains(
                    spec_segment_id(
                        #[trigger] grid_coords(
                            self.spec_width() as int,
                            self.spec_height() as int,
                        )[j],
                    ),
                ),
            r.wf(),
    {
        let ghost w = self.spec_width() as int;
        let ghost h = self.spec_height() as int;
        let grid = Grid2DScheme::new(self.width, self.height);
        let builder = SchemeBuilder::new().add_axis(
            Axis { name: String::from_str("x"), axis_type: AxisType::Discrete, range: None },
        ).add_axis(
            Axis { name: String::from_str("y"), axis_type: AxisType::Discrete, range: None },
        ).add_metadata(String::from_str("template"), String::from_str("grid2d"));
        let ghost collected = grid.spec_grid_segments();
        let builder = builder.add_segments(grid.segments);
        proof {
            assert forall|j: int|
                0 <= j < grid_coords(w, h).len() implies segment_id_views(
                builder.spec_segments(),
            ).contains(spec_segment_id(#[trigger] grid_coords(w, h)[j])) by {
                assert(collected.map_values(|s: Segment| s@)[j] == grid_coords(w, h)[j]);
                assert(collected[j]@ == grid_coords(w, h)[j]);
                assert(collected[j].wf());
                assert(collected[j].spec_id() == spec_segment_id(grid_coords(w, h)[j]));
                assert(segment_id_views(builder.spec_segments()).contains(
                    collected[j].spec_id(),
                ));
            }
        }
        builder.build()
    }
}

/// A line template with a step, buildable into a scheme.
pub struct IntegerLineTemplate {
    start: i64,
    end: i64,
    step: i64,
}

impl IntegerLineTemplate {
    /// Where the line starts.
    pub closed spec fn spec_start(&self) -> i64 {
        self.start
    }

    /// Where the line ends.
    pub closed spec fn spec_end(&self) -> i64 {
        self.end
    }

    /// The step between neighbouring values.
    pub closed spec fn spec_step(&self) -> i64 {
        self.step
    }

    pub fn new(start: i64, end: i64, step: i64) -> (r: Self)
        ensures
            r.spec_start() == start,
            r.spec_end() == end,
            r.spec_step() == step,
    {
        Self { start, end, step }
    }

    /// Build the line scheme: one discrete axis and one segment per value
    /// of the progression.
    pub fn build(self) -> (r: Scheme)
        requires
            self.spec_step() >= 1,
        ensures
            r.spec_axes().len() == 1,
            r.spec_axes()[0].name@ == "value"@,
            forall|j: int|
                0 <= j < progression(
                    self.spec_start() as int,
                    self.spec_end() as int,
                    self.spec_step() as int,
                ).len() ==> segment_id_views(r.spec_segments()).contains(
                    spec_segment_id(
                        seq![
                            #[trigger] progression(
                                self.spec_start() as int,
                                self.spec_end() as int,
                                self.spec_step() as int,
                            )[j],
                        ],
                    ),
                ),
            r.wf(),
    {
        let ghost st = self.spec_start() as int;
        let ghost en = self.spec_end() as int;
        let ghost sp = self.spec_step() as int;
        let mut segments: Vec<Segment> = Vec::new();
        let mut value: i64 = self.start;
        let step = self.step;
        let end = self.end;
        let ghost mut kk: int = 0;
        loop
            invariant_except_break
                0 <= kk <= progression(st, en, sp).len(),
                value as int == st + kk * sp,
                segments@.len() == kk,
            invariant
                step == sp,
                end == en,
                step >= 1,
                i64::MIN <= st <= i64::MAX,
                st <= value as int,
                forall|j: int|
                    0 <= j < kk ==> (#[trigger] segments@[j]).wf() && segments@[j]@
                        == seq![progression(st, en, sp)[j]],
            ensures
                forall|j: int|
                    0 <= j < progression(st, en, sp).len() ==> (#[trigger] segments@[j]).wf()
                        && segments@[j]@ == seq![progression(st, en, sp)[j]],
                segments@.len() == progression(st, en, sp).len(),
            decreases en - value,
        {
            if value > end {
                proof {
                    lemma_progression_end(st, en, sp, kk, value as int);
                    assert(segments@.len() == progression(st, en, sp).len());
                }
                break;
            }
            let seg = Segment::from_value(value);
            let ghost prev = segments@;
            segments.push(seg);
            proof {
                lemma_progression_index(st, en, sp, kk, value as int);
                assert(progression(st, en, sp)[kk] == value);
                assert(segments@[kk]@ =~= seq![progression(st, en, sp)[kk]]);
                assert forall|j: int|
                    0 <= j < kk + 1 implies (#[trigger] segments@[j]).wf() && segments@[j]@
                        == seq![progression(st, en, sp)[j]] by {
                    if j < kk {
                        assert(prev[j].wf() && prev[j]@ == seq![progression(st, en, sp)[j]]);
                        assert(segments@[j] == prev[j]);
                    }
                }
                assert(value as int + sp == st + (kk + 1) * sp) by (nonlinear_arith)
                    requires
                        value as int == st + kk * sp,
                ;
            }
            if (value as i128) + (step as i128) > (end as i128) {
                proof {
                    lemma_progression_last(st, en, sp, kk, value as int);
                }
                break;
            }
            proof {
                lemma_progression_len(st, en, sp, kk, value as int);
                kk = kk + 1;
            }
            value += step;
        }
        let builder = SchemeBuilder::new().add_axis(
            Axis {
                name: String::from_str("value"),
                axis_type: AxisType::Discrete,
                range: Some((self.start, self.end)),
            },
        ).add_metadata(String::from_str("template"), String::from_str("integer_line"));
        let ghost collected = segments@;
        let builder = builder.add_segments(segments);
        proof {
            assert forall|j: int|
                0 <= j < progression(st, en, sp).len() implies segment_id_views(
                builder.spec_segments(),
            ).contains(spec_segment_id(seq![#[trigger] progression(st, en, sp)[j]])) by {
                assert(collected[j].spec_id() == spec_segment_id(seq![progression(st, en, sp)[j]]));
                assert(segment_id_views(builder.spec_segments()).contains(
                    collected[j].spec_id(),
                ));
            }
        }
        builder.build()
    }
}

/// The progression is indexed by multiples of the step.
proof fn lemma_progression_end(st: int, en: int, sp: int, k: int, value: int)
    requires
        sp >= 1,
        0 <= k <= progression(st, en, sp).len(),
        value == st + k * sp,
        value > en,
    ensures
        k == progression(st, en, sp).len(),
    decreases en + 1 - st,
{
    assert(k * sp >= 0) by (nonlinear_arith)
        requires
            k >= 0,
            sp >= 1,
    ;
    if st > en || st < i64::MIN || st > i64::MAX {
    } else {
        if k == 0 {
            assert(value == st);
        } else {
            let ns = next_start(st, en, sp);
            if ns == st + sp {
                assert(ns + (k - 1) * sp == st + k * sp) by (nonlinear_arith)
                    requires
                        ns == st + sp,
                ;
                lemma_progression_end(ns, en, sp, k - 1, value);
            } else {
                assert(progression(ns, en, sp).len() == 0);
                assert(k == 1);
            }
        }
    }
}

/// The value at index `k` of the progression.
proof fn lemma_progression_index(st: int, en: int, sp: int, k: int, value: int)
    requires
        sp >= 1,
        0 <= k,
        value == st + k * sp,
        st <= value <= en,
        i64::MIN <= st,
        i64::MIN <= value <= i64::MAX,
    ensures
        k < progression(st, en, sp).len(),
        progression(st, en, sp)[k] as int == value,
    decreases en + 1 - st,
{
    assert(k * sp >= 0) by (nonlinear_arith)
        requires
            k >= 0,
            sp >= 1,
    ;
    if k == 0 {
        assert(progression(st, en, sp)[0] == st as i64);
    } else {
        assert((k - 1) * sp >= 0 && k * sp == sp + (k - 1) * sp) by (nonlinear_arith)
            requires
                k >= 1,
                sp >= 1,
        ;
        let ns = next_start(st, en, sp);
        assert(st + sp <= value);
        assert(ns == st + sp);
        lemma_progression_index(ns, en, sp, k - 1, value);
        assert(progression(st, en, sp)[k] == progression(ns, en, sp)[k - 1]);
    }
}

/// Index bound for the next progression entry.
proof fn lemma_progression_len(st: int, en: int, sp: int, k: int, value: int)
    requires
        sp >= 1,
        0 <= k,
        value == st + k * sp,
        st <= value <= en,
        i64::MIN <= st,
        i64::MIN <= value <= i64::MAX,
    ensures
        k + 1 <= progression(st, en, sp).len(),
{
    lemma_progression_index(st, en, sp, k, value);
}

/// When the next step would pass the end, the progression stops here.
proof fn lemma_progression_last(st: int, en: int, sp: int, k: int, value: int)
    requires
        sp >= 1,
        0 <= k,
        value == st + k * sp,
        st <= value <= en,
        value > en - sp,
        i64::MIN <= st,
        i64::MIN <= value <= i64::MAX,
    ensures
        progression(st, en, sp).len() == k + 1,
    decreases en + 1 - st,
{
    assert(k * sp >= 0) by (nonlinear_arith)
        requires
            k >= 0,
            sp >= 1,
    ;
    let ns = next_start(st, en, sp);
    if k == 0 {
        assert(value == st);
        assert(ns == en + 1);
        assert(progression(st, en, sp).len() == 1 + progression(ns, en, sp).len());
        assert(progression(ns, en, sp).len() == 0);
    } else {
        assert((k - 1) * sp >= 0 && k * sp == sp + (k - 1) * sp) by (nonlinear_arith)
            requires
                k >= 1,
                sp >= 1,
        ;
        assert(ns == st + sp);
        lemma_progression_last(ns, en, sp, k - 1, value);
    }
}

/// An arbitrary graph: node coordinates and weighted directed edges by node
/// index.
pub struct GraphTemplate {
    nodes: Vec<Vec<i64>>,
    edges: Vec<(usize, usize, i64)>,
}

impl GraphTemplate {
    /// The node coordinates.
    pub closed spec fn spec_nodes(&self) -> Seq<Seq<i64>> {
        self.nodes@.map_values(|n: Vec<i64>| n@)
    }

    /// The edges, as (from index, to index, weight).
    pub closed spec fn spec_edges(&self) -> Seq<(usize, usize, i64)> {
        self.edges@
    }

    pub fn new(nodes: Vec<Vec<i64>>, edges: Vec<(usize, usize, i64)>) -> (r: Self)
        ensures
            r.spec_nodes() == nodes@.map_values(|n: Vec<i64>| n@),
            r.spec_edges() == edges@,
    {
        Self { nodes, edges }
    }

    /// Build the graph scheme: one discrete axis per dimension of the first
    /// node, one segment per node, and one graph-adjacency relation per
    /// edge whose indices name existing nodes.
    pub fn build(self) -> (r: Scheme)
        requires
            self.spec_nodes().len() > 0,
        ensures
            r.spec_axes().len() == self.spec_nodes()[0].len(),
            forall|j: int|
                0 <= j < self.spec_nodes().len() ==> segment_id_views(
                    r.spec_segments(),
                ).contains(spec_segment_id(#[trigger] self.spec_nodes()[j])),
            r.wf(),
    {
        let dims = self.nodes[0].len();
        let mut builder = SchemeBuilder::new();
        let mut d: usize = 0;
        while d < dims
            invariant
                d <= dims,
                builder.spec_axes().len() == d,
                builder.spec_segments() == Seq::<Segment>::empty(),
                builder.spec_relations().len() == 0,
            decreases dims - d,
        {
            let mut name = String::from_str("dim_");
            name.append(crate::text::usize_to_string(d).as_str());
            builder = builder.add_axis(
                Axis { name, axis_type: AxisType::Discrete, range: None },
            );
            d += 1;
        }
        let n = self.nodes.len();
        let mut segments: Vec<Segment> = Vec::new();
        let mut i: usize = 0;
        proof {
            assert(segments@.map_values(|s: Segment| s@) =~= self.spec_nodes().take(0));
        }
        while i < n
            invariant
                n == self.nodes@.len(),
                i <= n,
                segments@.map_values(|s: Segment| s@) == self.spec_nodes().take(i as int),
                forall|j: int| 0 <= j < segments@.len() ==> (#[trigger] segments@[j]).wf(),
            decreases n - i,
        {
            let ghost prev = segments@;
            let coords = crate::coords::SpaceCoordinates::new(
                vstd::slice::slice_to_vec(self.nodes[i].as_slice()),
            );
            segments.push(Segment::new(coords));
            proof {
                prev.lemma_push_map_commute(|s: Segment| s@, segments@.last());
                assert(self.spec_nodes().take(i + 1) =~= self.spec_nodes().take(i as int).push(
                    self.spec_nodes()[i as int],
                ));
                assert(segments@.map_values(|s: Segment| s@) =~= self.spec_nodes().take(i + 1));
            }
            i += 1;
        }
        proof {
            assert(self.spec_nodes().take(n as int) =~= self.spec_nodes());
        }
        let ids = {
            let mut ids: Vec<SegmentId> = Vec::new();
            let mut k: usize = 0;
            while k < n
                invariant
                    n == segments@.len(),
                    k <= n,
                    ids@.len() == k,
                    forall|j: int|
                        0 <= j < k ==> (#[trigger] ids@[j])@ == segments@[j].spec_id(),
                decreases n - k,
            {
                ids.push(*segments[k].id());
                k += 1;
            }
            ids
        };
        let ghost collected = segments@;
        let mut builder = builder.add_segments(segments);
        proof {
            assert forall|j: int|
                0 <= j < self.spec_nodes().len() implies segment_id_views(
                builder.spec_segments(),
            ).contains(spec_segment_id(#[trigger] self.spec_nodes()[j])) by {
                assert(collected[j]@ == self.spec_nodes()[j]);
                assert(collected[j].wf());
                assert(segment_id_views(builder.spec_segments()).contains(
                    collected[j].spec_id(),
                ));
            }
        }
        let ghost with_segments = builder.spec_segments();
        let m = self.edges.len();
        let mut e: usize = 0;
        while e < m
            invariant
                m == self.edges@.len(),
                n == ids@.len(),
                e <= m,
                builder.spec_segments() == with_segments,
                builder.spec_axes().len() == dims,
                forall|j: int|
                    0 <= j < self.spec_nodes().len() ==> segment_id_views(
                        builder.spec_segments(),
                    ).contains(spec_segment_id(#[trigger] self.spec_nodes()[j])),
            decreases m - e,
        {
            let (from_idx, to_idx, weight) = self.edges[e];
            if from_idx < ids.len() && to_idx < ids.len() {
                let mut metadata: Vec<(String, String)> = Vec::new();
                metadata.push((String::from_str("edge_type"), String::from_str("directed")));
                builder = builder.add_relation(
                    ids[from_idx],
                    ids[to_idx],
                    StructuralRelation::Adjacency {
                        relation_type: AdjacencyType::Graph,
                        weight: Some(weight),
                        metadata,
                    },
                );
            }
            e += 1;
        }
        let builder = builder.add_metadata(
            String::from_str("template"),
            String::from_str("graph"),
        );
        builder.build()
    }
}

} // verus!
