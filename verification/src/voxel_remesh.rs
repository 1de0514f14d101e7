//! Replacing a mesh by a uniform one that is extracted from its signed distances.
use crate::arithmetic::Arithmetic;
use crate::collections;
use crate::collections::{EdgeKey, EdgeMap};
use crate::geometry::Geometry;
use crate::mesh;
use crate::mesh::{Mesh, MeshError};
use crate::orientation;
use crate::query;
use crate::query::ClosestSurfacePoint;
use crate::scalar;
use crate::scalar::Point;
use crate::search::RayIntersectionCount;
use crate::shapes;
use crate::topology;
use crate::topology::FaceSearch;
use crate::wide;
use crate::wide::{WideArithmetic, WidePoint};
use vstd::prelude::*;

verus! {

/// The fewest cells along the longest axis.
pub const MIN_REMESH_RESOLUTION: u32 = 32;

/// The most cells along the longest axis.
pub const MAX_REMESH_RESOLUTION: u32 = 192;

/// The cells along the longest axis unless another number is chosen.
pub const DEFAULT_REMESH_RESOLUTION: u32 = 96;

/// No query of the distance field has failed.
pub const QUERY_OK: u8 = 0;

pub const QUERY_CLOSEST_POINT_FAILED: u8 = 1;

pub const QUERY_RAY_FAILED: u8 = 2;

pub const QUERY_AMBIGUOUS: u8 = 3;

#[derive(Clone, Copy, Debug, PartialEq, Eq, Structural)]
pub struct VoxelRemeshSettings {
    pub resolution: u32,
}

impl Default for VoxelRemeshSettings {
    fn default() -> (result: VoxelRemeshSettings)
        ensures
            result.resolution == DEFAULT_REMESH_RESOLUTION,
    {
        VoxelRemeshSettings { resolution: DEFAULT_REMESH_RESOLUTION }
    }
}

/// A remeshed replacement, and what it was made from. The voxel size is in single precision.
#[derive(Debug)]
pub struct VoxelRemeshOutput {
    pub mesh: Mesh,
    pub voxel_size: u32,
    pub source_faces: usize,
    pub output_faces: usize,
}

/// Why a mesh was not remeshed. A voxel size is in double precision.
#[derive(Debug)]
pub enum VoxelRemeshError {
    InvalidResolution { resolution: u32 },
    InvalidSource { source: MeshError },
    EmptySource,
    NonManifoldSource { edges: usize, vertices: usize },
    OpenSource { boundary_edges: usize },
    DegenerateBounds,
    UnrepresentableBounds,
    InsufficientCoordinatePrecision { voxel_size: u64 },
    ClosestPointQueryFailed,
    RayContainmentQueryFailed,
    AmbiguousContainment,
    ExtractionPanicked { message: String },
    ExtractionFailed { status: String },
    EmptyOutput,
    InvalidOutputLayout,
    NonFiniteOutputVertex { index: usize },
    OutputIndexOutOfBounds { triangle: usize, index: u32, vertex_count: usize },
    DegenerateOutputTriangle { triangle: usize },
    OutputEdgeUseCount { a: u32, b: u32, faces: u32 },
    InconsistentOutputWinding { a: u32, b: u32 },
    UnreferencedOutputVertex { vertex: u32 },
    NonManifoldOutputVertex { vertex: u32 },
    MaskReprojectionFailed { vertex: usize },
    OutputMesh { source: MeshError },
}

/// Whether a mesh is sound and its arrays belong together.
pub open spec fn valid_source(mesh: Mesh) -> bool {
    &&& mesh::sound_indexing(mesh.positions@, mesh.triangles@)
    &&& mesh.normals@.len() == mesh.positions@.len()
    &&& mesh.mask@.len() == mesh.positions@.len()
    &&& mesh::all_weights(mesh.mask@, mesh.mask@.len() as int)
}

/// Whether a mesh is one that can be remeshed: sound, not empty, two-manifold and closed.
pub open spec fn eligible(mesh: Mesh) -> bool {
    &&& valid_source(mesh)
    &&& mesh.positions@.len() > 0 && mesh.triangles@.len() > 0
    &&& topology::crowded_edges(mesh.topology.edge_faces@).len() == 0
    &&& topology::count_set(mesh.topology.non_manifold_vertices@) == 0
    &&& topology::boundary_edges(mesh.topology.edge_faces@).len() == 0
}

/// Why a mesh cannot be remeshed: the first of the conditions that it fails.
pub open spec fn ineligible_because(mesh: Mesh, error: VoxelRemeshError) -> bool {
    let crowded = topology::crowded_edges(mesh.topology.edge_faces@).len();
    let pinched = topology::count_set(mesh.topology.non_manifold_vertices@);
    let open = topology::boundary_edges(mesh.topology.edge_faces@).len();
    match error {
        VoxelRemeshError::InvalidSource { source } => mesh::validation_error(mesh, source),
        VoxelRemeshError::EmptySource => valid_source(mesh) && (mesh.positions@.len() == 0
            || mesh.triangles@.len() == 0),
        VoxelRemeshError::NonManifoldSource { edges, vertices } => {
            &&& valid_source(mesh)
            &&& mesh.positions@.len() > 0 && mesh.triangles@.len() > 0
            &&& crowded != 0 || pinched != 0
            &&& edges == crowded && vertices == pinched
        },
        VoxelRemeshError::OpenSource { boundary_edges } => {
            &&& valid_source(mesh)
            &&& mesh.positions@.len() > 0 && mesh.triangles@.len() > 0
            &&& crowded == 0 && pinched == 0
            &&& open != 0
            &&& boundary_edges == open
        },
        _ => false,
    }
}

/// Checks whether a mesh can be remeshed.
pub fn source_eligibility(mesh: &Mesh) -> (result: Result<(), VoxelRemeshError>)
    ensures
        result is Ok <==> eligible(*mesh),
        result is Err ==> ineligible_because(*mesh, result->Err_0),
{
    match mesh.validate() {
        Ok(()) => {},
        Err(source) => {
            return Err(VoxelRemeshError::InvalidSource { source });
        },
    }
    if mesh.positions.len() == 0 || mesh.triangles.len() == 0 {
        return Err(VoxelRemeshError::EmptySource);
    }
    let edges = mesh.topology.non_manifold_edge_count();
    let vertices = mesh.topology.non_manifold_vertex_count();
    if edges != 0 || vertices != 0 {
        return Err(VoxelRemeshError::NonManifoldSource { edges, vertices });
    }
    let boundary_edges = mesh.topology.boundary_edge_count();
    if boundary_edges != 0 {
        return Err(VoxelRemeshError::OpenSource { boundary_edges });
    }
    Ok(())
}

/// An eligible mesh is closed: every edge that a face uses is used by exactly two.
pub proof fn an_eligible_mesh_is_closed(mesh: Mesh, side: EdgeKey)
    requires
        eligible(mesh),
        mesh.well_formed(),
        topology::boundary_edges(mesh.topology.edge_faces@).finite(),
        topology::crowded_edges(mesh.topology.edge_faces@).finite(),
        topology::edge_uses(mesh.triangles@, side).len() > 0,
    ensures
        topology::edge_uses(mesh.triangles@, side).len() == 2,
{
    let edges = mesh.topology.edge_faces@;
    assert(collections::listed(edges, side) == topology::edge_uses(mesh.triangles@, side));
    assert(edges.contains_key(side));
    let open = topology::boundary_edges(edges);
    let crowded = topology::crowded_edges(edges);
    if edges[side].len() == 1 {
        assert(open.contains(side));
        assert(open.len() == 0);
    }
    if edges[side].len() > 2 {
        assert(crowded.contains(side));
        assert(crowded.len() == 0);
    }
}

/// A padded extraction box along one axis: its two ends in double precision, and in single
/// precision the ends and the coordinates one voxel inside them.
#[derive(Clone, Copy, Debug, PartialEq, Eq, Structural)]
pub struct GridAxis {
    pub low: u64,
    pub high: u64,
    pub narrow_low: u32,
    pub narrow_high: u32,
    pub narrow_low_step: u32,
    pub narrow_high_step: u32,
}

/// What a grid over a box comes to: the longest axis of the box, the size of a voxel, and the
/// padded box, all in double precision.
#[derive(Clone, Copy, Debug, PartialEq, Eq, Structural)]
pub struct GridMeasure {
    pub longest_axis: u64,
    pub voxel_size: u64,
    pub x: GridAxis,
    pub y: GridAxis,
    pub z: GridAxis,
}

/// The box around a source and the number of cells to divide its longest axis into.
#[derive(Clone, Copy, Debug, PartialEq, Eq, Structural)]
pub struct GridRequest {
    pub min: Point,
    pub max: Point,
    pub resolution: u32,
}

/// The box that distances are sampled in, and the size of the cells, in double precision.
#[derive(Clone, Copy, Debug, PartialEq, Eq, Structural)]
pub struct ExtractionGrid {
    pub min_x: u64,
    pub min_y: u64,
    pub min_z: u64,
    pub max_x: u64,
    pub max_y: u64,
    pub max_z: u64,
    pub voxel_size: u64,
}

impl GridAxis {
    /// Whether both ends are finite, in double and in single precision.
    pub open spec fn representable(self) -> bool {
        &&& scalar::wide_finite(self.low) && scalar::finite(self.narrow_low)
        &&& scalar::wide_finite(self.high) && scalar::finite(self.narrow_high)
    }

    /// Whether a step of one voxel makes a difference in single precision at both ends.
    pub open spec fn distinguishable(self) -> bool {
        !scalar::same(self.narrow_low_step, self.narrow_low) && !scalar::same(
            self.narrow_high_step,
            self.narrow_high,
        )
    }

    fn is_representable(&self) -> (result: bool)
        ensures
            result == self.representable(),
    {
        scalar::wide_is_finite(self.low) && scalar::is_finite(self.narrow_low)
            && scalar::wide_is_finite(self.high) && scalar::is_finite(self.narrow_high)
    }

    fn is_distinguishable(&self) -> (result: bool)
        ensures
            result == self.distinguishable(),
    {
        !scalar::is_same(self.narrow_low_step, self.narrow_low) && !scalar::is_same(
            self.narrow_high_step,
            self.narrow_high,
        )
    }
}

/// The box around the corners of some triangles, in the order in which they come.
pub open spec fn surface_bounds(
    positions: Seq<Point>,
    triangles: Seq<[u32; 3]>,
) -> Option<(Point, Point)>
    decreases triangles.len(),
{
    if triangles.len() == 0 {
        None
    } else {
        let triangle = triangles.last();
        let a = positions[triangle@[0] as int];
        let b = positions[triangle@[1] as int];
        let c = positions[triangle@[2] as int];
        match surface_bounds(positions, triangles.drop_last()) {
            Some((min, max)) => Some(
                (min.least(a).least(b).least(c), max.greatest(a).greatest(b).greatest(c)),
            ),
            None => Some((a.least(b).least(c), a.greatest(b).greatest(c))),
        }
    }
}

/// The box around the vertices that faces use, if all of these are there.
pub open spec fn referenced_bounds(mesh: Mesh) -> Option<(Point, Point)> {
    if mesh::all_exist(mesh.triangles@, mesh.positions@.len(), mesh.triangles@.len() as int) {
        surface_bounds(mesh.positions@, mesh.triangles@)
    } else {
        None
    }
}

pub fn referenced_surface_bounds(mesh: &Mesh) -> (result: Option<(Point, Point)>)
    ensures
        result == referenced_bounds(*mesh),
{
    let vertex_count = mesh.positions.len();
    let mut bounds: Option<(Point, Point)> = None;
    let mut t: usize = 0;
    assert(mesh.triangles@.take(0) =~= Seq::<[u32; 3]>::empty());
    while t < mesh.triangles.len()
        invariant
            t <= mesh.triangles@.len(),
            vertex_count == mesh.positions@.len(),
            mesh::all_exist(mesh.triangles@, mesh.positions@.len(), t as int),
            bounds == surface_bounds(mesh.positions@, mesh.triangles@.take(t as int)),
        decreases mesh.triangles@.len() - t,
    {
        let triangle = mesh.triangles[t];
        if triangle[0] as usize >= vertex_count || triangle[1] as usize >= vertex_count
            || triangle[2] as usize >= vertex_count {
            assert(!mesh::corners_exist(mesh.triangles@[t as int], mesh.positions@.len()));
            return None;
        }
        let a = mesh.positions[triangle[0] as usize];
        let b = mesh.positions[triangle[1] as usize];
        let c = mesh.positions[triangle[2] as usize];
        assert(mesh.triangles@.take(t + 1).drop_last() =~= mesh.triangles@.take(t as int));
        bounds = match bounds {
            Some((min, max)) => Some((min.min(&a).min(&b).min(&c), max.max(&a).max(&b).max(&c))),
            None => Some((a.min(&b).min(&c), a.max(&b).max(&c))),
        };
        t += 1;
    }
    assert(mesh.triangles@.take(t as int) =~= mesh.triangles@);
    bounds
}

/// What laying a grid over a mesh comes to.
pub open spec fn grid_result<O: Arithmetic, W: WideArithmetic>(
    mesh: Mesh,
    settings: VoxelRemeshSettings,
    ops: &O,
    wide: &W,
    result: Result<ExtractionGrid, VoxelRemeshError>,
) -> bool {
    if !(MIN_REMESH_RESOLUTION <= settings.resolution <= MAX_REMESH_RESOLUTION) {
        result matches Err(VoxelRemeshError::InvalidResolution { resolution }) && resolution
            == settings.resolution
    } else {
        match referenced_bounds(mesh) {
            None => result matches Err(VoxelRemeshError::DegenerateBounds),
            Some((min, max)) => {
                let grid = wide::measure_of(
                    ops,
                    wide,
                    GridRequest { min, max, resolution: settings.resolution },
                );
                if !scalar::wide_finite(grid.longest_axis) || scalar::wide_rank(grid.longest_axis)
                    <= 0 {
                    result matches Err(VoxelRemeshError::DegenerateBounds)
                } else if !scalar::wide_finite(grid.voxel_size) || scalar::wide_rank(
                    grid.voxel_size,
                ) <= 0 || !grid.x.representable() || !grid.y.representable()
                    || !grid.z.representable() {
                    result matches Err(VoxelRemeshError::UnrepresentableBounds)
                } else if !grid.x.distinguishable() || !grid.y.distinguishable()
                    || !grid.z.distinguishable() {
                    result matches Err(
                        VoxelRemeshError::InsufficientCoordinatePrecision { voxel_size },
                    ) && voxel_size == grid.voxel_size
                } else {
                    result matches Ok(found) && found == (ExtractionGrid {
                        min_x: grid.x.low,
                        min_y: grid.y.low,
                        min_z: grid.z.low,
                        max_x: grid.x.high,
                        max_y: grid.y.high,
                        max_z: grid.z.high,
                        voxel_size: grid.voxel_size,
                    })
                }
            },
        }
    }
}

/// Lays a grid over a mesh.
pub fn extraction_grid<O: Arithmetic, W: WideArithmetic>(
    mesh: &Mesh,
    settings: VoxelRemeshSettings,
    ops: &O,
    wide: &W,
) -> (result: Result<ExtractionGrid, VoxelRemeshError>)
    requires
        ops.total(),
        wide.total(),
    ensures
        grid_result(*mesh, settings, ops, wide, result),
{
    if settings.resolution < MIN_REMESH_RESOLUTION || settings.resolution > MAX_REMESH_RESOLUTION {
        return Err(VoxelRemeshError::InvalidResolution { resolution: settings.resolution });
    }
    let (min, max) = match referenced_surface_bounds(mesh) {
        Some(bounds) => bounds,
        None => {
            return Err(VoxelRemeshError::DegenerateBounds);
        },
    };
    let request = GridRequest { min, max, resolution: settings.resolution };
    let grid = wide::grid_measure(request, ops, wide);
    if !scalar::wide_is_finite(grid.longest_axis) || !scalar::wide_is_positive(grid.longest_axis) {
        return Err(VoxelRemeshError::DegenerateBounds);
    }
    if !scalar::wide_is_finite(grid.voxel_size) || !scalar::wide_is_positive(grid.voxel_size)
        || !grid.x.is_representable() || !grid.y.is_representable() || !grid.z.is_representable() {
        return Err(VoxelRemeshError::UnrepresentableBounds);
    }
    if !grid.x.is_distinguishable() || !grid.y.is_distinguishable() || !grid.z.is_distinguishable() {
        return Err(
            VoxelRemeshError::InsufficientCoordinatePrecision { voxel_size: grid.voxel_size },
        );
    }
    Ok(
        ExtractionGrid {
            min_x: grid.x.low,
            min_y: grid.y.low,
            min_z: grid.z.low,
            max_x: grid.x.high,
            max_y: grid.y.high,
            max_z: grid.z.high,
            voxel_size: grid.voxel_size,
        },
    )
}

/// The rays along which it is tested whether a point lies inside.
#[derive(Clone, Copy, Debug, PartialEq, Eq, Structural)]
pub enum TestRay {
    Primary,
    FallbackA,
    FallbackB,
}

impl TestRay {
    /// A direction along no axis, so that a ray seldom meets an edge or a vertex.
    pub open spec fn spec_direction(self) -> Point {
        match self {
            TestRay::Primary => Point { x: 0x3f48_4dd1, y: 0x3edd_1c45, z: 0x3ee5_71fa },
            TestRay::FallbackA => Point { x: 0xbea7_7d59, y: 0x3f5d_59da, z: 0x3ec3_f0ed },
            TestRay::FallbackB => Point { x: 0x3e74_58b9, y: 0xbecb_5d1e, z: 0x3f62_df5f },
        }
    }

    pub fn direction(self) -> (result: Point)
        ensures
            result == self.spec_direction(),
    {
        match self {
            TestRay::Primary => Point { x: 0x3f48_4dd1, y: 0x3edd_1c45, z: 0x3ee5_71fa },
            TestRay::FallbackA => Point { x: 0xbea7_7d59, y: 0x3f5d_59da, z: 0x3ec3_f0ed },
            TestRay::FallbackB => Point { x: 0x3e74_58b9, y: 0xbecb_5d1e, z: 0x3f62_df5f },
        }
    }
}

/// How often a test ray from a point crosses a surface.
pub open spec fn tested<O: Arithmetic, W: WideArithmetic>(
    source: Mesh,
    ops: &O,
    wide: &W,
    point: Point,
    ray: TestRay,
) -> Option<RayIntersectionCount> {
    query::crossed(source, ops, wide, point, ray.spec_direction())
}

/// Whether an unambiguous count says inside.
pub open spec fn parity_of_count(count: RayIntersectionCount) -> Option<bool> {
    if count.ambiguous {
        None
    } else {
        Some(count.intersections % 2 == 1)
    }
}

pub fn unambiguous_parity(intersections: RayIntersectionCount) -> (result: Option<bool>)
    ensures
        result == parity_of_count(intersections),
{
    if intersections.ambiguous {
        None
    } else {
        Some(intersections.intersections % 2 == 1)
    }
}

/// Whether a point lies inside, and what went wrong in finding out.
#[derive(Clone, Copy, Debug, PartialEq, Eq, Structural)]
pub struct Containment {
    pub inside: bool,
    pub failure: u8,
}

/// What the counts along the rays say: the primary one if it is unambiguous; else both fallbacks,
/// which must not contradict each other and of which one must be unambiguous.
pub open spec fn containment_of(
    primary: Option<RayIntersectionCount>,
    a: Option<RayIntersectionCount>,
    b: Option<RayIntersectionCount>,
) -> Containment {
    match primary {
        None => Containment { inside: false, failure: QUERY_RAY_FAILED },
        Some(count) => match parity_of_count(count) {
            Some(inside) => Containment { inside, failure: QUERY_OK },
            None => if a is None || b is None {
                Containment { inside: false, failure: QUERY_RAY_FAILED }
            } else {
                match (parity_of_count(a->0), parity_of_count(b->0)) {
                    (Some(x), Some(y)) => if x == y {
                        Containment { inside: x, failure: QUERY_OK }
                    } else {
                        Containment { inside: false, failure: QUERY_AMBIGUOUS }
                    },
                    (Some(x), None) => Containment { inside: x, failure: QUERY_OK },
                    (None, Some(y)) => Containment { inside: y, failure: QUERY_OK },
                    (None, None) => Containment { inside: false, failure: QUERY_AMBIGUOUS },
                }
            },
        },
    }
}

/// Tests whether a point lies inside. The fallbacks are both counted, or neither, so that the
/// result does not depend on which of them would resolve first.
pub fn containment<O: Arithmetic, W: WideArithmetic>(
    source: &Mesh,
    point: Point,
    ops: &O,
    wide: &W,
) -> (result: Containment)
    requires
        source.well_formed(),
        ops.total(),
        wide.total(),
    ensures
        result == containment_of(
            tested(*source, ops, wide, point, TestRay::Primary),
            tested(*source, ops, wide, point, TestRay::FallbackA),
            tested(*source, ops, wide, point, TestRay::FallbackB),
        ),
{
    let primary = match source.ray_intersection_count(point, TestRay::Primary.direction(), ops, wide) {
        Some(count) => count,
        None => {
            return Containment { inside: false, failure: QUERY_RAY_FAILED };
        },
    };
    if let Some(inside) = unambiguous_parity(primary) {
        return Containment { inside, failure: QUERY_OK };
    }
    let fallback_a = source.ray_intersection_count(point, TestRay::FallbackA.direction(), ops, wide);
    let fallback_b = source.ray_intersection_count(point, TestRay::FallbackB.direction(), ops, wide);
    match (fallback_a, fallback_b) {
        (Some(a), Some(b)) => match (unambiguous_parity(a), unambiguous_parity(b)) {
            (Some(a_inside), Some(b_inside)) => {
                if a_inside == b_inside {
                    Containment { inside: a_inside, failure: QUERY_OK }
                } else {
                    Containment { inside: false, failure: QUERY_AMBIGUOUS }
                }
            },
            (Some(a_inside), None) => Containment { inside: a_inside, failure: QUERY_OK },
            (None, Some(b_inside)) => Containment { inside: b_inside, failure: QUERY_OK },
            (None, None) => Containment { inside: false, failure: QUERY_AMBIGUOUS },
        },
        _ => Containment { inside: false, failure: QUERY_RAY_FAILED },
    }
}

/// A value of the distance field: none where the query failed, else zero on the surface, the
/// distance inside and its negative outside.
#[derive(Clone, Copy, Debug, PartialEq, Eq, Structural)]
pub enum FieldValue {
    Missing,
    OnSurface,
    Inside { distance: u32 },
    Outside { distance: u32 },
}

/// The value of the field at a point, with what went wrong in finding it. Within the rounding
/// error of the surface the sign means nothing, so no rays are counted there.
pub open spec fn field_of(
    nearest: Option<ClosestSurfacePoint>,
    on_surface: bool,
    containment: Containment,
) -> (FieldValue, u8) {
    match nearest {
        None => (FieldValue::Missing, QUERY_CLOSEST_POINT_FAILED),
        Some(near) => if on_surface {
            (FieldValue::OnSurface, QUERY_OK)
        } else if containment.inside {
            (FieldValue::Inside { distance: near.distance }, containment.failure)
        } else {
            (FieldValue::Outside { distance: near.distance }, containment.failure)
        },
    }
}

/// The value of the field of a mesh at a point.
pub open spec fn field_at<O: Arithmetic, W: WideArithmetic>(
    source: Mesh,
    ops: &O,
    wide: &W,
    point: Point,
) -> (FieldValue, u8) {
    let nearest = query::nearest_of(source, ops, point);
    field_of(
        nearest,
        scalar::wide_le(
            wide.spec_widened(nearest->0.distance),
            wide::roundoff(ops, wide, source, nearest->0.triangle, point),
        ),
        containment_of(
            tested(source, ops, wide, point, TestRay::Primary),
            tested(source, ops, wide, point, TestRay::FallbackA),
            tested(source, ops, wide, point, TestRay::FallbackB),
        ),
    )
}

/// Evaluates the distance field of a mesh at a point.
pub fn signed_distance<O: Arithmetic, W: WideArithmetic>(
    source: &Mesh,
    point: WidePoint,
    ops: &O,
    wide: &W,
) -> (result: (FieldValue, u8))
    requires
        source.well_formed(),
        ops.total(),
        wide.total(),
    ensures
        result == field_at(*source, ops, wide, wide::narrowed_point(wide, point)),
{
    let point = wide::narrow(wide, point);
    match source.closest_surface_point(point, ops) {
        None => (FieldValue::Missing, QUERY_CLOSEST_POINT_FAILED),
        Some(near) => {
            let roundoff = wide::surface_roundoff(source, near.triangle, point, ops, wide);
            if scalar::wide_is_at_most(wide.widened(near.distance), roundoff) {
                return (FieldValue::OnSurface, QUERY_OK);
            }
            let found = containment(source, point, ops, wide);
            if found.inside {
                (FieldValue::Inside { distance: near.distance }, found.failure)
            } else {
                (FieldValue::Outside { distance: near.distance }, found.failure)
            }
        },
    }
}

impl FieldValue {
    /// The number that stands for the value: minus one where there is none.
    pub open spec fn spec_number<W: WideArithmetic>(self, wide: &W) -> u64 {
        match self {
            FieldValue::Missing => wide.spec_widened(scalar::negated(scalar::ONE)),
            FieldValue::OnSurface => wide::WIDE_ZERO,
            FieldValue::Inside { distance } => wide.spec_widened(distance),
            FieldValue::Outside { distance } => wide.spec_widened(scalar::negated(distance)),
        }
    }

    pub fn number<W: WideArithmetic>(self, wide: &W) -> (result: u64)
        requires
            wide.total(),
        ensures
            result == self.spec_number(wide),
    {
        match self {
            FieldValue::Missing => wide.widened(scalar::negate(scalar::ONE)),
            FieldValue::OnSurface => wide::WIDE_ZERO,
            FieldValue::Inside { distance } => wide.widened(distance),
            FieldValue::Outside { distance } => wide.widened(scalar::negate(distance)),
        }
    }
}

/// Remembers the first failure.
pub fn record_query_failure(failure: &mut u8, code: u8)
    ensures
        *final(failure) == if *old(failure) == QUERY_OK {
            code
        } else {
            *old(failure)
        },
{
    if *failure == QUERY_OK {
        *failure = code;
    }
}

/// The error that a recorded failure stands for.
pub open spec fn failure_error(failure: u8) -> Option<VoxelRemeshError> {
    if failure == QUERY_OK {
        None
    } else if failure == QUERY_CLOSEST_POINT_FAILED {
        Some(VoxelRemeshError::ClosestPointQueryFailed)
    } else if failure == QUERY_AMBIGUOUS {
        Some(VoxelRemeshError::AmbiguousContainment)
    } else {
        Some(VoxelRemeshError::RayContainmentQueryFailed)
    }
}

pub fn query_failure_error(failure: u8) -> (result: Option<VoxelRemeshError>)
    ensures
        result == failure_error(failure),
{
    if failure == QUERY_OK {
        None
    } else if failure == QUERY_CLOSEST_POINT_FAILED {
        Some(VoxelRemeshError::ClosestPointQueryFailed)
    } else if failure == QUERY_AMBIGUOUS {
        Some(VoxelRemeshError::AmbiguousContainment)
    } else {
        Some(VoxelRemeshError::RayContainmentQueryFailed)
    }
}

/// Whether a squared area is finite and not zero.
pub open spec fn has_area<W: WideArithmetic>(
    positions: Seq<Point>,
    triangle: [u32; 3],
    wide: &W,
) -> bool {
    let area = wide::area_squared(
        wide,
        positions[triangle@[0] as int],
        positions[triangle@[1] as int],
        positions[triangle@[2] as int],
    );
    scalar::wide_finite(area) && scalar::wide_rank(area) > 0
}

/// Whether so many triangles have three distinct vertices and an area.
pub open spec fn proper<W: WideArithmetic>(
    positions: Seq<Point>,
    triangles: Seq<[u32; 3]>,
    wide: &W,
    count: int,
) -> bool {
    forall|i: int|
        0 <= i < count ==> {
            let triangle = #[trigger] triangles[i];
            &&& mesh::corners_exist(triangle, positions.len())
            &&& topology::distinct_corners(triangle)
            &&& has_area(positions, triangle, wide)
        }
}

/// Whether exactly two faces use an edge, and go along it in opposite directions.
pub open spec fn sealed(triangles: Seq<[u32; 3]>, side: EdgeKey) -> bool {
    let uses = topology::edge_uses(triangles, side);
    &&& uses.len() == 2
    &&& orientation::goes(triangles[uses[0] as int], side.0, side.1) != orientation::goes(
        triangles[uses[1] as int],
        side.0,
        side.1,
    )
}

/// Whether every edge that a face uses is sealed.
pub open spec fn all_sealed(triangles: Seq<[u32; 3]>) -> bool {
    forall|side: EdgeKey| #[trigger]
        topology::edge_uses(triangles, side).len() > 0 ==> sealed(triangles, side)
}

/// Whether so many vertices are used, each by one fan of faces.
pub open spec fn all_fans(triangles: Seq<[u32; 3]>, count: int) -> bool {
    forall|v: u32|
        v < count ==> #[trigger] topology::incident_faces(triangles, v).len() > 0
            && topology::one_fan(triangles, v)
}

/// Whether geometry is a closed, consistently wound two-manifold without stray vertices.
pub open spec fn valid_output<W: WideArithmetic>(
    positions: Seq<Point>,
    triangles: Seq<[u32; 3]>,
    wide: &W,
) -> bool {
    &&& positions.len() > 0 && triangles.len() > 0
    &&& mesh::all_finite(positions, positions.len() as int)
    &&& proper(positions, triangles, wide, triangles.len() as int)
    &&& all_sealed(triangles)
    &&& all_fans(triangles, positions.len() as int)
}

/// What is wrong with geometry: the first of the conditions that it fails. Of edges that are not
/// sealed, any may be reported.
pub open spec fn output_error<W: WideArithmetic>(
    positions: Seq<Point>,
    triangles: Seq<[u32; 3]>,
    wide: &W,
    error: VoxelRemeshError,
) -> bool {
    let some = positions.len() > 0 && triangles.len() > 0;
    let finite = mesh::all_finite(positions, positions.len() as int);
    let sound = proper(positions, triangles, wide, triangles.len() as int);
    match error {
        VoxelRemeshError::EmptyOutput => !some,
        VoxelRemeshError::NonFiniteOutputVertex { index } => {
            &&& some
            &&& index < positions.len()
            &&& !positions[index as int].finite()
            &&& mesh::all_finite(positions, index as int)
        },
        VoxelRemeshError::OutputIndexOutOfBounds { triangle, index, vertex_count } => {
            &&& some && finite
            &&& triangle < triangles.len()
            &&& proper(positions, triangles, wide, triangle as int)
            &&& !mesh::corners_exist(triangles[triangle as int], positions.len())
            &&& index == mesh::first_bad_corner(triangles[triangle as int], positions.len())
            &&& vertex_count == positions.len()
        },
        VoxelRemeshError::DegenerateOutputTriangle { triangle } => {
            &&& some && finite
            &&& triangle < triangles.len()
            &&& proper(positions, triangles, wide, triangle as int)
            &&& mesh::corners_exist(triangles[triangle as int], positions.len())
            &&& !topology::distinct_corners(triangles[triangle as int]) || !has_area(
                positions,
                triangles[triangle as int],
                wide,
            )
        },
        VoxelRemeshError::OutputEdgeUseCount { a, b, faces } => {
            &&& some && finite && sound
            &&& a < b
            &&& faces == topology::edge_uses(triangles, (a, b)).len()
            &&& faces != 2 && faces > 0
        },
        VoxelRemeshError::InconsistentOutputWinding { a, b } => {
            &&& some && finite && sound
            &&& a < b
            &&& topology::edge_uses(triangles, (a, b)).len() == 2
            &&& !sealed(triangles, (a, b))
        },
        VoxelRemeshError::UnreferencedOutputVertex { vertex } => {
            &&& some && finite && sound && all_sealed(triangles)
            &&& vertex < positions.len()
            &&& all_fans(triangles, vertex as int)
            &&& topology::incident_faces(triangles, vertex).len() == 0
        },
        VoxelRemeshError::NonManifoldOutputVertex { vertex } => {
            &&& some && finite && sound && all_sealed(triangles)
            &&& vertex < positions.len()
            &&& all_fans(triangles, vertex as int)
            &&& topology::incident_faces(triangles, vertex).len() > 0
            &&& !topology::one_fan(triangles, vertex)
        },
        _ => false,
    }
}

/// Judges the triangles of an extracted surface one by one.
fn first_improper_triangle<W: WideArithmetic>(
    positions: &Vec<Point>,
    triangles: &Vec<[u32; 3]>,
    wide: &W,
) -> (result: Result<(), VoxelRemeshError>)
    requires
        wide.total(),
        positions@.len() > 0,
        triangles@.len() > 0,
        mesh::all_finite(positions@, positions@.len() as int),
    ensures
        result is Ok ==> proper(positions@, triangles@, wide, triangles@.len() as int),
        result is Err ==> output_error(positions@, triangles@, wide, result->Err_0),
{
    let vertex_count = positions.len();
    let mut t: usize = 0;
    while t < triangles.len()
        invariant
            t <= triangles@.len(),
            vertex_count == positions@.len() > 0,
            triangles@.len() > 0,
            wide.total(),
            mesh::all_finite(positions@, positions@.len() as int),
            proper(positions@, triangles@, wide, t as int),
        decreases triangles@.len() - t,
    {
        let triangle = triangles[t];
        assert(triangles@[t as int] == triangle);
        if triangle[0] as usize >= vertex_count {
            return Err(
                VoxelRemeshError::OutputIndexOutOfBounds {
                    triangle: t,
                    index: triangle[0],
                    vertex_count,
                },
            );
        }
        if triangle[1] as usize >= vertex_count {
            return Err(
                VoxelRemeshError::OutputIndexOutOfBounds {
                    triangle: t,
                    index: triangle[1],
                    vertex_count,
                },
            );
        }
        if triangle[2] as usize >= vertex_count {
            return Err(
                VoxelRemeshError::OutputIndexOutOfBounds {
                    triangle: t,
                    index: triangle[2],
                    vertex_count,
                },
            );
        }
        let area = wide::triangle_area_squared(
            wide,
            positions[triangle[0] as usize],
            positions[triangle[1] as usize],
            positions[triangle[2] as usize],
        );
        if triangle[0] == triangle[1] || triangle[1] == triangle[2] || triangle[2] == triangle[0]
            || !scalar::wide_is_finite(area) || !scalar::wide_is_positive(area) {
            return Err(VoxelRemeshError::DegenerateOutputTriangle { triangle: t });
        }
        t += 1;
    }
    Ok(())
}

/// Looks for an edge that is not sealed.
fn first_unsealed_edge(triangles: &Vec<[u32; 3]>, edges: &EdgeMap, vertex_count: Ghost<nat>) -> (result: Result<(), VoxelRemeshError>)
    requires
        triangles@.len() <= u32::MAX,
        topology::well_indexed(triangles@, vertex_count@),
        topology::lists_edges(edges@, triangles@),
    ensures
        result is Ok ==> all_sealed(triangles@),
        result matches Err(error) ==> match error {
            VoxelRemeshError::OutputEdgeUseCount { a, b, faces } => {
                &&& a < b
                &&& faces == topology::edge_uses(triangles@, (a, b)).len()
                &&& faces != 2 && faces > 0
            },
            VoxelRemeshError::InconsistentOutputWinding { a, b } => {
                &&& a < b
                &&& topology::edge_uses(triangles@, (a, b)).len() == 2
                &&& !sealed(triangles@, (a, b))
            },
            _ => false,
        },
{
    let keys = edges.edges();
    let mut k: usize = 0;
    while k < keys.len()
        invariant
            k <= keys@.len(),
            triangles@.len() <= u32::MAX,
            topology::well_indexed(triangles@, vertex_count@),
            topology::lists_edges(edges@, triangles@),
            forall|edge: EdgeKey|
                #![trigger keys@.contains(edge)]
                #![trigger edges@.contains_key(edge)]
                keys@.contains(edge) <==> edges@.contains_key(edge),
            forall|i: int| 0 <= i < k ==> sealed(triangles@, #[trigger] keys@[i]),
        decreases keys@.len() - k,
    {
        let side = keys[k];
        assert(keys@.contains(side));
        assert(edges@.contains_key(side));
        proof {
            topology::lemma_used_edge(triangles@, vertex_count@, side);
            topology::lemma_faces_with(
                triangles@,
                |triangle: [u32; 3]| topology::is_edge(triangle, side),
            );
        }
        let ghost uses = topology::edge_uses(triangles@, side);
        assert(collections::listed(edges@, side) == uses);
        if let Some(faces) = edges.faces(side) {
            assert(faces@ == uses);
            if faces.len() != 2 {
                return Err(
                    VoxelRemeshError::OutputEdgeUseCount {
                        a: side.0,
                        b: side.1,
                        faces: faces.len() as u32,
                    },
                );
            }
            let first = orientation::triangle_edge_direction(
                triangles[faces[0] as usize],
                side.0,
                side.1,
            );
            let second = orientation::triangle_edge_direction(
                triangles[faces[1] as usize],
                side.0,
                side.1,
            );
            if first == second {
                assert(!sealed(triangles@, side));
                return Err(VoxelRemeshError::InconsistentOutputWinding { a: side.0, b: side.1 });
            }
        }
        k += 1;
    }
    proof {
        assert forall|side: EdgeKey| #[trigger] topology::edge_uses(triangles@, side).len()
            > 0 implies sealed(triangles@, side) by {
            assert(edges@.contains_key(side));
            assert(keys@.contains(side));
            let i = choose|i: int| 0 <= i < keys@.len() && keys@[i] == side;
            assert(sealed(triangles@, keys@[i]));
        }
    }
    Ok(())
}

/// Checks that extracted geometry is a closed, consistently wound two-manifold without stray
/// vertices.
pub fn validate_output<W: WideArithmetic>(
    positions: &Vec<Point>,
    triangles: &Vec<[u32; 3]>,
    wide: &W,
) -> (result: Result<(), VoxelRemeshError>)
    requires
        wide.total(),
        positions@.len() <= u32::MAX,
        triangles@.len() <= u32::MAX,
    ensures
        result is Ok <==> valid_output(positions@, triangles@, wide),
        result is Err ==> output_error(positions@, triangles@, wide, result->Err_0),
{
    if positions.len() == 0 || triangles.len() == 0 {
        return Err(VoxelRemeshError::EmptyOutput);
    }
    let vertex_count = positions.len();
    let mut i: usize = 0;
    while i < vertex_count
        invariant
            i <= vertex_count == positions@.len(),
            positions@.len() > 0,
            triangles@.len() > 0,
            mesh::all_finite(positions@, i as int),
        decreases vertex_count - i,
    {
        if !positions[i].is_finite() {
            return Err(VoxelRemeshError::NonFiniteOutputVertex { index: i });
        }
        i += 1;
    }
    match first_improper_triangle(positions, triangles, wide) {
        Ok(()) => {},
        Err(error) => {
            return Err(error);
        },
    }
    assert(topology::well_indexed(triangles@, positions@.len()));
    let mut neighbors = topology::empty_lists(vertex_count);
    let mut incident = topology::empty_lists(vertex_count);
    let mut edges = EdgeMap::new();
    proof {
        topology::lemma_nothing_entered(neighbors@, incident@, edges@, triangles@.take(0));
    }
    let mut face: usize = 0;
    while face < triangles.len()
        invariant
            face <= triangles@.len() <= u32::MAX,
            vertex_count == positions@.len() <= u32::MAX,
            neighbors@.len() == vertex_count,
            incident@.len() == vertex_count,
            topology::well_indexed(triangles@, vertex_count as nat),
            topology::entered(neighbors@, incident@, edges@, triangles@.take(face as int)),
        decreases triangles@.len() - face,
    {
        topology::enter_triangle(&mut neighbors, &mut incident, &mut edges, triangles, face);
        face += 1;
    }
    assert(triangles@.take(face as int) =~= triangles@);
    match first_unsealed_edge(triangles, &edges, Ghost(positions@.len())) {
        Ok(()) => {},
        Err(error) => {
            return Err(error);
        },
    }
    let mut search = FaceSearch::new(triangles.len());
    let mut v: usize = 0;
    while v < vertex_count
        invariant
            v <= vertex_count == positions@.len() <= u32::MAX,
            triangles@.len() <= u32::MAX,
            positions@.len() > 0,
            triangles@.len() > 0,
            mesh::all_finite(positions@, positions@.len() as int),
            proper(positions@, triangles@, wide, triangles@.len() as int),
            all_sealed(triangles@),
            topology::lists_edges(edges@, triangles@),
            incident@.len() == vertex_count,
            forall|v: int|
                #![trigger incident@[v]]
                0 <= v < incident@.len() ==> incident@[v]@ == topology::incident_faces(
                    triangles@,
                    v as u32,
                ),
            search.well_formed(),
            search.face_count() == triangles@.len(),
            all_fans(triangles@, v as int),
        decreases vertex_count - v,
    {
        let faces = incident[v].as_slice();
        if faces.len() == 0 {
            return Err(VoxelRemeshError::UnreferencedOutputVertex { vertex: v as u32 });
        }
        if !topology::is_one_fan(triangles, &edges, v as u32, faces, &mut search) {
            return Err(VoxelRemeshError::NonManifoldOutputVertex { vertex: v as u32 });
        }
        v += 1;
    }
    Ok(())
}

/// Three mask weights and the barycentric weights to blend them by.
#[derive(Clone, Copy, Debug, PartialEq, Eq, Structural)]
pub struct MaskBlend {
    pub a: u32,
    pub b: u32,
    pub c: u32,
    pub barycentric: Point,
}

/// The weight that a point gets from the source: blended from the corners of the nearest face,
/// and brought into the range from 0 to 1. There is none where no face is near or the blend is
/// not finite.
pub open spec fn reprojected<O: Arithmetic>(
    source: Mesh,
    ops: &O,
    point: Point,
) -> Option<u32> {
    match query::nearest_of(source, ops, point) {
        None => None,
        Some(near) => {
            let triangle = source.triangles@[near.triangle as int];
            let value = shapes::blended(
                ops,
                MaskBlend {
                    a: source.mask@[triangle@[0] as int],
                    b: source.mask@[triangle@[1] as int],
                    c: source.mask@[triangle@[2] as int],
                    barycentric: near.barycentric,
                },
            );
            if scalar::finite(value) {
                Some(scalar::unit_weight(value))
            } else {
                None
            }
        },
    }
}

/// Takes the mask over to new vertices.
pub fn reproject_masks<O: Arithmetic>(
    source: &Mesh,
    positions: &Vec<Point>,
    ops: &O,
) -> (result: Result<Vec<u32>, VoxelRemeshError>)
    requires
        source.well_formed(),
        ops.total(),
    ensures
        result matches Ok(weights) ==> {
            &&& weights@.len() == positions@.len()
            &&& mesh::all_weights(weights@, weights@.len() as int)
            &&& forall|i: int|
                0 <= i < positions@.len() ==> reprojected(
                    *source,
                    ops,
                    #[trigger] positions@[i],
                ) == Some(weights@[i])
        },
        result matches Err(error) ==> match error {
            VoxelRemeshError::MaskReprojectionFailed { vertex } => {
                &&& vertex < positions@.len()
                &&& reprojected(*source, ops, positions@[vertex as int]) is None
                &&& forall|i: int|
                    0 <= i < vertex ==> reprojected(
                        *source,
                        ops,
                        #[trigger] positions@[i],
                    ) is Some
            },
            _ => false,
        },
{
    let mut weights: Vec<u32> = Vec::with_capacity(positions.len());
    let mut v: usize = 0;
    while v < positions.len()
        invariant
            v <= positions@.len(),
            source.well_formed(),
            ops.total(),
            weights@.len() == v,
            mesh::all_weights(weights@, v as int),
            forall|i: int|
                0 <= i < v ==> reprojected(
                    *source,
                    ops,
                    #[trigger] positions@[i],
                ) == Some(weights@[i]),
        decreases positions@.len() - v,
    {
        let near = match source.closest_surface_point(positions[v], ops) {
            Some(near) => near,
            None => {
                return Err(VoxelRemeshError::MaskReprojectionFailed { vertex: v });
            },
        };
        let triangle = source.triangles[near.triangle as usize];
        assert(source.triangles@[near.triangle as int] == triangle);
        let blend = MaskBlend {
            a: source.mask[triangle[0] as usize],
            b: source.mask[triangle[1] as usize],
            c: source.mask[triangle[2] as usize],
            barycentric: near.barycentric,
        };
        let value = shapes::blend_weights(ops, &blend);
        if !scalar::is_finite(value) {
            return Err(VoxelRemeshError::MaskReprojectionFailed { vertex: v });
        }
        weights.push(scalar::clamp_unit(value));
        v += 1;
    }
    Ok(weights)
}

/// A surface as an extraction gives it: so many numbers for each vertex, of which the first three
/// are its coordinates, and three vertex indices for each triangle. `status` tells what failed.
#[derive(Debug)]
pub struct Extraction {
    pub status: Option<String>,
    pub num_prop: u32,
    pub vert_properties: Vec<u32>,
    pub tri_verts: Vec<u32>,
}

/// How an extraction ended.
#[derive(Debug)]
pub enum ExtractionOutcome {
    Panicked { message: String },
    Finished(Extraction),
}

impl Extraction {
    pub open spec fn vertex_count(self) -> nat {
        if self.num_prop == 0 {
            0
        } else {
            self.vert_properties@.len() / (self.num_prop as nat)
        }
    }

    /// The coordinates of the vertices.
    pub open spec fn points(self) -> Seq<Point> {
        Seq::new(
            self.vertex_count(),
            |i: int|
                Point {
                    x: self.vert_properties@[i * self.num_prop],
                    y: self.vert_properties@[i * self.num_prop + 1],
                    z: self.vert_properties@[i * self.num_prop + 2],
                },
        )
    }

    /// Whether triangles are those of the extraction.
    pub open spec fn faces_are(self, triangles: Seq<[u32; 3]>) -> bool {
        &&& triangles.len() == self.tri_verts@.len() / 3
        &&& forall|i: int|
            0 <= i < triangles.len() ==> (#[trigger] triangles[i])@ == seq![
                self.tri_verts@[3 * i],
                self.tri_verts@[3 * i + 1],
                self.tri_verts@[3 * i + 2],
            ]
    }

    /// Whether the arrays have whole vertices and whole triangles.
    pub open spec fn laid_out(self) -> bool {
        &&& self.num_prop >= 3
        &&& self.vert_properties@.len() % (self.num_prop as nat) == 0
        &&& self.tri_verts@.len() % 3 == 0
    }

    /// Reads the vertices, up to the first that is not finite.
    fn read_points(&self) -> (result: Result<Vec<Point>, VoxelRemeshError>)
        requires
            self.laid_out(),
        ensures
            result matches Ok(points) ==> points@ == self.points() && mesh::all_finite(
                points@,
                points@.len() as int,
            ),
            result matches Err(error) ==> match error {
                VoxelRemeshError::NonFiniteOutputVertex { index } => {
                    &&& index < self.points().len()
                    &&& !self.points()[index as int].finite()
                    &&& mesh::all_finite(self.points(), index as int)
                },
                _ => false,
            },
    {
        let stride = self.num_prop as usize;
        let total = self.vert_properties.len();
        let count = total / stride;
        let mut points: Vec<Point> = Vec::with_capacity(count);
        let mut i: usize = 0;
        let mut offset: usize = 0;
        proof {
            vstd::arithmetic::div_mod::lemma_fundamental_div_mod(
                self.vert_properties@.len() as int,
                stride as int,
            );
            assert(0 * stride == 0) by (nonlinear_arith);
        }
        while i < count
            invariant
                i <= count,
                stride == self.num_prop,
                stride >= 3,
                count == self.vertex_count(),
                stride * count == total,
                total == self.vert_properties@.len(),
                offset == i * stride,
                points@.len() == i,
                mesh::all_finite(points@, i as int),
                forall|k: int| 0 <= k < i ==> #[trigger] points@[k] == self.points()[k],
            decreases count - i,
        {
            assert((i + 1) * stride <= stride * count) by (nonlinear_arith)
                requires
                    i + 1 <= count,
                    stride >= 3,
            ;
            assert((i + 1) * stride == i * stride + stride) by (nonlinear_arith);
            let point = Point {
                x: self.vert_properties[offset],
                y: self.vert_properties[offset + 1],
                z: self.vert_properties[offset + 2],
            };
            assert(point == self.points()[i as int]);
            if !point.is_finite() {
                assert forall|k: int| 0 <= k < i implies (#[trigger] self.points()[k]).finite() by {
                    assert(points@[k].finite());
                }
                return Err(VoxelRemeshError::NonFiniteOutputVertex { index: i });
            }
            points.push(point);
            offset = offset + stride;
            i += 1;
        }
        assert(points@ =~= self.points());
        Ok(points)
    }

    fn read_triangles(&self) -> (result: Vec<[u32; 3]>)
        ensures
            self.faces_are(result@),
    {
        let total = self.tri_verts.len();
        let count = total / 3;
        let mut triangles: Vec<[u32; 3]> = Vec::with_capacity(count);
        let mut i: usize = 0;
        while i < count
            invariant
                i <= count,
                count == total / 3,
                total == self.tri_verts@.len(),
                triangles@.len() == i,
                forall|k: int|
                    0 <= k < i ==> (#[trigger] triangles@[k])@ == seq![
                        self.tri_verts@[3 * k],
                        self.tri_verts@[3 * k + 1],
                        self.tri_verts@[3 * k + 2],
                    ],
            decreases count - i,
        {
            let triangle: [u32; 3] = [
                self.tri_verts[3 * i],
                self.tri_verts[3 * i + 1],
                self.tri_verts[3 * i + 2],
            ];
            assert(triangle@ =~= seq![
                self.tri_verts@[3 * i],
                self.tri_verts@[3 * i + 1],
                self.tri_verts@[3 * i + 2],
            ]);
            triangles.push(triangle);
            i += 1;
        }
        triangles
    }
}

/// What an outcome comes to before its surface is looked at: the recorded failure of the distance
/// field first, then the extraction's own, then what is wrong with its arrays.
pub open spec fn extraction_error(outcome: ExtractionOutcome, failure: u8) -> Option<
    VoxelRemeshError,
> {
    match outcome {
        ExtractionOutcome::Panicked { message } => Some(
            VoxelRemeshError::ExtractionPanicked { message },
        ),
        ExtractionOutcome::Finished(extraction) => if failure != QUERY_OK {
            failure_error(failure)
        } else if extraction.status is Some {
            Some(VoxelRemeshError::ExtractionFailed { status: extraction.status->0 })
        } else if extraction.vertex_count() == 0 || extraction.tri_verts@.len() / 3 == 0 {
            Some(VoxelRemeshError::EmptyOutput)
        } else if !extraction.laid_out() {
            Some(VoxelRemeshError::InvalidOutputLayout)
        } else {
            None
        },
    }
}

/// Whether a remesh came out right: the extracted surface is valid, its vertices have the masks of
/// the source, and the mesh is made of it as it is.
pub open spec fn remeshed<
    W: WideArithmetic,
    O: Arithmetic,
    G: Geometry,
>(
    source: Mesh,
    extraction: Extraction,
    voxel_size: u32,
    wide: &W,
    ops: &O,
    geometry: &G,
    output: VoxelRemeshOutput,
) -> bool {
    &&& output.mesh.positions@ == extraction.points()
    &&& extraction.faces_are(output.mesh.triangles@)
    &&& valid_output(output.mesh.positions@, output.mesh.triangles@, wide)
    &&& output.mesh.mask@.len() == extraction.points().len()
    &&& forall|i: int|
        0 <= i < extraction.points().len() ==> reprojected(
            source,
            ops,
            #[trigger] extraction.points()[i],
        ) == Some(output.mesh.mask@[i])
    &&& mesh::all_weights(output.mesh.mask@, output.mesh.mask@.len() as int)
    &&& output.mesh.well_formed()
    &&& output.mesh.smooth(geometry)
    &&& mesh::clean(
        geometry,
        output.mesh.positions@,
        output.mesh.triangles@,
        output.mesh.triangles@.len() as int,
    )
    &&& output.mesh.topology.bvh.fits(output.mesh.positions@, output.mesh.triangles@)
    &&& output.voxel_size == voxel_size
    &&& output.source_faces == source.triangles@.len()
    &&& output.output_faces == output.mesh.triangles@.len()
}

/// Why an extracted surface was not taken: a vertex that is not finite, a surface that is not
/// valid, a mask that could not be taken over, or a mesh that could not be made.
pub open spec fn surface_error<
    W: WideArithmetic,
    O: Arithmetic,
    G: Geometry,
>(
    source: Mesh,
    extraction: Extraction,
    wide: &W,
    ops: &O,
    geometry: &G,
    triangles: Seq<[u32; 3]>,
    error: VoxelRemeshError,
) -> bool {
    let points = extraction.points();
    let valid = valid_output(points, triangles, wide);
    &&& extraction.faces_are(triangles)
    &&& match error {
        VoxelRemeshError::MaskReprojectionFailed { vertex } => {
            &&& valid
            &&& vertex < points.len()
            &&& reprojected(source, ops, points[vertex as int]) is None
            &&& forall|i: int|
                0 <= i < vertex ==> reprojected(
                    source,
                    ops,
                    #[trigger] points[i],
                ) is Some
        },
        VoxelRemeshError::OutputMesh { source: fault } => {
            &&& valid
            &&& exists|mask: Seq<u32>| #[trigger]
                mesh::indexed_geometry_error(geometry, points, triangles, mask, fault)
                    && mask.len() == points.len() && forall|i: int|
                    0 <= i < points.len() ==> reprojected(
                        source,
                        ops,
                        #[trigger] points[i],
                    ) == Some(mask[i])
        },
        error => output_error(points, triangles, wide, error),
    }
}

/// Whether a result is what an outcome comes to.
pub open spec fn finished<
    W: WideArithmetic,
    O: Arithmetic,
    G: Geometry,
>(
    source: Mesh,
    outcome: ExtractionOutcome,
    failure: u8,
    voxel_size: u32,
    wide: &W,
    ops: &O,
    geometry: &G,
    result: Result<VoxelRemeshOutput, VoxelRemeshError>,
) -> bool {
    match extraction_error(outcome, failure) {
        Some(error) => result == Err::<VoxelRemeshOutput, VoxelRemeshError>(error),
        None => match result {
            Ok(output) => remeshed(
                source,
                outcome->Finished_0,
                voxel_size,
                wide,
                ops,
                geometry,
                output,
            ),
            Err(error) => exists|triangles: Seq<[u32; 3]>| #[trigger]
                surface_error(
                    source,
                    outcome->Finished_0,
                    wide,
                    ops,
                    geometry,
                    triangles,
                    error,
                ),
        },
    }
}

/// Whether an outcome's counts fit into an index.
pub open spec fn countable(outcome: ExtractionOutcome) -> bool {
    outcome matches ExtractionOutcome::Finished(extraction) ==> extraction.vertex_count()
        <= u32::MAX && extraction.tri_verts@.len() / 3 <= u32::MAX
}

/// Makes a replacement of an extracted surface.
///
/// The source is only read: whatever comes back, it is as it was.
pub fn finish_remesh<
    W: WideArithmetic,
    O: Arithmetic,
    G: Geometry,
>(
    source: &Mesh,
    outcome: ExtractionOutcome,
    failure: u8,
    voxel_size: u32,
    wide: &W,
    ops: &O,
    geometry: &G,
) -> (result: Result<VoxelRemeshOutput, VoxelRemeshError>)
    requires
        source.well_formed(),
        geometry.total(),
        wide.total(),
        ops.total(),
        countable(outcome),
    ensures
        finished(
            *source,
            outcome,
            failure,
            voxel_size,
            wide,
            ops,
            geometry,
            result,
        ),
{
    let extraction = match outcome {
        ExtractionOutcome::Panicked { message } => {
            return Err(VoxelRemeshError::ExtractionPanicked { message });
        },
        ExtractionOutcome::Finished(extraction) => extraction,
    };
    if let Some(error) = query_failure_error(failure) {
        return Err(error);
    }
    let ghost given = extraction;
    if let Some(status) = extraction.status {
        return Err(VoxelRemeshError::ExtractionFailed { status });
    }
    let extraction = Extraction {
        status: None,
        num_prop: extraction.num_prop,
        vert_properties: extraction.vert_properties,
        tri_verts: extraction.tri_verts,
    };
    assert(extraction == given);
    if extraction.num_prop == 0 || extraction.vert_properties.len() / (extraction.num_prop as usize)
        == 0 || extraction.tri_verts.len() / 3 == 0 {
        return Err(VoxelRemeshError::EmptyOutput);
    }
    if extraction.num_prop < 3 || extraction.vert_properties.len() % (extraction.num_prop as usize)
        != 0 || extraction.tri_verts.len() % 3 != 0 {
        return Err(VoxelRemeshError::InvalidOutputLayout);
    }
    let triangles = extraction.read_triangles();
    let ghost faces = triangles@;
    let positions = match extraction.read_points() {
        Ok(positions) => positions,
        Err(error) => {
            assert(surface_error(
                *source,
                extraction,
                wide,
                ops,
                geometry,
                faces,
                error,
            ));
            return Err(error);
        },
    };
    match validate_output(&positions, &triangles, wide) {
        Ok(()) => {},
        Err(error) => {
            assert(surface_error(
                *source,
                extraction,
                wide,
                ops,
                geometry,
                faces,
                error,
            ));
            return Err(error);
        },
    }
    let masks = match reproject_masks(source, &positions, ops) {
        Ok(masks) => masks,
        Err(error) => {
            assert(surface_error(
                *source,
                extraction,
                wide,
                ops,
                geometry,
                faces,
                error,
            ));
            return Err(error);
        },
    };
    let ghost weights = masks@;
    let output_faces = triangles.len();
    match Mesh::from_indexed(positions, triangles, masks, geometry) {
        Ok(mesh) => Ok(
            VoxelRemeshOutput {
                mesh,
                voxel_size,
                source_faces: source.triangles.len(),
                output_faces,
            },
        ),
        Err(fault) => {
            let error = VoxelRemeshError::OutputMesh { source: fault };
            assert(mesh::indexed_geometry_error(
                geometry,
                extraction.points(),
                faces,
                weights,
                fault,
            ));
            assert(surface_error(
                *source,
                extraction,
                wide,
                ops,
                geometry,
                faces,
                error,
            ));
            Err(error)
        },
    }
}

/// How an extraction over a grid ended, and the failure that its distance field recorded.
#[derive(Debug)]
pub struct ExtractionRun {
    pub outcome: ExtractionOutcome,
    pub failure: u8,
}

/// Whether a result is what the run of an extraction comes to.
pub open spec fn run_finished<
    W: WideArithmetic,
    O: Arithmetic,
    G: Geometry,
>(
    source: Mesh,
    run: ExtractionRun,
    voxel_size: u32,
    wide: &W,
    ops: &O,
    geometry: &G,
    result: Result<VoxelRemeshOutput, VoxelRemeshError>,
) -> bool {
    finished(
        source,
        run.outcome,
        run.failure,
        voxel_size,
        wide,
        ops,
        geometry,
        result,
    )
}

/// Whether a result is what remeshing a mesh comes to: why the mesh is not eligible, why there is
/// no grid over it, or what the run of an extraction over that grid comes to.
pub open spec fn remesh_answered<
    E: Fn(ExtractionGrid) -> ExtractionRun,
    W: WideArithmetic,
    O: Arithmetic,
    G: Geometry,
>(
    source: Mesh,
    settings: VoxelRemeshSettings,
    extract: E,
    wide: &W,
    ops: &O,
    geometry: &G,
    result: Result<VoxelRemeshOutput, VoxelRemeshError>,
) -> bool {
    if !eligible(source) {
        result matches Err(error) && ineligible_because(source, error)
    } else {
        exists|grid: Result<ExtractionGrid, VoxelRemeshError>| #[trigger]
            grid_result(source, settings, ops, wide, grid) && match grid {
                Err(error) => result == Err::<VoxelRemeshOutput, VoxelRemeshError>(error),
                Ok(grid) => exists|run: ExtractionRun| #[trigger]
                    call_ensures(extract, (grid,), run) && run_finished(
                        source,
                        run,
                        wide.spec_narrowed(grid.voxel_size),
                        wide,
                        ops,
                        geometry,
                        result,
                    ),
            }
    }
}

/// Rebuilds a closed two-manifold mesh from its signed distance field.
///
/// A source that is not eligible, or for which there is no grid, is refused before anything is
/// extracted. `extract` samples the field over the grid and takes the surface out of it.
pub fn voxel_remesh<
    E: Fn(ExtractionGrid) -> ExtractionRun,
    W: WideArithmetic,
    O: Arithmetic,
    G: Geometry,
>(
    source: &Mesh,
    settings: VoxelRemeshSettings,
    extract: &E,
    wide: &W,
    ops: &O,
    geometry: &G,
) -> (result: Result<VoxelRemeshOutput, VoxelRemeshError>)
    requires
        source.well_formed(),
        geometry.total(),
        wide.total(),
        ops.total(),
        forall|grid: ExtractionGrid| #[trigger] call_requires(*extract, (grid,)),
        forall|grid: ExtractionGrid, run: ExtractionRun| #[trigger]
            call_ensures(*extract, (grid,), run) ==> countable(run.outcome),
    ensures
        remesh_answered(*source, settings, *extract, wide, ops, geometry, result),
{
    match source_eligibility(source) {
        Ok(()) => {},
        Err(error) => {
            return Err(error);
        },
    }
    let grid = match extraction_grid(source, settings, ops, wide) {
        Ok(grid) => grid,
        Err(error) => {
            return Err(error);
        },
    };
    let run = extract(grid);
    let ghost came = run;
    let voxel_size = wide.narrowed(grid.voxel_size);
    let result = finish_remesh(
        source,
        run.outcome,
        run.failure,
        voxel_size,
        wide,
        ops,
        geometry,
    );
    assert(run_finished(*source, came, voxel_size, wide, ops, geometry, result));
    result
}

/// Whether two runs of an extraction gave the same surface, or both gave none for the same reason.
pub open spec fn runs_alike(a: ExtractionRun, b: ExtractionRun) -> bool {
    &&& a.failure == b.failure
    &&& match (a.outcome, b.outcome) {
        (ExtractionOutcome::Panicked { .. }, ExtractionOutcome::Panicked { .. }) => true,
        (ExtractionOutcome::Finished(one), ExtractionOutcome::Finished(other)) => {
            &&& one.status is Some == other.status is Some
            &&& one.num_prop == other.num_prop
            &&& one.vert_properties@ == other.vert_properties@
            &&& one.tri_verts@ == other.tri_verts@
        },
        _ => false,
    }
}

/// Whether an extraction gives the same surface over the same grid.
pub open spec fn repeatable<E: Fn(ExtractionGrid) -> ExtractionRun>(extract: E) -> bool {
    forall|grid: ExtractionGrid, a: ExtractionRun, b: ExtractionRun| #[trigger]
        call_ensures(extract, (grid,), a) && #[trigger] call_ensures(extract, (grid,), b)
            ==> runs_alike(a, b)
}

/// Whether two results are the same: both are refusals, or both have the same positions, faces,
/// weights and normals, and report the same.
pub open spec fn same_replacement(
    a: Result<VoxelRemeshOutput, VoxelRemeshError>,
    b: Result<VoxelRemeshOutput, VoxelRemeshError>,
) -> bool {
    match (a, b) {
        (Ok(one), Ok(other)) => {
            &&& one.mesh.positions@ == other.mesh.positions@
            &&& one.mesh.triangles@ == other.mesh.triangles@
            &&& one.mesh.mask@ == other.mesh.mask@
            &&& one.mesh.normals@ == other.mesh.normals@
            &&& one.voxel_size == other.voxel_size
            &&& one.source_faces == other.source_faces
            &&& one.output_faces == other.output_faces
        },
        (Err(_), Err(_)) => true,
        _ => false,
    }
}

proof fn lemma_same_faces(a: Extraction, b: Extraction, one: Seq<[u32; 3]>, other: Seq<[u32; 3]>)
    requires
        a.tri_verts@ == b.tri_verts@,
        a.faces_are(one),
        b.faces_are(other),
    ensures
        one == other,
{
    assert forall|i: int| 0 <= i < one.len() implies one[i] == other[i] by {
        assert(one[i]@ == other[i]@);
    }
    assert(one =~= other);
}

/// A surface that made a replacement is not refused the next time.
proof fn lemma_not_refused<W: WideArithmetic, O: Arithmetic, G: Geometry>(
    source: Mesh,
    a: Extraction,
    b: Extraction,
    voxel_size: u32,
    wide: &W,
    ops: &O,
    geometry: &G,
    output: VoxelRemeshOutput,
    triangles: Seq<[u32; 3]>,
    error: VoxelRemeshError,
)
    requires
        a.points() == b.points(),
        a.tri_verts@ == b.tri_verts@,
        remeshed(source, a, voxel_size, wide, ops, geometry, output),
    ensures
        !surface_error(source, b, wide, ops, geometry, triangles, error),
{
    if surface_error(source, b, wide, ops, geometry, triangles, error) {
        let points = a.points();
        lemma_same_faces(a, b, output.mesh.triangles@, triangles);
        assert(valid_output(points, triangles, wide));
        match error {
            VoxelRemeshError::MaskReprojectionFailed { vertex } => {
                assert(reprojected(source, ops, points[vertex as int]) is Some);
            },
            VoxelRemeshError::OutputMesh { source: fault } => {
                let mask = choose|mask: Seq<u32>| #[trigger]
                    mesh::indexed_geometry_error(geometry, points, triangles, mask, fault)
                        && mask.len() == points.len() && forall|i: int|
                        0 <= i < points.len() ==> reprojected(
                            source,
                            ops,
                            #[trigger] points[i],
                        ) == Some(mask[i]);
                assert forall|i: int| 0 <= i < mask.len() implies mask[i]
                    == output.mesh.mask@[i] by {
                    assert(reprojected(source, ops, points[i]) == Some(mask[i]));
                }
                assert(mask =~= output.mesh.mask@);
                assert(mesh::all_exist(triangles, points.len(), triangles.len() as int)) by {
                    assert forall|i: int| 0 <= i < triangles.len() implies mesh::corners_exist(
                        #[trigger] triangles[i],
                        points.len(),
                    ) by {
                        assert(topology::distinct_corners(output.mesh.triangles@[i]));
                    }
                }
            },
            _ => {},
        }
    }
}

/// Equal surfaces give equal replacements.
pub proof fn equal_surfaces_give_equal_replacements<
    W: WideArithmetic,
    O: Arithmetic,
    G: Geometry,
>(
    source: Mesh,
    a: ExtractionRun,
    b: ExtractionRun,
    voxel_size: u32,
    wide: &W,
    ops: &O,
    geometry: &G,
    one: Result<VoxelRemeshOutput, VoxelRemeshError>,
    other: Result<VoxelRemeshOutput, VoxelRemeshError>,
)
    requires
        runs_alike(a, b),
        run_finished(source, a, voxel_size, wide, ops, geometry, one),
        run_finished(source, b, voxel_size, wide, ops, geometry, other),
    ensures
        same_replacement(one, other),
{
    if extraction_error(a.outcome, a.failure) is None {
        let first = a.outcome->Finished_0;
        let second = b.outcome->Finished_0;
        assert(first.points() =~= second.points());
        match (one, other) {
            (Ok(output), Err(error)) => {
                let triangles = choose|triangles: Seq<[u32; 3]>| #[trigger]
                    surface_error(source, second, wide, ops, geometry, triangles, error);
                lemma_not_refused(
                    source,
                    first,
                    second,
                    voxel_size,
                    wide,
                    ops,
                    geometry,
                    output,
                    triangles,
                    error,
                );
            },
            (Err(error), Ok(output)) => {
                let triangles = choose|triangles: Seq<[u32; 3]>| #[trigger]
                    surface_error(source, first, wide, ops, geometry, triangles, error);
                lemma_not_refused(
                    source,
                    second,
                    first,
                    voxel_size,
                    wide,
                    ops,
                    geometry,
                    output,
                    triangles,
                    error,
                );
            },
            (Ok(output), Ok(again)) => {
                lemma_same_faces(first, second, output.mesh.triangles@, again.mesh.triangles@);
                let points = first.points();
                assert forall|i: int| 0 <= i < points.len() implies output.mesh.mask@[i]
                    == again.mesh.mask@[i] by {
                    assert(reprojected(source, ops, points[i]) == Some(output.mesh.mask@[i]));
                    assert(reprojected(source, ops, second.points()[i]) == Some(
                        again.mesh.mask@[i],
                    ));
                }
                assert(output.mesh.mask@ =~= again.mesh.mask@);
                assert(output.mesh.normals@ =~= again.mesh.normals@);
            },
            (Err(_), Err(_)) => {},
        }
    }
}

/// Remeshing a mesh a second time gives the same replacement, where the extraction gives the same
/// surface over the same grid.
pub proof fn remeshing_is_repeatable<
    E: Fn(ExtractionGrid) -> ExtractionRun,
    W: WideArithmetic,
    O: Arithmetic,
    G: Geometry,
>(
    source: Mesh,
    settings: VoxelRemeshSettings,
    extract: E,
    wide: &W,
    ops: &O,
    geometry: &G,
    one: Result<VoxelRemeshOutput, VoxelRemeshError>,
    other: Result<VoxelRemeshOutput, VoxelRemeshError>,
)
    requires
        repeatable(extract),
        remesh_answered(source, settings, extract, wide, ops, geometry, one),
        remesh_answered(source, settings, extract, wide, ops, geometry, other),
    ensures
        same_replacement(one, other),
{
    if eligible(source) {
        let first = choose|grid: Result<ExtractionGrid, VoxelRemeshError>| #[trigger]
            grid_result(source, settings, ops, wide, grid) && match grid {
                Err(error) => one == Err::<VoxelRemeshOutput, VoxelRemeshError>(error),
                Ok(grid) => exists|run: ExtractionRun| #[trigger]
                    call_ensures(extract, (grid,), run) && run_finished(
                        source,
                        run,
                        wide.spec_narrowed(grid.voxel_size),
                        wide,
                        ops,
                        geometry,
                        one,
                    ),
            };
        let second = choose|grid: Result<ExtractionGrid, VoxelRemeshError>| #[trigger]
            grid_result(source, settings, ops, wide, grid) && match grid {
                Err(error) => other == Err::<VoxelRemeshOutput, VoxelRemeshError>(error),
                Ok(grid) => exists|run: ExtractionRun| #[trigger]
                    call_ensures(extract, (grid,), run) && run_finished(
                        source,
                        run,
                        wide.spec_narrowed(grid.voxel_size),
                        wide,
                        ops,
                        geometry,
                        other,
                    ),
            };
        if let Ok(grid) = first {
            assert(second == Ok::<ExtractionGrid, VoxelRemeshError>(grid));
            let voxel_size = wide.spec_narrowed(grid.voxel_size);
            let a = choose|run: ExtractionRun| #[trigger]
                call_ensures(extract, (grid,), run) && run_finished(
                    source,
                    run,
                    voxel_size,
                    wide,
                    ops,
                    geometry,
                    one,
                );
            let b = choose|run: ExtractionRun| #[trigger]
                call_ensures(extract, (grid,), run) && run_finished(
                    source,
                    run,
                    voxel_size,
                    wide,
                    ops,
                    geometry,
                    other,
                );
            assert(runs_alike(a, b));
            equal_surfaces_give_equal_replacements(
                source,
                a,
                b,
                voxel_size,
                wide,
                ops,
                geometry,
                one,
                other,
            );
        }
    }
}

proof fn lemma_none_set(flags: Seq<bool>)
    requires
        forall|i: int| 0 <= i < flags.len() ==> !#[trigger] flags[i],
    ensures
        topology::count_set(flags) == 0,
    decreases flags.len(),
{
    if flags.len() > 0 {
        let front = flags.drop_last();
        assert forall|i: int| 0 <= i < front.len() implies !#[trigger] front[i] by {
            assert(front[i] == flags[i]);
        }
        lemma_none_set(front);
        assert(!flags[flags.len() - 1]);
    }
}

/// A replacement is closed and two-manifold, so it can itself be remeshed.
pub proof fn a_replacement_can_be_remeshed_again<W: WideArithmetic>(
    mesh: Mesh,
    wide: &W,
)
    requires
        mesh.well_formed(),
        mesh::all_weights(mesh.mask@, mesh.mask@.len() as int),
        valid_output(mesh.positions@, mesh.triangles@, wide),
    ensures
        eligible(mesh),
{
    let edges = mesh.topology.edge_faces@;
    let triangles = mesh.triangles@;
    assert forall|side: EdgeKey| #[trigger] edges.contains_key(side) implies edges[side].len()
        == 2 by {
        assert(topology::edge_uses(triangles, side).len() > 0);
        assert(collections::listed(edges, side) == topology::edge_uses(triangles, side));
        assert(sealed(triangles, side));
    }
    assert(topology::boundary_edges(edges) =~= Set::<EdgeKey>::empty());
    assert(topology::crowded_edges(edges) =~= Set::<EdgeKey>::empty());
    let flags = mesh.topology.non_manifold_vertices@;
    assert forall|i: int| 0 <= i < flags.len() implies !#[trigger] flags[i] by {
        let v = i as u32;
        assert forall|side: EdgeKey| #[trigger] topology::edge_uses(triangles, side).len()
            > 0 implies topology::edge_uses(triangles, side).len() == 2 by {
            assert(sealed(triangles, side));
        }
        assert(!topology::on_crowded_edge(triangles, v));
        assert(topology::boundary_ends(triangles, v) =~= Set::<u32>::empty());
        assert(topology::incident_faces(triangles, v).len() > 0);
        assert(!topology::non_manifold(triangles, v));
    }
    lemma_none_set(flags);
    assert(mesh::all_exist(triangles, mesh.positions@.len(), triangles.len() as int)) by {
        assert forall|i: int| 0 <= i < triangles.len() implies mesh::corners_exist(
            #[trigger] triangles[i],
            mesh.positions@.len(),
        ) by {}
    }
}

} // verus!
