//! The plane that a brush works against.
use crate::arithmetic;
use crate::arithmetic::Arithmetic;
use crate::brush;
use crate::brush::BrushSample;
use crate::brush::BrushSettings;
use crate::brush::SculptTool;
use crate::mesh::Mesh;
use crate::pass;
use crate::pass::PassSide;
use crate::pass::PreparedPass;
use crate::scalar;
use crate::scalar::Point;
use crate::table::Table;
use crate::topology;
use vstd::prelude::*;

verus! {

/// The bit pattern of `6.0`.
pub const SIX: u32 = 0x40c0_0000;

/// The bit pattern of `0.35`, the part of a new plane that goes into the plane of a stroke.
pub const PLANE_GAIN: u32 = 0x3eb3_3333;

/// The bit pattern of `0.65`, the part of a normal that stays.
pub const PLANE_KEEP: u32 = 0x3f26_6666;

/// A plane by a point on it and its normal.
#[derive(Clone, Copy, Debug, PartialEq, Eq, Structural)]
pub struct BrushFrame {
    pub origin: Point,
    pub normal: Point,
}

/// What a stroke keeps a plane for.
#[derive(Clone, Copy, Debug, PartialEq, Eq, Hash, Structural)]
pub struct PlaneChannel {
    pub tool: SculptTool,
    pub side: PassSide,
}

impl PlaneChannel {
    pub open spec fn spec_code(self) -> u32 {
        (2 * self.tool.spec_code() + if self.side == PassSide::Mirrored {
            1int
        } else {
            0int
        }) as u32
    }

    /// A number of its own for each plane that is kept.
    pub(crate) fn code(self) -> (result: u32)
        ensures
            result == self.spec_code(),
    {
        match self.side {
            PassSide::Primary => 2 * self.tool.code(),
            PassSide::Mirrored => 2 * self.tool.code() + 1,
        }
    }
}

/// No two planes that are kept share a number.
pub proof fn codes_tell_planes_apart(a: PlaneChannel, b: PlaneChannel)
    requires
        a.spec_code() == b.spec_code(),
    ensures
        a == b,
{
}

/// A third of the area of a face.
pub open spec fn third_of_area<O: Arithmetic>(ops: &O, mesh: Mesh, face: u32) -> u32 {
    let triangle = mesh.triangles@[face as int];
    let a = mesh.positions@[triangle@[0] as int];
    let b = mesh.positions@[triangle@[1] as int];
    let c = mesh.positions@[triangle@[2] as int];
    ops.spec_quotient(
        arithmetic::spec_length(
            ops,
            arithmetic::spec_cross(
                ops,
                arithmetic::spec_minus(ops, b, a),
                arithmetic::spec_minus(ops, c, a),
            ),
        ),
        SIX,
    )
}

/// The thirds of the areas of faces, added up.
pub open spec fn area_of<O: Arithmetic>(ops: &O, mesh: Mesh, faces: Seq<u32>) -> u32
    decreases faces.len(),
{
    if faces.len() == 0 {
        scalar::ZERO
    } else {
        ops.spec_sum(
            area_of(ops, mesh, faces.drop_last()),
            third_of_area(ops, mesh, faces.last()),
        )
    }
}

/// The part of the surface that belongs to a vertex.
pub open spec fn surface_at<O: Arithmetic>(ops: &O, mesh: Mesh, vertex: u32) -> u32 {
    area_of(ops, mesh, topology::incident_faces(mesh.triangles@, vertex))
}

/// The position of a vertex, as collected before anything moved.
pub(crate) fn source_position(mesh: &Mesh, source: &Table<Point>, vertex: u32) -> (result: Point)
    requires
        source.well_formed(),
        pass::holds_positions(*mesh, source@),
        vertex < mesh.positions@.len(),
    ensures
        result == mesh.positions@[vertex as int],
{
    match source.get(vertex) {
        Some(position) => position,
        None => mesh.positions[vertex as usize],
    }
}

pub(crate) fn vertex_surface_area<O: Arithmetic>(
    mesh: &Mesh,
    vertex: u32,
    source: &Table<Point>,
    ops: &O,
) -> (result: u32)
    requires
        ops.total(),
        mesh.well_formed(),
        source.well_formed(),
        pass::holds_positions(*mesh, source@),
        vertex < mesh.positions@.len(),
    ensures
        result == surface_at(ops, *mesh, vertex),
{
    let faces = mesh.topology.vertex_triangles[vertex as usize].as_slice();
    let mut area: u32 = scalar::ZERO;
    let mut f: usize = 0;
    proof {
        topology::lemma_faces_with(
            mesh.triangles@,
            |triangle: [u32; 3]| topology::is_corner(triangle, vertex),
        );
    }
    while f < faces.len()
        invariant
            f <= faces@.len(),
            ops.total(),
            mesh.well_formed(),
            source.well_formed(),
            pass::holds_positions(*mesh, source@),
            faces@ == topology::incident_faces(mesh.triangles@, vertex),
            forall|i: int| 0 <= i < faces@.len() ==> #[trigger] faces@[i] < mesh.triangles@.len(),
            area == area_of(ops, *mesh, faces@.take(f as int)),
        decreases faces@.len() - f,
    {
        let face = faces[f];
        assert(faces@[f as int] < mesh.triangles@.len());
        let triangle = mesh.triangles[face as usize];
        assert(topology::distinct_corners(mesh.triangles@[face as int]));
        let a = source_position(mesh, source, triangle[0]);
        let b = source_position(mesh, source, triangle[1]);
        let c = source_position(mesh, source, triangle[2]);
        let cross = arithmetic::cross(
            ops,
            arithmetic::minus(ops, b, a),
            arithmetic::minus(ops, c, a),
        );
        area = ops.sum(area, ops.quotient(arithmetic::length(ops, cross), SIX));
        assert(faces@.take(f + 1).drop_last() =~= faces@.take(f as int));
        f += 1;
    }
    assert(faces@.take(f as int) =~= faces@);
    area
}

/// Weighted sums over the vertices under a brush.
#[derive(Clone, Copy, Debug, PartialEq, Eq, Structural)]
pub struct FrameSum {
    pub position: Point,
    pub normal: Point,
    pub weight: u32,
}

/// A vector turned to the side of another.
pub open spec fn turned<O: Arithmetic>(ops: &O, vector: Point, side: Point) -> Point {
    if scalar::lt(arithmetic::spec_dot(ops, vector, side), scalar::ZERO) {
        arithmetic::spec_opposite(vector)
    } else {
        vector
    }
}

pub(crate) fn turn<O: Arithmetic>(ops: &O, vector: Point, side: Point) -> (result: Point)
    requires
        ops.total(),
    ensures
        result == turned(ops, vector, side),
{
    if scalar::is_less(arithmetic::dot(ops, vector, side), scalar::ZERO) {
        arithmetic::opposite(vector)
    } else {
        vector
    }
}

/// The sums with one more vertex, which counts by the brush's weight and its surface.
pub open spec fn summed_with<O: Arithmetic>(
    ops: &O,
    mesh: Mesh,
    settings: BrushSettings,
    sample: BrushSample,
    sum: FrameSum,
    vertex: u32,
) -> FrameSum {
    let position = mesh.positions@[vertex as int];
    let falloff = brush::weight_at(ops, settings, sample.center, position);
    if scalar::le(falloff, scalar::EPSILON) {
        sum
    } else {
        let weight = ops.spec_product(
            falloff,
            scalar::greatest(surface_at(ops, mesh, vertex), scalar::EPSILON),
        );
        let normal = turned(
            ops,
            arithmetic::spec_unit(ops, mesh.normals@[vertex as int]),
            arithmetic::spec_unit(ops, sample.normal),
        );
        FrameSum {
            position: arithmetic::spec_plus(
                ops,
                sum.position,
                arithmetic::spec_times(ops, position, weight),
            ),
            normal: arithmetic::spec_plus(
                ops,
                sum.normal,
                arithmetic::spec_times(ops, normal, weight),
            ),
            weight: ops.spec_sum(sum.weight, weight),
        }
    }
}

pub open spec fn summed<O: Arithmetic>(
    ops: &O,
    mesh: Mesh,
    settings: BrushSettings,
    sample: BrushSample,
    vertices: Seq<u32>,
) -> FrameSum
    decreases vertices.len(),
{
    if vertices.len() == 0 {
        FrameSum {
            position: arithmetic::origin(),
            normal: arithmetic::origin(),
            weight: scalar::ZERO,
        }
    } else {
        summed_with(
            ops,
            mesh,
            settings,
            sample,
            summed(ops, mesh, settings, sample, vertices.drop_last()),
            vertices.last(),
        )
    }
}

/// The plane through the surface under a brush, or through the sample where there is none.
pub open spec fn raw_frame<O: Arithmetic>(
    ops: &O,
    mesh: Mesh,
    settings: BrushSettings,
    sample: BrushSample,
    vertices: Seq<u32>,
) -> BrushFrame {
    let sum = summed(ops, mesh, settings, sample, vertices);
    let fallback = arithmetic::spec_unit(ops, sample.normal);
    if scalar::le(sum.weight, scalar::EPSILON) {
        BrushFrame { origin: sample.center, normal: fallback }
    } else {
        let normal = arithmetic::spec_unit(ops, sum.normal);
        BrushFrame {
            origin: arithmetic::spec_over(ops, sum.position, sum.weight),
            normal: if normal.same(arithmetic::origin()) {
                fallback
            } else {
                normal
            },
        }
    }
}

pub(crate) fn area_weighted_brush_frame<O: Arithmetic>(
    mesh: &Mesh,
    settings: &BrushSettings,
    pass: &PreparedPass,
    source: &Table<Point>,
    ops: &O,
) -> (result: BrushFrame)
    requires
        ops.total(),
        mesh.well_formed(),
        source.well_formed(),
        pass::holds_positions(*mesh, source@),
        pass::all_vertices(pass.vertices@, mesh.positions@.len()),
    ensures
        result == raw_frame(ops, *mesh, *settings, pass.sample, pass.vertices@),
{
    let fallback = arithmetic::unit(ops, pass.sample.normal);
    let zero = Point { x: scalar::ZERO, y: scalar::ZERO, z: scalar::ZERO };
    let mut weighted_position = zero;
    let mut weighted_normal = zero;
    let mut weight_sum: u32 = scalar::ZERO;
    let mut i: usize = 0;
    while i < pass.vertices.len()
        invariant
            i <= pass.vertices@.len(),
            ops.total(),
            mesh.well_formed(),
            source.well_formed(),
            pass::holds_positions(*mesh, source@),
            pass::all_vertices(pass.vertices@, mesh.positions@.len()),
            fallback == arithmetic::spec_unit(ops, pass.sample.normal),
            summed(ops, *mesh, *settings, pass.sample, pass.vertices@.take(i as int)) == (
            FrameSum {
                position: weighted_position,
                normal: weighted_normal,
                weight: weight_sum,
            }),
        decreases pass.vertices@.len() - i,
    {
        let vertex = pass.vertices[i];
        assert(pass.vertices@[i as int] < mesh.positions@.len());
        assert(pass.vertices@.take(i + 1).drop_last() =~= pass.vertices@.take(i as int));
        i += 1;
        let position = source_position(mesh, source, vertex);
        let falloff = brush::brush_weight(settings, pass.sample.center, position, ops);
        if scalar::is_at_most(falloff, scalar::EPSILON) {
            continue;
        }
        let area = vertex_surface_area(mesh, vertex, source, ops);
        let weight = ops.product(falloff, scalar::max(area, scalar::EPSILON));
        let normal = turn(
            ops,
            arithmetic::unit(ops, mesh.normals[vertex as usize]),
            fallback,
        );
        weighted_position = arithmetic::plus(
            ops,
            weighted_position,
            arithmetic::times(ops, position, weight),
        );
        weighted_normal = arithmetic::plus(
            ops,
            weighted_normal,
            arithmetic::times(ops, normal, weight),
        );
        weight_sum = ops.sum(weight_sum, weight);
    }
    assert(pass.vertices@.take(i as int) =~= pass.vertices@);
    if scalar::is_at_most(weight_sum, scalar::EPSILON) {
        return BrushFrame { origin: pass.sample.center, normal: fallback };
    }
    let normal = arithmetic::unit(ops, weighted_normal);
    BrushFrame {
        origin: arithmetic::over(ops, weighted_position, weight_sum),
        normal: if normal.is_same(&zero) {
            fallback
        } else {
            normal
        },
    }
}

/// A plane of a stroke, moved some of the way to a new one.
pub open spec fn settled_frame<O: Arithmetic>(
    ops: &O,
    previous: BrushFrame,
    raw: BrushFrame,
) -> BrushFrame {
    BrushFrame {
        origin: arithmetic::spec_plus(
            ops,
            arithmetic::spec_times(
                ops,
                previous.origin,
                ops.spec_difference(scalar::ONE, PLANE_GAIN),
            ),
            arithmetic::spec_times(ops, raw.origin, PLANE_GAIN),
        ),
        normal: arithmetic::spec_unit(
            ops,
            arithmetic::spec_plus(
                ops,
                arithmetic::spec_times(ops, previous.normal, PLANE_KEEP),
                arithmetic::spec_times(
                    ops,
                    turned(ops, raw.normal, previous.normal),
                    PLANE_GAIN,
                ),
            ),
        ),
    }
}

fn settle_frame<O: Arithmetic>(ops: &O, previous: BrushFrame, raw: BrushFrame) -> (result:
    BrushFrame)
    requires
        ops.total(),
    ensures
        result == settled_frame(ops, previous, raw),
{
    let normal = turn(ops, raw.normal, previous.normal);
    BrushFrame {
        origin: arithmetic::plus(
            ops,
            arithmetic::times(
                ops,
                previous.origin,
                ops.difference(scalar::ONE, PLANE_GAIN),
            ),
            arithmetic::times(ops, raw.origin, PLANE_GAIN),
        ),
        normal: arithmetic::unit(
            ops,
            arithmetic::plus(
                ops,
                arithmetic::times(ops, previous.normal, PLANE_KEEP),
                arithmetic::times(ops, normal, PLANE_GAIN),
            ),
        ),
    }
}

/// Whether a stroke keeps a plane for a tool.
pub open spec fn keeps_plane(tool: SculptTool) -> bool {
    tool == SculptTool::Clay || tool == SculptTool::Flatten
}

/// The plane for a pass: for tools with a plane of the stroke that plane, moved toward the surface
/// under the brush, else the plane of the surface.
pub open spec fn frame_for<O: Arithmetic>(
    ops: &O,
    mesh: Mesh,
    tool: SculptTool,
    settings: BrushSettings,
    committed: Map<u32, BrushFrame>,
    pass: PreparedPass,
) -> BrushFrame {
    let raw = raw_frame(ops, mesh, settings, pass.sample, pass.vertices@);
    let code = PlaneChannel { tool, side: pass.side }.spec_code();
    if keeps_plane(tool) && committed.contains_key(code) {
        settled_frame(ops, committed[code], raw)
    } else {
        raw
    }
}

pub open spec fn frames_for<O: Arithmetic>(
    ops: &O,
    mesh: Mesh,
    tool: SculptTool,
    settings: BrushSettings,
    committed: Map<u32, BrushFrame>,
    passes: Seq<PreparedPass>,
) -> Seq<BrushFrame> {
    Seq::new(
        passes.len(),
        |i: int| frame_for(ops, mesh, tool, settings, committed, passes[i]),
    )
}

/// The planes that a stroke keeps from some passes.
pub open spec fn planes_from<O: Arithmetic>(
    ops: &O,
    mesh: Mesh,
    tool: SculptTool,
    settings: BrushSettings,
    committed: Map<u32, BrushFrame>,
    passes: Seq<PreparedPass>,
) -> Map<u32, BrushFrame>
    decreases passes.len(),
{
    if passes.len() == 0 || !keeps_plane(tool) {
        Map::empty()
    } else {
        planes_from(ops, mesh, tool, settings, committed, passes.drop_last()).insert(
            PlaneChannel { tool, side: passes.last().side }.spec_code(),
            frame_for(ops, mesh, tool, settings, committed, passes.last()),
        )
    }
}

/// Works out the planes for some passes, and those to keep.
pub fn prepare_brush_frames<O: Arithmetic>(
    mesh: &Mesh,
    tool: SculptTool,
    settings: &BrushSettings,
    passes: &Vec<PreparedPass>,
    source: &Table<Point>,
    committed: &Table<BrushFrame>,
    ops: &O,
) -> (result: (Vec<BrushFrame>, Table<BrushFrame>))
    requires
        ops.total(),
        mesh.well_formed(),
        source.well_formed(),
        pass::holds_positions(*mesh, source@),
        pass::sound(passes@, mesh.positions@.len()),
        committed.well_formed(),
    ensures
        result.0@ == frames_for(ops, *mesh, tool, *settings, committed@, passes@),
        result.1.well_formed(),
        result.1@ == planes_from(ops, *mesh, tool, *settings, committed@, passes@),
{
    let mut frames: Vec<BrushFrame> = Vec::with_capacity(passes.len());
    let mut staged: Table<BrushFrame> = Table::new();
    let kept = match tool {
        SculptTool::Clay => true,
        SculptTool::Flatten => true,
        _ => false,
    };
    let mut p: usize = 0;
    while p < passes.len()
        invariant
            p <= passes@.len(),
            kept == keeps_plane(tool),
            ops.total(),
            mesh.well_formed(),
            source.well_formed(),
            pass::holds_positions(*mesh, source@),
            pass::sound(passes@, mesh.positions@.len()),
            committed.well_formed(),
            staged.well_formed(),
            frames@.len() == p,
            forall|i: int|
                0 <= i < p ==> #[trigger] frames@[i] == frame_for(
                    ops,
                    *mesh,
                    tool,
                    *settings,
                    committed@,
                    passes@[i],
                ),
            staged@ == planes_from(
                ops,
                *mesh,
                tool,
                *settings,
                committed@,
                passes@.take(p as int),
            ),
        decreases passes@.len() - p,
    {
        assert(pass::all_vertices(passes@[p as int].vertices@, mesh.positions@.len()));
        assert(passes@.take(p + 1).drop_last() =~= passes@.take(p as int));
        let raw = area_weighted_brush_frame(mesh, settings, &passes[p], source, ops);
        if kept {
            let channel = PlaneChannel { tool, side: passes[p].side };
            let code = channel.code();
            let stable = match committed.get(code) {
                Some(previous) => settle_frame(ops, previous, raw),
                None => raw,
            };
            staged.insert(code, stable);
            frames.push(stable);
        } else {
            frames.push(raw);
        }
        p += 1;
    }
    assert(passes@.take(p as int) =~= passes@);
    assert(frames@ =~= frames_for(ops, *mesh, tool, *settings, committed@, passes@));
    (frames, staged)
}

} // verus!
