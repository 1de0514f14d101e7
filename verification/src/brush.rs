//! Tools, their settings and the samples of a stroke.
use crate::arithmetic;
use crate::arithmetic::Arithmetic;
use crate::query::RayHit;
use crate::scalar;
use crate::scalar::Point;
use vstd::prelude::*;

verus! {

#[derive(Clone, Copy, Debug, PartialEq, Eq, Hash, Structural)]
pub enum SculptTool {
    Grab,
    Draw,
    Clay,
    Crease,
    Inflate,
    Smooth,
    Pinch,
    Flatten,
    Mask,
}

impl Default for SculptTool {
    fn default() -> (result: SculptTool)
        ensures
            result == SculptTool::Draw,
    {
        SculptTool::Draw
    }
}

impl SculptTool {
    /// The tools in the order in which they are offered.
    pub const ALL: [SculptTool; 9] = [
        SculptTool::Draw,
        SculptTool::Clay,
        SculptTool::Crease,
        SculptTool::Inflate,
        SculptTool::Smooth,
        SculptTool::Pinch,
        SculptTool::Flatten,
        SculptTool::Grab,
        SculptTool::Mask,
    ];

    pub open spec fn spec_label(self) -> Seq<char> {
        match self {
            SculptTool::Grab => "Grab"@,
            SculptTool::Draw => "Draw"@,
            SculptTool::Clay => "Clay"@,
            SculptTool::Crease => "Crease"@,
            SculptTool::Inflate => "Inflate"@,
            SculptTool::Smooth => "Smooth"@,
            SculptTool::Pinch => "Pinch"@,
            SculptTool::Flatten => "Flatten"@,
            SculptTool::Mask => "Mask"@,
        }
    }

    #[must_use]
    pub fn label(self) -> (result: &'static str)
        ensures
            result@ == self.spec_label(),
    {
        match self {
            SculptTool::Grab => "Grab",
            SculptTool::Draw => "Draw",
            SculptTool::Clay => "Clay",
            SculptTool::Crease => "Crease",
            SculptTool::Inflate => "Inflate",
            SculptTool::Smooth => "Smooth",
            SculptTool::Pinch => "Pinch",
            SculptTool::Flatten => "Flatten",
            SculptTool::Mask => "Mask",
        }
    }

    pub open spec fn spec_description(self) -> Seq<char> {
        match self {
            SculptTool::Grab => "Pull a region of the surface with the pointer."@,
            SculptTool::Draw => "Raise the surface, or lower it while inverted."@,
            SculptTool::Clay => "Build or trim broad forms against a local surface plane."@,
            SculptTool::Crease => "Cut or raise a sharp line while pinching its sides together."@,
            SculptTool::Inflate =>
                "Expand the surface along its normals, or deflate it while inverted."@,
            SculptTool::Smooth =>
                "Relax surface variation without changing the overall form quickly."@,
            SculptTool::Pinch => "Pull nearby surface points toward the brush center."@,
            SculptTool::Flatten => "Move the surface toward the brush's local plane."@,
            SculptTool::Mask => "Paint protection that limits the effect of sculpting tools."@,
        }
    }

    #[must_use]
    pub fn description(self) -> (result: &'static str)
        ensures
            result@ == self.spec_description(),
    {
        match self {
            SculptTool::Grab => "Pull a region of the surface with the pointer.",
            SculptTool::Draw => "Raise the surface, or lower it while inverted.",
            SculptTool::Clay => "Build or trim broad forms against a local surface plane.",
            SculptTool::Crease => "Cut or raise a sharp line while pinching its sides together.",
            SculptTool::Inflate =>
                "Expand the surface along its normals, or deflate it while inverted.",
            SculptTool::Smooth =>
                "Relax surface variation without changing the overall form quickly.",
            SculptTool::Pinch => "Pull nearby surface points toward the brush center.",
            SculptTool::Flatten => "Move the surface toward the brush's local plane.",
            SculptTool::Mask => "Paint protection that limits the effect of sculpting tools.",
        }
    }

    pub open spec fn spec_code(self) -> u32 {
        match self {
            SculptTool::Grab => 0,
            SculptTool::Draw => 1,
            SculptTool::Clay => 2,
            SculptTool::Crease => 3,
            SculptTool::Inflate => 4,
            SculptTool::Smooth => 5,
            SculptTool::Pinch => 6,
            SculptTool::Flatten => 7,
            SculptTool::Mask => 8,
        }
    }

    /// A number of its own for each tool.
    pub(crate) fn code(self) -> (result: u32)
        ensures
            result == self.spec_code(),
    {
        match self {
            SculptTool::Grab => 0,
            SculptTool::Draw => 1,
            SculptTool::Clay => 2,
            SculptTool::Crease => 3,
            SculptTool::Inflate => 4,
            SculptTool::Smooth => 5,
            SculptTool::Pinch => 6,
            SculptTool::Flatten => 7,
            SculptTool::Mask => 8,
        }
    }
}

/// The axis across which a stroke is mirrored.
#[derive(Clone, Copy, Debug, PartialEq, Eq, Structural)]
pub enum SymmetryAxis {
    X,
    Y,
    Z,
}

impl SymmetryAxis {
    pub open spec fn spec_reflect_point<O: Arithmetic>(
        self,
        ops: &O,
        point: Point,
        plane_center: Point,
    ) -> Point {
        match self {
            SymmetryAxis::X => Point {
                x: ops.spec_difference(ops.spec_product(scalar::TWO, plane_center.x), point.x),
                ..point
            },
            SymmetryAxis::Y => Point {
                y: ops.spec_difference(ops.spec_product(scalar::TWO, plane_center.y), point.y),
                ..point
            },
            SymmetryAxis::Z => Point {
                z: ops.spec_difference(ops.spec_product(scalar::TWO, plane_center.z), point.z),
                ..point
            },
        }
    }

    /// The point on the other side of the plane through a center.
    #[must_use]
    pub fn reflect_point<O: Arithmetic>(
        self,
        point: Point,
        plane_center: Point,
        ops: &O,
    ) -> (result: Point)
        requires
            ops.total(),
        ensures
            result == self.spec_reflect_point(ops, point, plane_center),
    {
        let mut reflected = point;
        match self {
            SymmetryAxis::X => {
                reflected.x = ops.difference(ops.product(scalar::TWO, plane_center.x), point.x);
            },
            SymmetryAxis::Y => {
                reflected.y = ops.difference(ops.product(scalar::TWO, plane_center.y), point.y);
            },
            SymmetryAxis::Z => {
                reflected.z = ops.difference(ops.product(scalar::TWO, plane_center.z), point.z);
            },
        }
        reflected
    }

    pub open spec fn spec_reflect_vector(self, vector: Point) -> Point {
        match self {
            SymmetryAxis::X => Point { x: scalar::negated(vector.x), ..vector },
            SymmetryAxis::Y => Point { y: scalar::negated(vector.y), ..vector },
            SymmetryAxis::Z => Point { z: scalar::negated(vector.z), ..vector },
        }
    }

    #[must_use]
    pub fn reflect_vector(self, vector: Point) -> (result: Point)
        ensures
            result == self.spec_reflect_vector(vector),
    {
        match self {
            SymmetryAxis::X => Point { x: scalar::negate(vector.x), y: vector.y, z: vector.z },
            SymmetryAxis::Y => Point { x: vector.x, y: scalar::negate(vector.y), z: vector.z },
            SymmetryAxis::Z => Point { x: vector.x, y: vector.y, z: scalar::negate(vector.z) },
        }
    }
}

/// Reflecting a vector twice gives it back.
pub proof fn reflecting_twice_gives_the_vector_back(axis: SymmetryAxis, vector: Point)
    ensures
        axis.spec_reflect_vector(axis.spec_reflect_vector(vector)) == vector,
{
}

/// Whether the dabs of a stroke add up where they overlap.
#[derive(Clone, Copy, Debug, PartialEq, Eq, Structural)]
pub enum Accumulation {
    Capped,
    Accumulate,
}

impl Default for Accumulation {
    fn default() -> (result: Accumulation)
        ensures
            result == Accumulation::Capped,
    {
        Accumulation::Capped
    }
}

/// What a brush is set to. The radius is in the mesh's coordinates, the strength is normally at
/// most one, and the falloff is the hard core of the brush, from 0 for soft to 1 for hard edged.
#[derive(Clone, Copy, Debug, PartialEq, Eq, Structural)]
pub struct BrushSettings {
    pub radius: u32,
    pub strength: u32,
    pub falloff: u32,
    pub invert: bool,
    pub symmetry: Option<SymmetryAxis>,
    pub accumulation: Accumulation,
}

/// The bit pattern of `0.35`.
pub const DEFAULT_STRENGTH: u32 = 0x3eb3_3333;

/// The bit pattern of `0.15`.
pub const DEFAULT_FALLOFF: u32 = 0x3e19_999a;

impl Default for BrushSettings {
    fn default() -> (result: BrushSettings)
        ensures
            result.radius == scalar::ONE,
            result.strength == DEFAULT_STRENGTH,
            result.falloff == DEFAULT_FALLOFF,
            !result.invert,
            result.symmetry is None,
            result.accumulation == Accumulation::Capped,
    {
        BrushSettings {
            radius: scalar::ONE,
            strength: DEFAULT_STRENGTH,
            falloff: DEFAULT_FALLOFF,
            invert: false,
            symmetry: None,
            accumulation: Accumulation::Capped,
        }
    }
}

/// One sample of an active stroke, in the mesh's coordinates.
///
/// The drag is the pointer's movement since the sample before, and the view goes from the camera
/// to the mesh.
#[derive(Clone, Copy, Debug, PartialEq, Eq, Structural)]
pub struct BrushSample {
    pub center: Point,
    pub normal: Point,
    pub drag_delta: Point,
    pub view_direction: Point,
    pub seed_triangle: u32,
    pub pressure: u32,
    pub invert_modifier: bool,
}

/// Whether a dab came from the pointer's movement or from time passing.
#[derive(Clone, Copy, Debug, PartialEq, Eq, Structural)]
pub enum DabKind {
    Spatial,
    Timed,
}

impl BrushSample {
    #[must_use]
    pub fn from_hit(
        hit: &RayHit,
        drag_delta: Point,
        view_direction: Point,
        pressure: u32,
        invert_modifier: bool,
    ) -> (result: BrushSample)
        ensures
            result == (BrushSample {
                center: hit.position,
                normal: hit.normal,
                drag_delta,
                view_direction,
                seed_triangle: hit.triangle,
                pressure,
                invert_modifier,
            }),
    {
        BrushSample {
            center: hit.position,
            normal: hit.normal,
            drag_delta,
            view_direction,
            seed_triangle: hit.triangle,
            pressure,
            invert_modifier,
        }
    }

    /// The sample on the other side of a plane, over a triangle there.
    pub open spec fn spec_reflected<O: Arithmetic>(
        self,
        ops: &O,
        axis: SymmetryAxis,
        plane_center: Point,
        seed_triangle: u32,
    ) -> BrushSample {
        BrushSample {
            center: axis.spec_reflect_point(ops, self.center, plane_center),
            normal: axis.spec_reflect_vector(self.normal),
            drag_delta: axis.spec_reflect_vector(self.drag_delta),
            view_direction: axis.spec_reflect_vector(self.view_direction),
            seed_triangle,
            pressure: self.pressure,
            invert_modifier: self.invert_modifier,
        }
    }

    pub(crate) fn reflected<O: Arithmetic>(
        self,
        axis: SymmetryAxis,
        plane_center: Point,
        seed_triangle: u32,
        ops: &O,
    ) -> (result: BrushSample)
        requires
            ops.total(),
        ensures
            result == self.spec_reflected(ops, axis, plane_center, seed_triangle),
    {
        BrushSample {
            center: axis.reflect_point(self.center, plane_center, ops),
            normal: axis.reflect_vector(self.normal),
            drag_delta: axis.reflect_vector(self.drag_delta),
            view_direction: axis.reflect_vector(self.view_direction),
            seed_triangle,
            pressure: self.pressure,
            invert_modifier: self.invert_modifier,
        }
    }
}

/// What a capped stroke keeps account of apart from the tool.
#[derive(Clone, Copy, Debug, PartialEq, Eq, Hash, Structural)]
pub enum CoveragePolarity {
    Add,
    Subtract,
    Neutral,
}

/// The account that a dab of a capped stroke is put on.
#[derive(Clone, Copy, Debug, PartialEq, Eq, Hash, Structural)]
pub struct CoverageChannel {
    pub tool: SculptTool,
    pub polarity: CoveragePolarity,
}

/// The number of accounts.
pub const CHANNEL_COUNT: usize = 27;

impl CoverageChannel {
    pub open spec fn of_sample(tool: SculptTool, inverted: bool) -> Option<CoverageChannel> {
        match tool {
            SculptTool::Grab => None,
            SculptTool::Smooth => Some(
                CoverageChannel { tool, polarity: CoveragePolarity::Neutral },
            ),
            _ => if inverted {
                Some(CoverageChannel { tool, polarity: CoveragePolarity::Subtract })
            } else {
                Some(CoverageChannel { tool, polarity: CoveragePolarity::Add })
            },
        }
    }

    /// The account for a dab. Grab has none, and for Smooth it makes no difference whether the
    /// brush is inverted.
    pub fn for_sample(tool: SculptTool, inverted: bool) -> (result: Option<CoverageChannel>)
        ensures
            result == CoverageChannel::of_sample(tool, inverted),
    {
        let polarity = match tool {
            SculptTool::Grab => {
                return None;
            },
            SculptTool::Smooth => CoveragePolarity::Neutral,
            _ => if inverted {
                CoveragePolarity::Subtract
            } else {
                CoveragePolarity::Add
            },
        };
        Some(CoverageChannel { tool, polarity })
    }

    pub open spec fn spec_code(self) -> int {
        3 * self.tool.spec_code() + match self.polarity {
            CoveragePolarity::Add => 0int,
            CoveragePolarity::Subtract => 1int,
            CoveragePolarity::Neutral => 2int,
        }
    }

    /// A number of its own for each account.
    pub(crate) fn code(self) -> (result: usize)
        ensures
            result == self.spec_code(),
            result < CHANNEL_COUNT,
    {
        let tool = self.tool.code() as usize;
        match self.polarity {
            CoveragePolarity::Add => 3 * tool,
            CoveragePolarity::Subtract => 3 * tool + 1,
            CoveragePolarity::Neutral => 3 * tool + 2,
        }
    }
}

/// No two accounts share a number.
pub proof fn codes_tell_channels_apart(a: CoverageChannel, b: CoverageChannel)
    requires
        a.spec_code() == b.spec_code(),
    ensures
        a == b,
{
}

/// The bit pattern of `0.9999`, the hardest core of a brush.
pub const HARDEST: u32 = 0x3f7f_f972;

/// The weight of a brush at a distance, in radii: one in the hard core, zero from the edge on, and
/// a smooth step between.
pub open spec fn falloff_of<O: Arithmetic>(
    ops: &O,
    normalized_distance: u32,
    hardness: u32,
) -> u32 {
    let core = scalar::clamped(hardness, scalar::ZERO, HARDEST);
    if !scalar::finite(normalized_distance) || scalar::le(scalar::ONE, normalized_distance) {
        scalar::ZERO
    } else if scalar::le(normalized_distance, scalar::ZERO) || scalar::le(
        normalized_distance,
        core,
    ) {
        scalar::ONE
    } else {
        let t = scalar::clamped(
            ops.spec_quotient(
                ops.spec_difference(normalized_distance, core),
                ops.spec_difference(scalar::ONE, core),
            ),
            scalar::ZERO,
            scalar::ONE,
        );
        ops.spec_difference(
            scalar::ONE,
            ops.spec_product(
                ops.spec_product(t, t),
                ops.spec_difference(scalar::THREE, ops.spec_product(scalar::TWO, t)),
            ),
        )
    }
}

/// Smooth radial brush weight with an optional hard inner core.
#[must_use]
pub fn brush_falloff<O: Arithmetic>(
    normalized_distance: u32,
    hardness: u32,
    ops: &O,
) -> (result: u32)
    requires
        ops.total(),
    ensures
        result == falloff_of(ops, normalized_distance, hardness),
{
    if !scalar::is_finite(normalized_distance) || scalar::is_at_most(
        scalar::ONE,
        normalized_distance,
    ) {
        return scalar::ZERO;
    }
    if scalar::is_at_most(normalized_distance, scalar::ZERO) {
        return scalar::ONE;
    }
    let core = scalar::clamp(hardness, scalar::ZERO, HARDEST);
    if scalar::is_at_most(normalized_distance, core) {
        return scalar::ONE;
    }
    let t = scalar::clamp(
        ops.quotient(
            ops.difference(normalized_distance, core),
            ops.difference(scalar::ONE, core),
        ),
        scalar::ZERO,
        scalar::ONE,
    );
    let smoothstep = ops.product(
        ops.product(t, t),
        ops.difference(scalar::THREE, ops.product(scalar::TWO, t)),
    );
    ops.difference(scalar::ONE, smoothstep)
}

/// The weight of a brush at a position.
pub open spec fn weight_at<O: Arithmetic>(
    ops: &O,
    settings: BrushSettings,
    center: Point,
    position: Point,
) -> u32 {
    falloff_of(
        ops,
        ops.spec_quotient(arithmetic::spec_distance(ops, position, center), settings.radius),
        settings.falloff,
    )
}

pub(crate) fn brush_weight<O: Arithmetic>(
    settings: &BrushSettings,
    center: Point,
    position: Point,
    ops: &O,
) -> (result: u32)
    requires
        ops.total(),
    ensures
        result == weight_at(ops, *settings, center, position),
{
    brush_falloff(
        ops.quotient(arithmetic::distance(ops, position, center), settings.radius),
        settings.falloff,
        ops,
    )
}

/// Outside its radius a brush has no weight, and in its core all of it.
pub proof fn a_brush_ends_at_its_radius<O: Arithmetic>(
    ops: &O,
    normalized_distance: u32,
    hardness: u32,
)
    ensures
        scalar::le(scalar::ONE, normalized_distance) ==> falloff_of(
            ops,
            normalized_distance,
            hardness,
        ) == scalar::ZERO,
        scalar::finite(normalized_distance) && scalar::le(normalized_distance, scalar::ZERO)
            ==> falloff_of(ops, normalized_distance, hardness) == scalar::ONE,
        scalar::le(normalized_distance, hardness) && scalar::lt(hardness, HARDEST) && scalar::finite(
            normalized_distance,
        ) ==> falloff_of(ops, normalized_distance, hardness) == scalar::ONE,
{
}

} // verus!
